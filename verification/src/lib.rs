//! Extraction and temporal reconciliation of stock-exchange disclosure
//! announcements: walking scraped HTML tables, decoding suffix-keyed hidden
//! metadata fields, normalizing Gregorian and offset-calendar date spellings,
//! generating storage filter predicates, and planning deduplicated writes.

pub mod dates;
pub mod extract;
pub mod query;
pub mod records;
pub mod store;
pub mod text;
pub mod textparse;
pub mod viewer;
