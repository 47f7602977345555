//! Dedup/upsert write planning.
//!
//! The storage collaborator executes queries and writes; this module holds
//! the decisions: which write mode a configuration string selects, which
//! stored record a candidate is the same disclosure as, and what a batch
//! write leaves in storage under each mode. The store is modelled as a
//! sequence of announcements; the idempotence of the upsert mode is proved
//! against that model.

use vstd::prelude::*;

use crate::records::Announcement;
use crate::records::AnnouncementView;
use crate::records::same_identity;
use crate::records::views;
use crate::text::str_eq;

verus! {

// ---------------------------------------------------------------------------
// Write modes
// ---------------------------------------------------------------------------
/// How a batch write treats records already in storage.
#[derive(Clone, Copy, Debug, PartialEq, Eq, Structural)]
pub enum WriteMode {
    /// Replace the stored record with the same identity tuple, or insert.
    Upsert,
    /// Delete every record with the batch's `query_date` tag, then insert.
    Replace,
    /// Insert only records whose identity tuple is absent.
    Skip,
}

/// The write mode a configuration string selects, if any.
pub open spec fn mode_of(s: Seq<char>) -> Option<WriteMode> {
    if s == "upsert"@ {
        Some(WriteMode::Upsert)
    } else if s == "replace"@ {
        Some(WriteMode::Replace)
    } else if s == "skip"@ {
        Some(WriteMode::Skip)
    } else {
        None
    }
}

/// A configuration error: the write-mode string was not recognized.
#[derive(Clone, Debug, PartialEq)]
pub struct ConfigError {
    /// The unsupported mode string, kept verbatim for the error message.
    pub mode: String,
}

impl ConfigError {
    /// The error message, naming the unsupported mode.
    pub fn message(&self) -> (r: String)
        ensures
            r@ == "不支援的防重複模式: "@ + self.mode@
                + "。支援的模式: upsert, replace, skip"@,
    {
        let mut r = String::from_str("不支援的防重複模式: ");
        r.append(self.mode.as_str());
        r.append("。支援的模式: upsert, replace, skip");
        r
    }
}

/// Parses the configured duplicate-handling mode; any string other than
/// `upsert`, `replace` or `skip` is a configuration error naming the mode.
pub fn parse_write_mode(mode: &str) -> (r: Result<WriteMode, ConfigError>)
    ensures
        match r {
            Ok(m) => mode_of(mode@) == Some(m),
            Err(e) => mode_of(mode@) is None && e.mode@ == mode@,
        },
{
    if str_eq(mode, "upsert") {
        Ok(WriteMode::Upsert)
    } else if str_eq(mode, "replace") {
        Ok(WriteMode::Replace)
    } else if str_eq(mode, "skip") {
        Ok(WriteMode::Skip)
    } else {
        Err(ConfigError { mode: String::from_str(mode) })
    }
}

// ---------------------------------------------------------------------------
// The store model
// ---------------------------------------------------------------------------
/// The index of the first stored record with the same identity tuple as
/// `a`, scanning from `i`; -1 where none matches.
pub open spec fn find_from(s: Seq<AnnouncementView>, a: AnnouncementView, i: int) -> int
    recommends
        0 <= i,
    decreases s.len() - i,
{
    if i < 0 || i >= s.len() {
        -1
    } else if same_identity(s[i], a) {
        i
    } else {
        find_from(s, a, i + 1)
    }
}

/// The index of the first stored record that is the same disclosure as `a`,
/// or -1.
pub open spec fn find_identity(s: Seq<AnnouncementView>, a: AnnouncementView) -> int {
    find_from(s, a, 0)
}

/// One upsert step: replace the first record with `a`'s identity, or append.
pub open spec fn upsert_one(s: Seq<AnnouncementView>, a: AnnouncementView) -> Seq<
    AnnouncementView,
> {
    let j = find_identity(s, a);
    if j >= 0 {
        s.update(j, a)
    } else {
        s.push(a)
    }
}

/// The store after upserting a whole batch, in order.
pub open spec fn upsert_all(s: Seq<AnnouncementView>, b: Seq<AnnouncementView>) -> Seq<
    AnnouncementView,
>
    decreases b.len(),
{
    if b.len() == 0 {
        s
    } else {
        upsert_all(upsert_one(s, b[0]), b.drop_first())
    }
}

/// How many records of the batch an upsert inserts as new.
pub open spec fn upsert_new_count(s: Seq<AnnouncementView>, b: Seq<AnnouncementView>) -> nat
    decreases b.len(),
{
    if b.len() == 0 {
        0
    } else {
        (if find_identity(s, b[0]) < 0 {
            1nat
        } else {
            0nat
        }) + upsert_new_count(upsert_one(s, b[0]), b.drop_first())
    }
}

/// One skip step: keep the store where `a`'s identity is present, else
/// append.
pub open spec fn skip_one(s: Seq<AnnouncementView>, a: AnnouncementView) -> Seq<
    AnnouncementView,
> {
    if find_identity(s, a) >= 0 {
        s
    } else {
        s.push(a)
    }
}

/// The store after a skip-mode batch.
pub open spec fn skip_all(s: Seq<AnnouncementView>, b: Seq<AnnouncementView>) -> Seq<
    AnnouncementView,
>
    decreases b.len(),
{
    if b.len() == 0 {
        s
    } else {
        skip_all(skip_one(s, b[0]), b.drop_first())
    }
}

/// How many records of the batch a skip-mode write inserts.
pub open spec fn skip_new_count(s: Seq<AnnouncementView>, b: Seq<AnnouncementView>) -> nat
    decreases b.len(),
{
    if b.len() == 0 {
        0
    } else {
        (if find_identity(s, b[0]) < 0 {
            1nat
        } else {
            0nat
        }) + skip_new_count(skip_one(s, b[0]), b.drop_first())
    }
}

/// The store with every record carrying the given `query_date` tag removed.
pub open spec fn purge_tag(s: Seq<AnnouncementView>, tag: Seq<char>) -> Seq<AnnouncementView>
    decreases s.len(),
{
    if s.len() == 0 {
        Seq::empty()
    } else if s.last().query_date == Some(tag) {
        purge_tag(s.drop_last(), tag)
    } else {
        purge_tag(s.drop_last(), tag).push(s.last())
    }
}

/// A record as the write interface stores it: tagged with the batch's
/// `query_date` and stripped of its raw markup.
pub open spec fn tagged(a: AnnouncementView, tag: Seq<char>) -> AnnouncementView {
    AnnouncementView { query_date: Some(tag), raw_html: None, ..a }
}

/// The whole batch, tagged.
pub open spec fn tag_all(b: Seq<AnnouncementView>, tag: Seq<char>) -> Seq<AnnouncementView> {
    b.map_values(|a: AnnouncementView| tagged(a, tag))
}

// ---------------------------------------------------------------------------
// Executable planners
// ---------------------------------------------------------------------------
proof fn lemma_find_from_found(s: Seq<AnnouncementView>, a: AnnouncementView, i: int, k: int)
    requires
        0 <= i <= k < s.len(),
        forall|j: int| i <= j < k ==> !same_identity(#[trigger] s[j], a),
        same_identity(s[k], a),
    ensures
        find_from(s, a, i) == k,
    decreases k - i,
{
    if i < k {
        lemma_find_from_found(s, a, i + 1, k);
    }
}

proof fn lemma_find_from_missing(s: Seq<AnnouncementView>, a: AnnouncementView, i: int)
    requires
        0 <= i,
        forall|j: int| i <= j < s.len() ==> !same_identity(#[trigger] s[j], a),
    ensures
        find_from(s, a, i) == -1,
    decreases s.len() - i,
{
    if i < s.len() {
        lemma_find_from_missing(s, a, i + 1);
    }
}

/// Looks up the first stored record that is the same disclosure as `a`.
pub fn find_matching(store: &Vec<Announcement>, a: &Announcement) -> (r: Option<usize>)
    ensures
        match r {
            Some(i) => i < store@.len() && find_identity(views(store@), a@) == i,
            None => find_identity(views(store@), a@) == -1,
        },
{
    let mut i: usize = 0;
    while i < store.len()
        invariant
            i <= store.len(),
            forall|j: int| 0 <= j < i ==> !same_identity(#[trigger] views(store@)[j], a@),
        decreases store.len() - i,
    {
        if store[i].identity_matches(a) {
            proof {
                assert(views(store@)[i as int] == store@[i as int]@);
                lemma_find_from_found(views(store@), a@, 0, i as int);
            }
            return Some(i);
        }
        proof {
            assert(views(store@)[i as int] == store@[i as int]@);
        }
        i = i + 1;
    }
    proof {
        lemma_find_from_missing(views(store@), a@, 0);
    }
    None
}

fn set_at(v: &mut Vec<Announcement>, i: usize, x: Announcement)
    requires
        i < old(v)@.len(),
    ensures
        final(v)@ == old(v)@.update(i as int, x),
{
    v.remove(i);
    v.insert(i, x);
    assert(final(v)@ =~= old(v)@.update(i as int, x));
}

/// Runs an upsert batch against the store model: each record replaces the
/// first stored record with its identity tuple, or is appended. Returns how
/// many records were inserted as new and how many replaced a stored one;
/// a replacement counts as updated whether or not the stored copy differed.
pub fn upsert_batch(store: &mut Vec<Announcement>, batch: &Vec<Announcement>) -> (counts: (
    usize,
    usize,
))
    ensures
        views(final(store)@) == upsert_all(views(old(store)@), views(batch@)),
        counts.0 == upsert_new_count(views(old(store)@), views(batch@)),
        counts.0 + counts.1 == batch@.len(),
{
    let mut inserted: usize = 0;
    let mut updated: usize = 0;
    let mut k: usize = 0;
    while k < batch.len()
        invariant
            k <= batch.len(),
            views(store@) =~= upsert_all(views(old(store)@), views(batch@).take(k as int)),
            inserted == upsert_new_count(views(old(store)@), views(batch@).take(k as int)),
            inserted + updated == k,
        decreases batch.len() - k,
    {
        proof {
            lemma_upsert_all_snoc(views(old(store)@), views(batch@).take(k as int), views(
                batch@,
            )[k as int]);
            lemma_upsert_new_count_snoc(views(old(store)@), views(batch@).take(k as int), views(
                batch@,
            )[k as int]);
            assert(views(batch@).take(k as int).push(views(batch@)[k as int]) =~= views(
                batch@,
            ).take(k as int + 1));
            assert(views(batch@)[k as int] == batch@[k as int]@);
        }
        let rec = batch[k].duplicate();
        match find_matching(store, &rec) {
            Some(j) => {
                set_at(store, j, rec);
                updated = updated + 1;
            },
            None => {
                store.push(rec);
                inserted = inserted + 1;
            },
        }
        proof {
            assert(views(store@) =~= upsert_all(views(old(store)@), views(batch@).take(
                k as int + 1,
            )));
        }
        k = k + 1;
    }
    assert(views(batch@).take(batch@.len() as int) =~= views(batch@));
    (inserted, updated)
}

/// Runs a skip-mode batch against the store model: a record is inserted
/// only where no stored record has its identity tuple. Returns how many
/// records were inserted and how many were skipped as duplicates.
pub fn skip_batch(store: &mut Vec<Announcement>, batch: &Vec<Announcement>) -> (counts: (
    usize,
    usize,
))
    ensures
        views(final(store)@) == skip_all(views(old(store)@), views(batch@)),
        counts.0 == skip_new_count(views(old(store)@), views(batch@)),
        counts.0 + counts.1 == batch@.len(),
{
    let mut inserted: usize = 0;
    let mut skipped: usize = 0;
    let mut k: usize = 0;
    while k < batch.len()
        invariant
            k <= batch.len(),
            views(store@) =~= skip_all(views(old(store)@), views(batch@).take(k as int)),
            inserted == skip_new_count(views(old(store)@), views(batch@).take(k as int)),
            inserted + skipped == k,
        decreases batch.len() - k,
    {
        proof {
            lemma_skip_all_snoc(views(old(store)@), views(batch@).take(k as int), views(
                batch@,
            )[k as int]);
            lemma_skip_new_count_snoc(views(old(store)@), views(batch@).take(k as int), views(
                batch@,
            )[k as int]);
            assert(views(batch@).take(k as int).push(views(batch@)[k as int]) =~= views(
                batch@,
            ).take(k as int + 1));
            assert(views(batch@)[k as int] == batch@[k as int]@);
        }
        let rec = batch[k].duplicate();
        match find_matching(store, &rec) {
            Some(_) => {
                skipped = skipped + 1;
            },
            None => {
                store.push(rec);
                inserted = inserted + 1;
            },
        }
        proof {
            assert(views(store@) =~= skip_all(views(old(store)@), views(batch@).take(
                k as int + 1,
            )));
        }
        k = k + 1;
    }
    assert(views(batch@).take(batch@.len() as int) =~= views(batch@));
    (inserted, skipped)
}

/// Runs a replace-mode batch against the store model: every stored record
/// carrying the batch's `query_date` tag is deleted, then the whole batch
/// is appended unconditionally. Returns how many records were deleted and
/// how many inserted.
pub fn replace_batch(store: &mut Vec<Announcement>, batch: &Vec<Announcement>, tag: &str) -> (counts: (
    usize,
    usize,
))
    ensures
        views(final(store)@) == purge_tag(views(old(store)@), tag@) + views(batch@),
        counts.0 == old(store)@.len() - purge_tag(views(old(store)@), tag@).len(),
        counts.1 == batch@.len(),
{
    let before = store.len();
    let mut kept: Vec<Announcement> = Vec::new();
    let mut i: usize = 0;
    while i < store.len()
        invariant
            i <= store.len(),
            views(kept@) =~= purge_tag(views(store@).take(i as int), tag@),
            kept@.len() <= i,
        decreases store.len() - i,
    {
        proof {
            assert(views(store@).take(i as int + 1).drop_last() =~= views(store@).take(i as int));
            assert(views(store@).take(i as int + 1).last() == store@[i as int]@);
        }
        let drop_it = match &store[i].query_date {
            Some(q) => str_eq(q.as_str(), tag),
            None => false,
        };
        if !drop_it {
            let rec = store[i].duplicate();
            proof {
                assert(views(kept@.push(store@[i as int])) =~= views(kept@).push(
                    store@[i as int]@,
                ));
            }
            kept.push(rec);
        }
        i = i + 1;
    }
    assert(views(store@).take(store@.len() as int) =~= views(store@));
    let deleted = before - kept.len();
    let mut j: usize = 0;
    while j < batch.len()
        invariant
            j <= batch.len(),
            views(kept@) =~= purge_tag(views(old(store)@), tag@) + views(batch@).take(j as int),
        decreases batch.len() - j,
    {
        let rec = batch[j].duplicate();
        proof {
            assert(views(kept@.push(batch@[j as int])) =~= views(kept@).push(batch@[j as int]@));
            assert(purge_tag(views(old(store)@), tag@) + views(batch@).take(j as int + 1) =~= (
            purge_tag(views(old(store)@), tag@) + views(batch@).take(j as int)).push(
                batch@[j as int]@,
            ));
        }
        kept.push(rec);
        j = j + 1;
    }
    assert(views(batch@).take(batch@.len() as int) =~= views(batch@));
    let inserted = batch.len();
    *store = kept;
    (deleted, inserted)
}

// ---------------------------------------------------------------------------
// Snoc lemmas for the batch folds
// ---------------------------------------------------------------------------
proof fn lemma_upsert_all_snoc(s: Seq<AnnouncementView>, b: Seq<AnnouncementView>, x: AnnouncementView)
    ensures
        upsert_all(s, b.push(x)) == upsert_one(upsert_all(s, b), x),
    decreases b.len(),
{
    if b.len() == 0 {
        assert(b.push(x)[0] == x);
        assert(b.push(x).drop_first() =~= Seq::<AnnouncementView>::empty());
        assert(upsert_all(upsert_one(s, x), Seq::<AnnouncementView>::empty())
            == upsert_one(s, x));
    } else {
        assert(b.push(x)[0] == b[0]);
        assert(b.push(x).drop_first() =~= b.drop_first().push(x));
        lemma_upsert_all_snoc(upsert_one(s, b[0]), b.drop_first(), x);
    }
}

proof fn lemma_upsert_new_count_snoc(
    s: Seq<AnnouncementView>,
    b: Seq<AnnouncementView>,
    x: AnnouncementView,
)
    ensures
        upsert_new_count(s, b.push(x)) == upsert_new_count(s, b) + (if find_identity(
            upsert_all(s, b),
            x,
        ) < 0 {
            1nat
        } else {
            0nat
        }),
    decreases b.len(),
{
    if b.len() == 0 {
        assert(b.push(x)[0] == x);
        assert(b.push(x).drop_first() =~= Seq::<AnnouncementView>::empty());
        assert(upsert_new_count(upsert_one(s, x), Seq::<AnnouncementView>::empty()) == 0);
        assert(upsert_all(s, Seq::<AnnouncementView>::empty()) == s);
        assert(upsert_new_count(s, Seq::<AnnouncementView>::empty()) == 0);
    } else {
        assert(b.push(x)[0] == b[0]);
        assert(b.push(x).drop_first() =~= b.drop_first().push(x));
        lemma_upsert_new_count_snoc(upsert_one(s, b[0]), b.drop_first(), x);
    }
}

proof fn lemma_skip_all_snoc(s: Seq<AnnouncementView>, b: Seq<AnnouncementView>, x: AnnouncementView)
    ensures
        skip_all(s, b.push(x)) == skip_one(skip_all(s, b), x),
    decreases b.len(),
{
    if b.len() == 0 {
        assert(b.push(x)[0] == x);
        assert(b.push(x).drop_first() =~= Seq::<AnnouncementView>::empty());
        assert(skip_all(skip_one(s, x), Seq::<AnnouncementView>::empty())
            == skip_one(s, x));
    } else {
        assert(b.push(x)[0] == b[0]);
        assert(b.push(x).drop_first() =~= b.drop_first().push(x));
        lemma_skip_all_snoc(skip_one(s, b[0]), b.drop_first(), x);
    }
}

proof fn lemma_skip_new_count_snoc(
    s: Seq<AnnouncementView>,
    b: Seq<AnnouncementView>,
    x: AnnouncementView,
)
    ensures
        skip_new_count(s, b.push(x)) == skip_new_count(s, b) + (if find_identity(
            skip_all(s, b),
            x,
        ) < 0 {
            1nat
        } else {
            0nat
        }),
    decreases b.len(),
{
    if b.len() == 0 {
        assert(b.push(x)[0] == x);
        assert(b.push(x).drop_first() =~= Seq::<AnnouncementView>::empty());
        assert(skip_new_count(skip_one(s, x), Seq::<AnnouncementView>::empty()) == 0);
        assert(skip_all(s, Seq::<AnnouncementView>::empty()) == s);
        assert(skip_new_count(s, Seq::<AnnouncementView>::empty()) == 0);
    } else {
        assert(b.push(x)[0] == b[0]);
        assert(b.push(x).drop_first() =~= b.drop_first().push(x));
        lemma_skip_new_count_snoc(skip_one(s, b[0]), b.drop_first(), x);
    }
}

// ---------------------------------------------------------------------------
// Whole-batch writes
// ---------------------------------------------------------------------------
/// Tags every record of a batch with the `query_date` under which the
/// scrape ran, and strips the raw markup, as the write interface stores
/// records.
pub fn tag_batch(batch: &Vec<Announcement>, tag: &str) -> (r: Vec<Announcement>)
    ensures
        views(r@) == tag_all(views(batch@), tag@),
{
    let mut r: Vec<Announcement> = Vec::new();
    let mut i: usize = 0;
    while i < batch.len()
        invariant
            i <= batch.len(),
            views(r@) =~= tag_all(views(batch@), tag@).take(i as int),
        decreases batch.len() - i,
    {
        let mut rec = batch[i].duplicate();
        rec.query_date = Some(String::from_str(tag));
        rec.raw_html = None;
        proof {
            assert(views(r@.push(rec)) =~= views(r@).push(rec@));
            assert(tag_all(views(batch@), tag@)[i as int] == tagged(batch@[i as int]@, tag@));
            assert(tag_all(views(batch@), tag@).take(i as int + 1) =~= tag_all(
                views(batch@),
                tag@,
            ).take(i as int).push(tagged(batch@[i as int]@, tag@)));
        }
        r.push(rec);
        i = i + 1;
    }
    assert(tag_all(views(batch@), tag@).take(batch@.len() as int) =~= tag_all(
        views(batch@),
        tag@,
    ));
    r
}

/// What a batch write did, per mode.
#[derive(Clone, Debug, PartialEq, Eq)]
pub enum WriteOutcome {
    /// Upsert mode: how many records were inserted and how many replaced.
    Upserted { inserted: usize, updated: usize },
    /// Replace mode: how many stored records were deleted and how many
    /// batch records inserted.
    Replaced { deleted: usize, inserted: usize },
    /// Skip mode: how many records were inserted and how many skipped.
    Skipped { inserted: usize, skipped: usize },
}

/// Runs one batch write against the store model: the batch is tagged with
/// the scrape's `query_date`, then written under the configured mode. An
/// unrecognized mode string changes nothing and is a configuration error
/// naming the mode.
pub fn apply_write(
    store: &mut Vec<Announcement>,
    batch: &Vec<Announcement>,
    mode: &str,
    query_date: &str,
) -> (r: Result<WriteOutcome, ConfigError>)
    ensures
        match r {
            Ok(outcome) => {
                let tb = tag_all(views(batch@), query_date@);
                match mode_of(mode@) {
                    Some(WriteMode::Upsert) => views(final(store)@) == upsert_all(
                        views(old(store)@),
                        tb,
                    ) && (outcome matches WriteOutcome::Upserted { inserted, updated } ==> inserted
                        == upsert_new_count(views(old(store)@), tb) && inserted + updated
                        == batch@.len()) && (outcome matches WriteOutcome::Upserted { .. }),
                    Some(WriteMode::Replace) => views(final(store)@) == purge_tag(
                        views(old(store)@),
                        query_date@,
                    ) + tb && (outcome matches WriteOutcome::Replaced { .. }),
                    Some(WriteMode::Skip) => views(final(store)@) == skip_all(
                        views(old(store)@),
                        tb,
                    ) && (outcome matches WriteOutcome::Skipped { inserted, skipped } ==> inserted
                        == skip_new_count(views(old(store)@), tb) && inserted + skipped
                        == batch@.len()) && (outcome matches WriteOutcome::Skipped { .. }),
                    None => false,
                }
            },
            Err(e) => mode_of(mode@) is None && e.mode@ == mode@ && final(store)@ == old(
                store,
            )@,
        },
{
    let m = match parse_write_mode(mode) {
        Ok(m) => m,
        Err(e) => {
            return Err(e);
        },
    };
    let tb = tag_batch(batch, query_date);
    match m {
        WriteMode::Upsert => {
            let (inserted, updated) = upsert_batch(store, &tb);
            Ok(WriteOutcome::Upserted { inserted, updated })
        },
        WriteMode::Replace => {
            let (deleted, inserted) = replace_batch(store, &tb, query_date);
            Ok(WriteOutcome::Replaced { deleted, inserted })
        },
        WriteMode::Skip => {
            let (inserted, skipped) = skip_batch(store, &tb);
            Ok(WriteOutcome::Skipped { inserted, skipped })
        },
    }
}

// ---------------------------------------------------------------------------
// Idempotence of the upsert mode
// ---------------------------------------------------------------------------
proof fn lemma_find_spec(s: Seq<AnnouncementView>, a: AnnouncementView, i: int)
    requires
        0 <= i,
    ensures
        find_from(s, a, i) == -1 ==> forall|j: int|
            i <= j < s.len() ==> !same_identity(#[trigger] s[j], a),
        find_from(s, a, i) != -1 ==> i <= find_from(s, a, i) < s.len() && same_identity(
            s[find_from(s, a, i)],
            a,
        ),
    decreases s.len() - i,
{
    if i < s.len() && !same_identity(s[i], a) {
        lemma_find_spec(s, a, i + 1);
    }
}

proof fn lemma_find_congruent(
    s: Seq<AnnouncementView>,
    a: AnnouncementView,
    a2: AnnouncementView,
    i: int,
)
    requires
        0 <= i,
        same_identity(a, a2),
    ensures
        find_from(s, a, i) == find_from(s, a2, i),
    decreases s.len() - i,
{
    if i < s.len() {
        lemma_find_congruent(s, a, a2, i + 1);
    }
}

proof fn lemma_find_stable(
    s: Seq<AnnouncementView>,
    t: Seq<AnnouncementView>,
    a: AnnouncementView,
    i: int,
)
    requires
        0 <= i,
        s.len() == t.len(),
        forall|j: int| 0 <= j < s.len() ==> same_identity(#[trigger] t[j], s[j]),
    ensures
        find_from(t, a, i) == find_from(s, a, i),
    decreases s.len() - i,
{
    if i < s.len() {
        lemma_find_stable(s, t, a, i + 1);
    }
}

proof fn lemma_find_push(s: Seq<AnnouncementView>, y: AnnouncementView, a: AnnouncementView, i: int)
    requires
        0 <= i <= s.len(),
    ensures
        find_from(s, a, i) >= 0 ==> find_from(s.push(y), a, i) == find_from(s, a, i),
        find_from(s, a, i) == -1 && same_identity(y, a) ==> find_from(s.push(y), a, i)
            == s.len(),
        find_from(s, a, i) == -1 && !same_identity(y, a) ==> find_from(s.push(y), a, i) == -1,
    decreases s.len() - i,
{
    if i < s.len() {
        assert(s.push(y)[i] == s[i]);
        lemma_find_push(s, y, a, i + 1);
    } else {
        assert(s.push(y)[i] == y);
        assert(find_from(s.push(y), a, i + 1) == -1);
    }
}

/// The index of the last record before `i` that is the same disclosure as
/// `a`, or -1.
spec fn last_match_before(b: Seq<AnnouncementView>, a: AnnouncementView, i: int) -> int
    decreases i,
{
    if i <= 0 {
        -1
    } else if same_identity(b[i - 1], a) {
        i - 1
    } else {
        last_match_before(b, a, i - 1)
    }
}

/// The index of the batch record that ends up stored for `b[k]`'s identity:
/// the last record of the batch with the same identity tuple.
spec fn last_writer(b: Seq<AnnouncementView>, k: int) -> int {
    last_match_before(b, b[k], b.len() as int)
}

proof fn lemma_lmb_ge(b: Seq<AnnouncementView>, a: AnnouncementView, i: int, k: int)
    requires
        0 <= k < i,
        same_identity(b[k], a),
    ensures
        last_match_before(b, a, i) >= k,
    decreases i,
{
    if i - 1 > k && !same_identity(b[i - 1], a) {
        lemma_lmb_ge(b, a, i - 1, k);
    }
}

proof fn lemma_lmb_matches(b: Seq<AnnouncementView>, a: AnnouncementView, i: int)
    ensures
        last_match_before(b, a, i) == -1 || (0 <= last_match_before(b, a, i) < i
            && same_identity(b[last_match_before(b, a, i)], a)),
    decreases i,
{
    if i > 0 && !same_identity(b[i - 1], a) {
        lemma_lmb_matches(b, a, i - 1);
    }
}

proof fn lemma_lmb_push(b: Seq<AnnouncementView>, x: AnnouncementView, a: AnnouncementView, i: int)
    requires
        0 <= i <= b.len(),
    ensures
        last_match_before(b.push(x), a, i) == last_match_before(b, a, i),
    decreases i,
{
    if i > 0 {
        assert(b.push(x)[i - 1] == b[i - 1]);
        lemma_lmb_push(b, x, a, i - 1);
    }
}

proof fn lemma_lmb_drop_first(b: Seq<AnnouncementView>, a: AnnouncementView, i: int)
    requires
        1 <= i <= b.len(),
        last_match_before(b, a, i) >= 1,
    ensures
        last_match_before(b.drop_first(), a, i - 1) == last_match_before(b, a, i) - 1,
    decreases i,
{
    if i == 1 {
        assert(last_match_before(b, a, 0) == -1);
        assert(false);
    } else {
        assert(b.drop_first()[i - 2] == b[i - 1]);
        if !same_identity(b[i - 1], a) {
            lemma_lmb_drop_first(b, a, i - 1);
        }
    }
}

/// After a whole batch has been upserted, every batch record's identity is
/// present, and the stored copy is the last record of the batch with that
/// identity.
proof fn lemma_upsert_post(s: Seq<AnnouncementView>, b: Seq<AnnouncementView>, k: int)
    requires
        0 <= k < b.len(),
    ensures
        find_identity(upsert_all(s, b), b[k]) >= 0,
        upsert_all(s, b)[find_identity(upsert_all(s, b), b[k])] == b[last_writer(b, k)],
    decreases b.len(),
{
    let c = b.drop_last();
    let x = b.last();
    assert(c.push(x) =~= b);
    lemma_upsert_all_snoc(s, c, x);
    let t0 = upsert_all(s, c);
    let t = upsert_one(t0, x);
    assert(t == upsert_all(s, b));
    let j = find_identity(t0, x);
    lemma_find_spec(t0, x, 0);
    if k < c.len() {
        lemma_upsert_post(s, c, k);
        let f0 = find_identity(t0, c[k]);
        assert(b[k] == c[k]);
        lemma_lmb_matches(c, c[k], c.len() as int);
        lemma_lmb_ge(c, c[k], c.len() as int, k);
        let lwc = last_writer(c, k);
        assert(t0[f0] == c[lwc]);
        assert(same_identity(c[lwc], c[k]));
        lemma_find_spec(t0, c[k], 0);
        if same_identity(x, b[k]) {
            lemma_find_congruent(t0, x, b[k], 0);
            assert(j == f0 >= 0);
            assert(t == t0.update(f0, x));
            assert forall|i: int| 0 <= i < t0.len() implies same_identity(
                #[trigger] t[i],
                t0[i],
            ) by {
                if i == f0 {
                    assert(t[i] == x);
                }
            }
            lemma_find_stable(t0, t, b[k], 0);
            assert(find_identity(t, b[k]) == f0);
            assert(t[f0] == x);
            assert(last_writer(b, k) == b.len() - 1) by {
                assert(same_identity(b[b.len() - 1], b[k]));
            }
        } else {
            if j >= 0 {
                assert(same_identity(t0[j], x));
                assert(t == t0.update(j, x));
                assert(j != f0);
                assert forall|i: int| 0 <= i < t0.len() implies same_identity(
                    #[trigger] t[i],
                    t0[i],
                ) by {
                    if i == j {
                        assert(t[i] == x);
                    }
                }
                lemma_find_stable(t0, t, b[k], 0);
                assert(find_identity(t, b[k]) == f0);
                assert(t[f0] == t0[f0]);
            } else {
                assert(t == t0.push(x));
                lemma_find_push(t0, x, b[k], 0);
                assert(find_identity(t, b[k]) == f0);
                assert(t[f0] == t0[f0]);
            }
            assert(last_writer(b, k) == last_writer(c, k)) by {
                assert(!same_identity(b[b.len() - 1], b[k]));
                lemma_lmb_push(c, x, c[k], c.len() as int);
                assert(c.push(x) == b);
            }
            assert(0 <= lwc < c.len());
            assert(b[last_writer(b, k)] == c[lwc]);
        }
    } else {
        assert(k == c.len());
        assert(b[k] == x);
        if j >= 0 {
            assert(same_identity(t0[j], x));
            assert(t == t0.update(j, x));
            assert forall|i: int| 0 <= i < t0.len() implies same_identity(
                #[trigger] t[i],
                t0[i],
            ) by {
                if i == j {
                    assert(t[i] == x);
                }
            }
            lemma_find_stable(t0, t, x, 0);
            assert(find_identity(t, x) == j);
            assert(t[j] == x);
        } else {
            assert(t == t0.push(x));
            lemma_find_push(t0, x, x, 0);
            assert(find_identity(t, x) == t0.len());
            assert(t[t0.len() as int] == x);
        }
        assert(last_writer(b, k) == b.len() - 1) by {
            assert(same_identity(b[b.len() - 1], b[k]));
        }
        assert(b[b.len() - 1] == x);
    }
}

/// Upserting a batch into a store that already holds, for every batch
/// record's identity, the batch's last record with that identity, changes
/// nothing.
proof fn lemma_second_pass(t: Seq<AnnouncementView>, u: Seq<AnnouncementView>, b: Seq<AnnouncementView>)
    requires
        u.len() == t.len(),
        forall|i: int| 0 <= i < t.len() ==> same_identity(#[trigger] u[i], t[i]),
        forall|k: int| 0 <= k < b.len() ==> #[trigger] find_identity(t, b[k]) >= 0,
        forall|k: int|
            0 <= k < b.len() ==> t[#[trigger] find_identity(t, b[k])] == b[last_writer(b, k)],
        forall|i: int|
            0 <= i < t.len() ==> (#[trigger] u[i] == t[i] || exists|k: int|
                0 <= k < b.len() && #[trigger] find_identity(t, b[k]) == i),
    ensures
        upsert_all(u, b) == t,
    decreases b.len(),
{
    if b.len() == 0 {
        assert(u =~= t);
    } else {
        let x = b[0];
        let bp = b.drop_first();
        let jt = find_identity(t, x);
        assert(jt >= 0);
        lemma_find_spec(t, x, 0);
        lemma_find_stable(t, u, x, 0);
        assert(find_identity(u, x) == jt);
        let up = u.update(jt, x);
        assert(upsert_one(u, x) == up);
        assert(upsert_all(u, b) == upsert_all(up, bp));
        // Identities still agree pointwise.
        lemma_lmb_matches(b, x, b.len() as int);
        lemma_lmb_ge(b, x, b.len() as int, 0);
        assert(0 <= last_writer(b, 0) < b.len());
        assert(same_identity(b[last_writer(b, 0)], x));
        assert(same_identity(x, t[jt]));
        assert forall|i: int| 0 <= i < t.len() implies same_identity(#[trigger] up[i], t[i]) by {
            if i == jt {
                assert(up[i] == x);
            }
        }
        // The remaining batch still finds its slots, holding last writers.
        assert forall|k: int| 0 <= k < bp.len() implies #[trigger] find_identity(t, bp[k])
            >= 0 by {
            assert(bp[k] == b[k + 1]);
        }
        assert forall|k: int| 0 <= k < bp.len() implies t[#[trigger] find_identity(t, bp[k])]
            == bp[last_writer(bp, k)] by {
            assert(bp[k] == b[k + 1]);
            lemma_lmb_ge(b, b[k + 1], b.len() as int, k + 1);
            lemma_lmb_matches(b, b[k + 1], b.len() as int);
            lemma_lmb_drop_first(b, b[k + 1], b.len() as int);
            assert(last_writer(bp, k) == last_writer(b, k + 1) - 1);
            assert(bp[last_writer(b, k + 1) - 1] == b[last_writer(b, k + 1)]);
        }
        // Every changed slot is still owed to some remaining batch record.
        assert forall|i: int|
            0 <= i < t.len() implies (#[trigger] up[i] == t[i] || exists|k: int|
                0 <= k < bp.len() && #[trigger] find_identity(t, bp[k]) == i) by {
            if i == jt {
                let lw0 = last_writer(b, 0);
                if lw0 == 0 {
                    assert(t[jt] == b[0]);
                    assert(up[i] == t[i]);
                } else {
                    assert(bp[lw0 - 1] == b[lw0]);
                    lemma_find_congruent(t, b[lw0], x, 0);
                    assert(find_identity(t, bp[lw0 - 1]) == jt);
                    assert(0 <= lw0 - 1 < bp.len() && find_identity(t, bp[lw0 - 1]) == i);
                }
            } else if up[i] != t[i] {
                assert(u[i] != t[i]);
                let k = choose|k: int|
                    0 <= k < b.len() && #[trigger] find_identity(t, b[k]) == i;
                assert(k != 0);
                assert(bp[k - 1] == b[k]);
                assert(0 <= k - 1 < bp.len() && find_identity(t, bp[k - 1]) == i);
            }
        }
        lemma_second_pass(t, up, bp);
    }
}

/// Upsert is idempotent: replaying the same batch a second time leaves both
/// the record count and the stored content unchanged.
pub proof fn lemma_upsert_idempotent(s: Seq<AnnouncementView>, b: Seq<AnnouncementView>)
    ensures
        upsert_all(upsert_all(s, b), b) == upsert_all(s, b),
{
    let t = upsert_all(s, b);
    assert forall|k: int| 0 <= k < b.len() implies #[trigger] find_identity(t, b[k]) >= 0 && t[
        find_identity(t, b[k])
    ] == b[last_writer(b, k)] by {
        lemma_upsert_post(s, b, k);
    }
    lemma_second_pass(t, t, b);
}

} // verus!
