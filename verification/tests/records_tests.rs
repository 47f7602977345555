use twse_announcements::records::clause_code_table;
use twse_announcements::records::needs_seed;
use twse_announcements::records::Announcement;
use twse_announcements::records::ClauseCode;
use twse_announcements::viewer::date_format_stats;
use twse_announcements::viewer::sort_clause_codes;
use twse_announcements::viewer::title_preview;
use twse_announcements::viewer::QueryParams;

fn ann(code: &str, date: &str, time: &str, title: &str) -> Announcement {
    Announcement {
        company_code: code.to_string(),
        company_name: "n".to_string(),
        title: title.to_string(),
        date: date.to_string(),
        time: time.to_string(),
        detail_content: None,
        announcement_type: None,
        fact_date: None,
        fact_occurrence_date: None,
        clause_code: None,
        raw_html: None,
        query_date: None,
    }
}

#[test]
fn clause_table_holds_the_fixed_entries() {
    let table = clause_code_table();
    assert_eq!(table.len(), 50);
    assert_eq!(table[0].code, "1");
    assert_eq!(table[0].description, "信用異常或股票交易異動");
    assert_eq!(table[49].code, "51");
    assert_eq!(table[49].description, "其他重大決策或影響股價事件");
    assert!(table.iter().any(|c| c.code == "40"));
    assert!(table.iter().all(|c| c.code != "39"));
}

#[test]
fn seeding_happens_only_into_an_empty_collection() {
    assert!(needs_seed(0));
    assert!(!needs_seed(1));
    assert!(!needs_seed(50));
}

#[test]
fn identity_is_the_composite_tuple() {
    let a = ann("2330", "2025-08-15", "07:00", "T");
    let mut b = a.clone();
    b.clause_code = Some("4".to_string());
    assert!(a.identity_matches(&b));
    b.time = "07:01".to_string();
    assert!(!a.identity_matches(&b));
}

#[test]
fn clause_codes_sort_numerically_with_unparseable_last() {
    let input = vec![
        ClauseCode { code: "10".to_string(), description: "ten".to_string() },
        ClauseCode { code: "2".to_string(), description: "two".to_string() },
        ClauseCode { code: "x".to_string(), description: "odd".to_string() },
        ClauseCode { code: "1".to_string(), description: "one".to_string() },
    ];
    let sorted = sort_clause_codes(&input);
    let codes: Vec<&str> = sorted.iter().map(|c| c.code.as_str()).collect();
    assert_eq!(codes, vec!["1", "2", "10", "x"]);
}

#[test]
fn date_format_stats_count_per_field_and_spelling() {
    let mut a = ann("2330", "2025-08-15", "07:00", "T1");
    a.query_date = Some("2025-08-15".to_string());
    a.fact_date = Some("114/08/15".to_string());
    let b = ann("2454", "2025-08-16", "08:00", "T2");
    let stats = date_format_stats(&vec![a, b]);
    let lookup = |key: &str| -> Option<u64> {
        stats.iter().find(|e| e.0 == key).map(|e| e.1)
    };
    assert_eq!(lookup("query_date_YYYY-MM-DD"), Some(1));
    assert_eq!(lookup("date_YYYY-MM-DD"), Some(2));
    assert_eq!(lookup("fact_date_YYY/MM/DD_roc"), Some(1));
    assert_eq!(lookup("fact_date_YYYY-MM-DD"), None);
}

#[test]
fn previews_cut_at_fifty_characters() {
    assert_eq!(title_preview("short"), "short...");
    let long: String = "字".repeat(60);
    let preview = title_preview(&long);
    assert_eq!(preview.chars().count(), 53);
    assert!(preview.ends_with("..."));
}

#[test]
fn viewer_defaults_to_first_page_of_twenty() {
    let p = QueryParams::default();
    assert_eq!(p.page, Some(1));
    assert_eq!(p.limit, Some(20));
    assert!(p.company.is_none());
    assert!(p.date.is_none());
    assert!(p.search.is_none());
}
