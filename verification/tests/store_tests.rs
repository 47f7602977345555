use twse_announcements::records::Announcement;
use twse_announcements::store::apply_write;
use twse_announcements::store::parse_write_mode;
use twse_announcements::store::replace_batch;
use twse_announcements::store::skip_batch;
use twse_announcements::store::tag_batch;
use twse_announcements::store::upsert_batch;
use twse_announcements::store::WriteMode;
use twse_announcements::store::WriteOutcome;

fn ann(code: &str, date: &str, time: &str, title: &str) -> Announcement {
    Announcement {
        company_code: code.to_string(),
        company_name: format!("company {code}"),
        title: title.to_string(),
        date: date.to_string(),
        time: time.to_string(),
        detail_content: None,
        announcement_type: None,
        fact_date: None,
        fact_occurrence_date: None,
        clause_code: None,
        raw_html: Some("<tr></tr>".to_string()),
        query_date: None,
    }
}

#[test]
fn mode_strings_parse() {
    assert!(matches!(parse_write_mode("upsert"), Ok(WriteMode::Upsert)));
    assert!(matches!(parse_write_mode("replace"), Ok(WriteMode::Replace)));
    assert!(matches!(parse_write_mode("skip"), Ok(WriteMode::Skip)));
}

#[test]
fn unknown_mode_is_a_named_configuration_error() {
    let e = parse_write_mode("merge").unwrap_err();
    assert_eq!(e.mode, "merge");
    assert!(e.message().contains("merge"));
    assert!(e.message().contains("upsert, replace, skip"));
}

#[test]
fn upsert_inserts_then_updates() {
    let mut store: Vec<Announcement> = Vec::new();
    let batch = vec![
        ann("2330", "2025-08-15", "07:00", "T1"),
        ann("2454", "2025-08-15", "08:00", "T2"),
    ];
    let (inserted, updated) = upsert_batch(&mut store, &batch);
    assert_eq!((inserted, updated), (2, 0));
    assert_eq!(store.len(), 2);
    let mut changed = ann("2330", "2025-08-15", "07:00", "T1");
    changed.clause_code = Some("4".to_string());
    let (inserted2, updated2) = upsert_batch(&mut store, &vec![changed.clone()]);
    assert_eq!((inserted2, updated2), (0, 1));
    assert_eq!(store.len(), 2);
    assert_eq!(store[0], changed);
}

#[test]
fn upsert_twice_changes_nothing() {
    let mut store = vec![ann("9999", "2025-08-01", "09:00", "old")];
    let batch = vec![
        ann("2330", "2025-08-15", "07:00", "T1"),
        ann("2454", "2025-08-15", "08:00", "T2"),
        ann("2330", "2025-08-15", "07:00", "T1"),
    ];
    upsert_batch(&mut store, &batch);
    let after_first = store.clone();
    let (inserted, updated) = upsert_batch(&mut store, &batch);
    assert_eq!(inserted, 0);
    assert_eq!(updated, batch.len());
    assert_eq!(store.len(), after_first.len());
    assert_eq!(store, after_first);
}

#[test]
fn skip_leaves_existing_records_untouched() {
    let mut stored = ann("2330", "2025-08-15", "07:00", "T1");
    stored.clause_code = Some("4".to_string());
    let mut store = vec![stored.clone()];
    let batch = vec![
        ann("2330", "2025-08-15", "07:00", "T1"),
        ann("2454", "2025-08-15", "08:00", "T2"),
    ];
    let (inserted, skipped) = skip_batch(&mut store, &batch);
    assert_eq!((inserted, skipped), (1, 1));
    assert_eq!(store.len(), 2);
    assert_eq!(store[0], stored);
    assert_eq!(store[1].company_code, "2454");
}

#[test]
fn replace_purges_the_batch_tag_only() {
    let mut a1 = ann("2330", "2025-08-15", "07:00", "T1");
    a1.query_date = Some("2025-08-15".to_string());
    let mut a2 = ann("2454", "2025-08-15", "08:00", "T2");
    a2.query_date = Some("2025-08-15".to_string());
    let mut a3 = ann("1101", "2025-08-14", "09:00", "T3");
    a3.query_date = Some("2025-08-14".to_string());
    let mut store = vec![a1, a2, a3.clone()];
    let batch = vec![ann("3008", "2025-08-15", "10:00", "T4")];
    let (deleted, inserted) = replace_batch(&mut store, &batch, "2025-08-15");
    assert_eq!((deleted, inserted), (2, 1));
    assert_eq!(store.len(), 2);
    assert_eq!(store[0], a3);
    assert_eq!(store[1].company_code, "3008");
}

#[test]
fn tagging_sets_query_date_and_drops_markup() {
    let batch = vec![ann("2330", "2025-08-15", "07:00", "T1")];
    let tagged = tag_batch(&batch, "2025-08-15");
    assert_eq!(tagged.len(), 1);
    assert_eq!(tagged[0].query_date.as_deref(), Some("2025-08-15"));
    assert_eq!(tagged[0].raw_html, None);
    assert_eq!(tagged[0].company_code, "2330");
}

#[test]
fn apply_write_dispatches_and_tags() {
    let mut store: Vec<Announcement> = Vec::new();
    let batch = vec![ann("2330", "2025-08-15", "07:00", "T1")];
    let outcome = apply_write(&mut store, &batch, "upsert", "2025-08-15").unwrap();
    assert_eq!(outcome, WriteOutcome::Upserted { inserted: 1, updated: 0 });
    assert_eq!(store[0].query_date.as_deref(), Some("2025-08-15"));
    assert_eq!(store[0].raw_html, None);
}

#[test]
fn apply_write_twice_in_upsert_mode_is_idempotent() {
    let mut store: Vec<Announcement> = Vec::new();
    let batch = vec![
        ann("2330", "2025-08-15", "07:00", "T1"),
        ann("2454", "2025-08-15", "08:00", "T2"),
    ];
    apply_write(&mut store, &batch, "upsert", "2025-08-15").unwrap();
    let after_first = store.clone();
    apply_write(&mut store, &batch, "upsert", "2025-08-15").unwrap();
    assert_eq!(store, after_first);
}

#[test]
fn apply_write_rejects_unknown_mode_and_changes_nothing() {
    let mut store = vec![ann("2330", "2025-08-15", "07:00", "T1")];
    let before = store.clone();
    let e = apply_write(&mut store, &vec![ann("2454", "x", "y", "z")], "append", "2025-08-15")
        .unwrap_err();
    assert_eq!(e.mode, "append");
    assert_eq!(store, before);
}

#[test]
fn configuration_error_message_is_exact() {
    let e = parse_write_mode("bulk").unwrap_err();
    assert_eq!(
        e.message(),
        "不支援的防重複模式: bulk。支援的模式: upsert, replace, skip"
    );
}
