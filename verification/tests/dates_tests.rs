use twse_announcements::dates::convert_to_roc_date;
use twse_announcements::dates::convert_to_roc_date_short;
use twse_announcements::dates::detect_date_format;
use twse_announcements::dates::format_fact_occurrence_date;
use twse_announcements::dates::is_single_date_in_range;
use twse_announcements::dates::normalize_date_for_comparison;

#[test]
fn fact_date_eight_digits_gets_dashes() {
    assert_eq!(format_fact_occurrence_date("20250815"), "2025-08-15");
    assert_eq!(format_fact_occurrence_date("19111231"), "1911-12-31");
}

#[test]
fn fact_date_other_shapes_pass_through() {
    assert_eq!(format_fact_occurrence_date("2025081"), "2025081");
    assert_eq!(format_fact_occurrence_date("202508155"), "202508155");
    assert_eq!(format_fact_occurrence_date("2025081a"), "2025081a");
    assert_eq!(format_fact_occurrence_date(""), "");
    assert_eq!(format_fact_occurrence_date("2025-08-15"), "2025-08-15");
}

#[test]
fn to_local_subtracts_offset_and_pads() {
    assert_eq!(convert_to_roc_date("2025-08-15").as_deref(), Some("114/08/15"));
    assert_eq!(convert_to_roc_date("2025-8-5").as_deref(), Some("114/08/05"));
    assert_eq!(convert_to_roc_date("1912-01-01").as_deref(), Some("1/01/01"));
}

#[test]
fn to_local_rejects_years_at_or_below_offset() {
    assert_eq!(convert_to_roc_date("1911-12-31"), None);
    assert_eq!(convert_to_roc_date("1900-01-01"), None);
    assert_eq!(convert_to_roc_date("0001-01-01"), None);
}

#[test]
fn to_local_rejects_unparseable_years() {
    assert_eq!(convert_to_roc_date("abcd-01-01"), None);
    assert_eq!(convert_to_roc_date("2025/08/15"), None);
    assert_eq!(convert_to_roc_date(""), None);
}

#[test]
fn to_local_renders_unparseable_month_day_as_zero() {
    assert_eq!(convert_to_roc_date("2025-xx-15").as_deref(), Some("114/00/15"));
}

#[test]
fn to_local_short_is_unpadded() {
    assert_eq!(convert_to_roc_date_short("2025-08-05").as_deref(), Some("114/8/5"));
    assert_eq!(convert_to_roc_date_short("2025-12-31").as_deref(), Some("114/12/31"));
}

#[test]
fn to_local_short_needs_all_components() {
    assert_eq!(convert_to_roc_date_short("2025-xx-15"), None);
    assert_eq!(convert_to_roc_date_short("1911-08-15"), None);
}

#[test]
fn normalize_strips_iso_separators() {
    assert_eq!(normalize_date_for_comparison("2025-08-15").as_deref(), Some("20250815"));
}

#[test]
fn normalize_adds_offset_to_short_local_years() {
    assert_eq!(normalize_date_for_comparison("114/08/15").as_deref(), Some("20250815"));
    assert_eq!(normalize_date_for_comparison("114/8/15").as_deref(), Some("20250815"));
    assert_eq!(normalize_date_for_comparison("1/1/1").as_deref(), Some("19120101"));
}

#[test]
fn normalize_keeps_four_digit_slash_years_gregorian() {
    assert_eq!(normalize_date_for_comparison("2025/08/15").as_deref(), Some("20250815"));
    assert_eq!(normalize_date_for_comparison("2025/8/5").as_deref(), Some("20250805"));
}

#[test]
fn normalize_rejects_unparseable_input() {
    assert_eq!(normalize_date_for_comparison("garbage"), None);
    assert_eq!(normalize_date_for_comparison("20250815"), None);
    assert_eq!(normalize_date_for_comparison("2025-08-155"), None);
    assert_eq!(normalize_date_for_comparison("a/b/c"), None);
}

#[test]
fn normalize_agrees_between_iso_and_local() {
    for iso in ["2025-08-15", "1912-01-01", "2910-12-31", "2025-01-09"] {
        let local = convert_to_roc_date(iso).unwrap();
        assert_eq!(
            normalize_date_for_comparison(iso),
            normalize_date_for_comparison(&local),
            "mismatch for {iso}"
        );
        let short = convert_to_roc_date_short(iso).unwrap();
        assert_eq!(
            normalize_date_for_comparison(iso),
            normalize_date_for_comparison(&short),
            "short mismatch for {iso}"
        );
    }
}

#[test]
fn detect_date_format_labels() {
    assert_eq!(detect_date_format("2025-08-15"), "YYYY-MM-DD");
    assert_eq!(detect_date_format("2025-8-15"), "other_dash");
    assert_eq!(detect_date_format("114/08/15"), "YYY/MM/DD_roc");
    assert_eq!(detect_date_format("2025/08/15"), "YYYY/MM/DD");
    assert_eq!(detect_date_format("25/08/15"), "other_slash");
    assert_eq!(detect_date_format("1/2"), "invalid_slash");
    assert_eq!(detect_date_format("20250815"), "unknown");
}

#[test]
fn range_check_spans_spellings() {
    assert!(is_single_date_in_range("2025/08/15", "2025-08-01", "2025-08-31"));
    assert!(is_single_date_in_range("114/8/15", "2025-08-01", "2025-08-31"));
    assert!(is_single_date_in_range("114/08/01", "2025-08-01", "2025-08-31"));
    assert!(!is_single_date_in_range("2025-09-01", "2025-08-01", "2025-08-31"));
    assert!(!is_single_date_in_range("114/7/31", "2025-08-01", "2025-08-31"));
}

#[test]
fn range_check_falls_back_to_lexical_order() {
    assert!(is_single_date_in_range("abc", "abb", "abd"));
    assert!(!is_single_date_in_range("abe", "abb", "abd"));
}

#[test]
fn normalize_treats_padded_four_digit_groups_as_gregorian() {
    assert_eq!(normalize_date_for_comparison("0114/08/15").as_deref(), Some("01140815"));
}
