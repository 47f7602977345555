use twse_announcements::query::build_query_filter;
use twse_announcements::query::effective_limit;
use twse_announcements::query::filter_in_range;
use twse_announcements::query::generate_date_conditions;
use twse_announcements::query::generate_single_date_conditions;
use twse_announcements::query::is_date_in_range;
use twse_announcements::query::listing_sort_keys;
use twse_announcements::query::Cmp;
use twse_announcements::query::DateCondition;
use twse_announcements::query::DateField;
use twse_announcements::query::QueryClause;
use twse_announcements::query::QueryParams;
use twse_announcements::records::Announcement;

fn ann_with_date(date: &str) -> Announcement {
    Announcement {
        company_code: "2330".to_string(),
        company_name: "TSMC".to_string(),
        title: "T".to_string(),
        date: date.to_string(),
        time: "07:00".to_string(),
        detail_content: None,
        announcement_type: None,
        fact_date: None,
        fact_occurrence_date: None,
        clause_code: None,
        raw_html: None,
        query_date: None,
    }
}

#[test]
fn range_conditions_cover_all_spellings() {
    let conds = generate_date_conditions("2025-08-01", "2025-08-31");
    assert_eq!(conds.len(), 12);
    assert_eq!(
        conds[0],
        DateCondition::Range {
            field: DateField::QueryDate,
            low: "2025-08-01".to_string(),
            high: "2025-08-31".to_string(),
        }
    );
    assert_eq!(
        conds[3],
        DateCondition::Range {
            field: DateField::QueryDate,
            low: "114/08/01".to_string(),
            high: "114/08/31".to_string(),
        }
    );
    assert_eq!(
        conds[6],
        DateCondition::Range {
            field: DateField::QueryDate,
            low: "114/8/1".to_string(),
            high: "114/8/31".to_string(),
        }
    );
    assert_eq!(
        conds[9],
        DateCondition::Pattern {
            field: DateField::QueryDate,
            regex: "^(114|2025)/(0?[1-9]|1[0-2])/(0?[1-9]|[12][0-9]|3[01])$".to_string(),
        }
    );
}

#[test]
fn same_day_range_gets_the_exact_pattern() {
    let conds = generate_date_conditions("2025-08-15", "2025-08-15");
    assert_eq!(conds.len(), 12);
    assert_eq!(
        conds[11],
        DateCondition::Pattern {
            field: DateField::FactDate,
            regex: "^(114|2025)/(0?8|8)/(0?15|15)$".to_string(),
        }
    );
}

#[test]
fn pre_offset_years_keep_iso_and_regex_conditions() {
    let conds = generate_date_conditions("1900-01-01", "1900-01-02");
    assert_eq!(conds.len(), 6);
    assert!(conds[..3].iter().all(|c| matches!(c, DateCondition::Range { .. })));
    assert_eq!(
        conds[3],
        DateCondition::Pattern {
            field: DateField::QueryDate,
            regex: "^(1900)/(0?[1-9]|1[0-2])/(0?[1-9]|[12][0-9]|3[01])$".to_string(),
        }
    );
}

#[test]
fn pre_offset_single_dates_keep_the_regex_too() {
    let conds = generate_single_date_conditions("1900-01-01", true);
    assert_eq!(conds.len(), 6);
    assert!(conds[..3].iter().all(|c| matches!(c, DateCondition::Bound { .. })));
    assert_eq!(
        conds[5],
        DateCondition::Pattern {
            field: DateField::FactDate,
            regex: "^(1900)/(0?1|1)/(0?1|1)$".to_string(),
        }
    );
}

#[test]
fn unsplittable_dates_have_no_regex_conditions() {
    let conds = generate_date_conditions("garbage", "junk");
    assert_eq!(conds.len(), 3);
    assert!(conds.iter().all(|c| matches!(c, DateCondition::Range { .. })));
}

#[test]
fn single_date_conditions_bound_in_one_direction() {
    let starts = generate_single_date_conditions("2025-08-15", true);
    assert_eq!(starts.len(), 12);
    assert_eq!(
        starts[0],
        DateCondition::Bound {
            field: DateField::QueryDate,
            cmp: Cmp::Gte,
            value: "2025-08-15".to_string(),
        }
    );
    let ends = generate_single_date_conditions("2025-08-15", false);
    assert!(matches!(ends[0], DateCondition::Bound { cmp: Cmp::Lte, .. }));
}

#[test]
fn post_filter_keeps_local_spellings_and_drops_out_of_range() {
    let inside = ann_with_date("2025/08/15");
    let inside_short = ann_with_date("114/8/15");
    let outside = ann_with_date("2025-09-01");
    let candidates = vec![inside.clone(), inside_short.clone(), outside];
    let kept = filter_in_range(&candidates, "2025-08-01", "2025-08-31");
    assert_eq!(kept, vec![inside, inside_short]);
}

#[test]
fn any_date_field_admits_a_record() {
    let mut a = ann_with_date("not a date");
    assert!(!is_date_in_range(&a, "2025-08-01", "2025-08-31"));
    a.fact_date = Some("114/08/20".to_string());
    assert!(is_date_in_range(&a, "2025-08-01", "2025-08-31"));
    let mut b = ann_with_date("not a date");
    b.query_date = Some("2025-08-02".to_string());
    assert!(is_date_in_range(&b, "2025-08-01", "2025-08-31"));
}

#[test]
fn limits_default_and_cap() {
    assert_eq!(effective_limit(None), 50);
    assert_eq!(effective_limit(Some(10)), 10);
    assert_eq!(effective_limit(Some(1000)), 1000);
    assert_eq!(effective_limit(Some(5000)), 1000);
}

#[test]
fn filter_plan_combines_clauses() {
    let params = QueryParams {
        company: Some("2330".to_string()),
        date: None,
        start_date: Some("2025-08-01".to_string()),
        end_date: Some("2025-08-31".to_string()),
        search: Some("公告".to_string()),
        limit: Some(2000),
    };
    let plan = build_query_filter(&params);
    assert_eq!(plan.limit, 1000);
    assert!(plan.revalidate);
    assert_eq!(plan.clauses.len(), 3);
    assert_eq!(plan.clauses[0], QueryClause::Company { code: "2330".to_string() });
    assert!(matches!(&plan.clauses[1], QueryClause::DateAny { conditions } if conditions.len() == 12));
    assert_eq!(plan.clauses[2], QueryClause::TitleSearch { pattern: "公告".to_string() });
}

#[test]
fn single_date_param_filters_query_date_verbatim() {
    let params = QueryParams {
        company: None,
        date: Some("2025-08-15".to_string()),
        start_date: None,
        end_date: None,
        search: None,
        limit: None,
    };
    let plan = build_query_filter(&params);
    assert_eq!(plan.limit, 50);
    assert!(!plan.revalidate);
    assert_eq!(plan.clauses, vec![QueryClause::QueryDateIs { date: "2025-08-15".to_string() }]);
}

#[test]
fn empty_strings_leave_no_clauses() {
    let params = QueryParams {
        company: Some(String::new()),
        date: Some(String::new()),
        start_date: Some(String::new()),
        end_date: Some(String::new()),
        search: Some(String::new()),
        limit: None,
    };
    let plan = build_query_filter(&params);
    assert!(plan.clauses.is_empty());
    assert!(!plan.revalidate);
}

#[test]
fn start_only_gives_lower_bounds() {
    let params = QueryParams {
        company: None,
        date: Some("ignored-when-start-given".to_string()),
        start_date: Some("2025-08-01".to_string()),
        end_date: None,
        search: None,
        limit: None,
    };
    let plan = build_query_filter(&params);
    assert_eq!(plan.clauses.len(), 1);
    match &plan.clauses[0] {
        QueryClause::DateAny { conditions } => {
            assert!(matches!(conditions[0], DateCondition::Bound { cmp: Cmp::Gte, .. }));
        },
        other => panic!("unexpected clause {other:?}"),
    }
}

#[test]
fn listing_sorts_by_date_time_then_insertion() {
    let keys = listing_sort_keys();
    assert_eq!(keys, vec!["date", "time", "created_at"]);
}
