//! Query condition generation.
//!
//! A caller asks for announcements in an ISO date range, but storage may
//! hold the same moment as Gregorian ISO, zero-padded local, or un-padded
//! local spelling, across three date fields. The generator produces a
//! disjunction of filter conditions covering every spelling, plus a
//! deliberately permissive per-field regular-expression condition; results
//! must then be re-validated against the requested range with
//! [`record_in_range`], which checks all three date fields.

use vstd::prelude::*;

use crate::dates::component_val;
use crate::dates::convert_to_roc_date;
use crate::dates::convert_to_roc_date_short;
use crate::dates::is_single_date_in_range;
use crate::dates::local_padded;
use crate::dates::local_short;
use crate::dates::single_date_in_range;
use crate::dates::to_local_ok;
use crate::dates::to_local_short_ok;
use crate::records::Announcement;
use crate::records::AnnouncementView;
use crate::records::views;
use crate::text::dec_str;
use crate::text::from_chars;
use crate::text::parse_digits;
use crate::text::push_dec;
use crate::text::split_chars;
use crate::text::split_spec;
use crate::text::str_eq;
use crate::text::to_chars;

verus! {

/// The three stored fields that may carry a date spelling.
#[derive(Clone, Copy, Debug, PartialEq, Eq, Structural)]
pub enum DateField {
    /// The `query_date` batch tag.
    QueryDate,
    /// The announcement's own `date`.
    Date,
    /// The free-text `fact_date`.
    FactDate,
}

/// The direction of a single-ended bound.
#[derive(Clone, Copy, Debug, PartialEq, Eq, Structural)]
pub enum Cmp {
    /// Field at or after the value.
    Gte,
    /// Field at or before the value.
    Lte,
}

/// One storage filter condition on a date field.
#[derive(Clone, Debug, PartialEq)]
pub enum DateCondition {
    /// `low <= field <= high`, as strings.
    Range { field: DateField, low: String, high: String },
    /// A single-ended bound on the field.
    Bound { field: DateField, cmp: Cmp, value: String },
    /// A case-insensitive regular-expression match on the field.
    Pattern { field: DateField, regex: String },
}

/// The model of a [`DateCondition`].
pub enum DateConditionView {
    Range { field: DateField, low: Seq<char>, high: Seq<char> },
    Bound { field: DateField, cmp: Cmp, value: Seq<char> },
    Pattern { field: DateField, regex: Seq<char> },
}

impl View for DateCondition {
    type V = DateConditionView;

    open spec fn view(&self) -> DateConditionView {
        match self {
            DateCondition::Range { field, low, high } => DateConditionView::Range {
                field: *field,
                low: low@,
                high: high@,
            },
            DateCondition::Bound { field, cmp, value } => DateConditionView::Bound {
                field: *field,
                cmp: *cmp,
                value: value@,
            },
            DateCondition::Pattern { field, regex } => DateConditionView::Pattern {
                field: *field,
                regex: regex@,
            },
        }
    }
}

/// The views of a sequence of conditions.
pub open spec fn cviews(s: Seq<DateCondition>) -> Seq<DateConditionView> {
    s.map_values(|c: DateCondition| c@)
}

// ---------------------------------------------------------------------------
// The condition sets
// ---------------------------------------------------------------------------
/// A range condition on each of the three date fields.
pub open spec fn ranges3(low: Seq<char>, high: Seq<char>) -> Seq<DateConditionView> {
    seq![
        DateConditionView::Range { field: DateField::QueryDate, low: low, high: high },
        DateConditionView::Range { field: DateField::Date, low: low, high: high },
        DateConditionView::Range { field: DateField::FactDate, low: low, high: high },
    ]
}

/// A single-ended bound on each of the three date fields.
pub open spec fn bounds3(value: Seq<char>, cmp: Cmp) -> Seq<DateConditionView> {
    seq![
        DateConditionView::Bound { field: DateField::QueryDate, cmp: cmp, value: value },
        DateConditionView::Bound { field: DateField::Date, cmp: cmp, value: value },
        DateConditionView::Bound { field: DateField::FactDate, cmp: cmp, value: value },
    ]
}

/// A regular-expression condition on each of the three date fields.
pub open spec fn patterns3(regex: Seq<char>) -> Seq<DateConditionView> {
    seq![
        DateConditionView::Pattern { field: DateField::QueryDate, regex: regex },
        DateConditionView::Pattern { field: DateField::Date, regex: regex },
        DateConditionView::Pattern { field: DateField::FactDate, regex: regex },
    ]
}

/// The year alternation of a pattern: both the local and the Gregorian
/// spelling where a local year is derivable, and the Gregorian spelling
/// alone where it is not (year at or below 1911).
pub open spec fn year_group(year: nat) -> Seq<char> {
    if year > 1911 {
        "("@ + dec_str((year - 1911) as nat) + "|"@ + dec_str(year) + ")"@
    } else {
        "("@ + dec_str(year) + ")"@
    }
}

/// The pattern matching one calendar day in any spelling: either year
/// spelling, month and day optionally zero-padded.
pub open spec fn single_day_regex(year: nat, m: nat, d: nat) -> Seq<char> {
    "^"@ + year_group(year) + "/(0?"@ + dec_str(m) + "|"@ + dec_str(m) + ")/(0?"@ + dec_str(d)
        + "|"@ + dec_str(d) + ")$"@
}

/// The deliberately permissive range pattern: either year spelling, any
/// month and day of a single month's shape. It can over-match; the
/// mandatory re-validation keeps results correct.
pub open spec fn month_range_regex(year: nat) -> Seq<char> {
    "^"@ + year_group(year) + "/(0?[1-9]|1[0-2])/(0?[1-9]|[12][0-9]|3[01])$"@
}

/// The regular-expression part of the range condition set. It stays in the
/// set even where no local year is derivable, degraded to the Gregorian
/// spelling alone; only input that does not split into three components
/// has no pattern.
pub open spec fn range_regex_part(start: Seq<char>, end: Seq<char>) -> Seq<DateConditionView> {
    let sp = split_spec(start, '-');
    let ep = split_spec(end, '-');
    if sp.len() == 3 && ep.len() == 3 {
        let sy = component_val(sp[0]);
        let rx = if start == end {
            single_day_regex(sy, component_val(sp[1]), component_val(sp[2]))
        } else {
            month_range_regex(sy)
        };
        patterns3(rx)
    } else {
        Seq::empty()
    }
}

/// The full condition set for an inclusive ISO date range: ISO ranges on
/// all three fields, the local spellings where derivable, and the
/// permissive regular expression. Where no local equivalent exists the set
/// degrades to the ISO and regex parts.
pub open spec fn range_conditions(start: Seq<char>, end: Seq<char>) -> Seq<DateConditionView> {
    let base = ranges3(start, end);
    let roc = if to_local_ok(start) && to_local_ok(end) {
        ranges3(local_padded(start), local_padded(end)) + if to_local_short_ok(start)
            && to_local_short_ok(end) {
            ranges3(local_short(start), local_short(end))
        } else {
            Seq::empty()
        }
    } else {
        Seq::empty()
    };
    base + roc + range_regex_part(start, end)
}

/// The regular-expression part of the single-date condition set, with the
/// same degrade policy as the range set.
pub open spec fn single_regex_part(d: Seq<char>) -> Seq<DateConditionView> {
    let p = split_spec(d, '-');
    if p.len() == 3 {
        patterns3(single_day_regex(component_val(p[0]), component_val(p[1]), component_val(p[2])))
    } else {
        Seq::empty()
    }
}

/// The full condition set for a single-ended bound: the ISO value, the two
/// local spellings where derivable, and the single-day regular expression.
pub open spec fn single_conditions(d: Seq<char>, is_start: bool) -> Seq<DateConditionView> {
    let cmp = if is_start {
        Cmp::Gte
    } else {
        Cmp::Lte
    };
    bounds3(d, cmp) + (if to_local_ok(d) {
        bounds3(local_padded(d), cmp)
    } else {
        Seq::empty()
    }) + (if to_local_short_ok(d) {
        bounds3(local_short(d), cmp)
    } else {
        Seq::empty()
    }) + single_regex_part(d)
}

// ---------------------------------------------------------------------------
// Executable generators
// ---------------------------------------------------------------------------
fn render_dec(n: u32) -> (r: String)
    ensures
        r@ == dec_str(n as nat),
{
    let mut v: Vec<char> = Vec::new();
    push_dec(&mut v, n);
    from_chars(&v)
}

fn build_year_group(year: u32) -> (r: String)
    ensures
        r@ == year_group(year as nat),
{
    let mut s = String::from_str("(");
    if year > 1911 {
        s.append(render_dec(year - 1911).as_str());
        s.append("|");
    }
    s.append(render_dec(year).as_str());
    s.append(")");
    assert(s@ =~= year_group(year as nat));
    s
}

fn build_single_day_regex(year: u32, m: u32, d: u32) -> (r: String)
    ensures
        r@ == single_day_regex(year as nat, m as nat, d as nat),
{
    let mut s = String::from_str("^");
    s.append(build_year_group(year).as_str());
    s.append("/(0?");
    s.append(render_dec(m).as_str());
    s.append("|");
    s.append(render_dec(m).as_str());
    s.append(")/(0?");
    s.append(render_dec(d).as_str());
    s.append("|");
    s.append(render_dec(d).as_str());
    s.append(")$");
    assert(s@ =~= single_day_regex(year as nat, m as nat, d as nat));
    s
}

fn build_month_range_regex(year: u32) -> (r: String)
    ensures
        r@ == month_range_regex(year as nat),
{
    let mut s = String::from_str("^");
    s.append(build_year_group(year).as_str());
    s.append("/(0?[1-9]|1[0-2])/(0?[1-9]|[12][0-9]|3[01])$");
    assert(s@ =~= month_range_regex(year as nat));
    s
}

fn push_ranges3(v: &mut Vec<DateCondition>, low: &str, high: &str)
    ensures
        cviews(final(v)@) == cviews(old(v)@) + ranges3(low@, high@),
{
    v.push(
        DateCondition::Range {
            field: DateField::QueryDate,
            low: String::from_str(low),
            high: String::from_str(high),
        },
    );
    v.push(
        DateCondition::Range {
            field: DateField::Date,
            low: String::from_str(low),
            high: String::from_str(high),
        },
    );
    v.push(
        DateCondition::Range {
            field: DateField::FactDate,
            low: String::from_str(low),
            high: String::from_str(high),
        },
    );
    assert(cviews(final(v)@) =~= cviews(old(v)@) + ranges3(low@, high@));
}

fn push_bounds3(v: &mut Vec<DateCondition>, value: &str, cmp: Cmp)
    ensures
        cviews(final(v)@) == cviews(old(v)@) + bounds3(value@, cmp),
{
    v.push(
        DateCondition::Bound {
            field: DateField::QueryDate,
            cmp,
            value: String::from_str(value),
        },
    );
    v.push(DateCondition::Bound { field: DateField::Date, cmp, value: String::from_str(value) });
    v.push(
        DateCondition::Bound { field: DateField::FactDate, cmp, value: String::from_str(value) },
    );
    assert(cviews(final(v)@) =~= cviews(old(v)@) + bounds3(value@, cmp));
}

fn push_patterns3(v: &mut Vec<DateCondition>, regex: &String)
    ensures
        cviews(final(v)@) == cviews(old(v)@) + patterns3(regex@),
{
    v.push(DateCondition::Pattern { field: DateField::QueryDate, regex: regex.clone() });
    v.push(DateCondition::Pattern { field: DateField::Date, regex: regex.clone() });
    v.push(DateCondition::Pattern { field: DateField::FactDate, regex: regex.clone() });
    assert(cviews(final(v)@) =~= cviews(old(v)@) + patterns3(regex@));
}

/// Generates the full disjunction of storage conditions for an inclusive
/// ISO date range, covering every date field and spelling the store may
/// hold, with the permissive regular expression last.
pub fn generate_date_conditions(start_date: &str, end_date: &str) -> (r: Vec<DateCondition>)
    ensures
        cviews(r@) == range_conditions(start_date@, end_date@),
        r@.len() >= 3,
{
    let mut v: Vec<DateCondition> = Vec::new();
    assert(cviews(v@) =~= Seq::<DateConditionView>::empty());
    push_ranges3(&mut v, start_date, end_date);
    match (convert_to_roc_date(start_date), convert_to_roc_date(end_date)) {
        (Some(start_roc), Some(end_roc)) => {
            push_ranges3(&mut v, start_roc.as_str(), end_roc.as_str());
            match (convert_to_roc_date_short(start_date), convert_to_roc_date_short(end_date)) {
                (Some(start_short), Some(end_short)) => {
                    push_ranges3(&mut v, start_short.as_str(), end_short.as_str());
                },
                _ => {},
            }
        },
        _ => {},
    }
    let ghost before_regex = cviews(v@);
    proof {
        assert(before_regex =~= ranges3(start_date@, end_date@) + (if to_local_ok(start_date@)
            && to_local_ok(end_date@) {
            ranges3(local_padded(start_date@), local_padded(end_date@)) + if to_local_short_ok(
                start_date@,
            ) && to_local_short_ok(end_date@) {
                ranges3(local_short(start_date@), local_short(end_date@))
            } else {
                Seq::empty()
            }
        } else {
            Seq::empty()
        }));
    }
    let sv = to_chars(start_date);
    let ev = to_chars(end_date);
    let sp = split_chars(&sv, '-');
    let ep = split_chars(&ev, '-');
    if sp.len() == 3 && ep.len() == 3 {
        let sy = match parse_digits(&sp[0]) {
            Some(y) => y,
            None => 0,
        };
        let sm = match parse_digits(&sp[1]) {
            Some(m) => m,
            None => 0,
        };
        let sd = match parse_digits(&sp[2]) {
            Some(d) => d,
            None => 0,
        };
        let rx = if str_eq(start_date, end_date) {
            build_single_day_regex(sy, sm, sd)
        } else {
            build_month_range_regex(sy)
        };
        push_patterns3(&mut v, &rx);
    }
    assert(cviews(v@) =~= range_conditions(start_date@, end_date@));
    v
}

/// Generates the disjunction of storage conditions for a single-ended
/// bound: at-or-after the date where `is_start`, at-or-before it
/// otherwise.
pub fn generate_single_date_conditions(date_str: &str, is_start: bool) -> (r: Vec<DateCondition>)
    ensures
        cviews(r@) == single_conditions(date_str@, is_start),
        r@.len() >= 3,
{
    let cmp = if is_start {
        Cmp::Gte
    } else {
        Cmp::Lte
    };
    let mut v: Vec<DateCondition> = Vec::new();
    assert(cviews(v@) =~= Seq::<DateConditionView>::empty());
    push_bounds3(&mut v, date_str, cmp);
    match convert_to_roc_date(date_str) {
        Some(roc) => {
            push_bounds3(&mut v, roc.as_str(), cmp);
        },
        None => {},
    }
    match convert_to_roc_date_short(date_str) {
        Some(short) => {
            push_bounds3(&mut v, short.as_str(), cmp);
        },
        None => {},
    }
    let ghost before_regex = cviews(v@);
    proof {
        assert(before_regex =~= bounds3(date_str@, cmp) + (if to_local_ok(date_str@) {
            bounds3(local_padded(date_str@), cmp)
        } else {
            Seq::empty()
        }) + (if to_local_short_ok(date_str@) {
            bounds3(local_short(date_str@), cmp)
        } else {
            Seq::empty()
        }));
    }
    let dv = to_chars(date_str);
    let p = split_chars(&dv, '-');
    if p.len() == 3 {
        let y = match parse_digits(&p[0]) {
            Some(y) => y,
            None => 0,
        };
        let m = match parse_digits(&p[1]) {
            Some(m) => m,
            None => 0,
        };
        let d = match parse_digits(&p[2]) {
            Some(d) => d,
            None => 0,
        };
        let rx = build_single_day_regex(y, m, d);
        push_patterns3(&mut v, &rx);
    }
    assert(cviews(v@) =~= single_conditions(date_str@, is_start));
    v
}

// ---------------------------------------------------------------------------
// Post-filter re-validation
// ---------------------------------------------------------------------------
/// Whether any of a record's three date fields lies in the inclusive range,
/// by normalized comparison with lexical fallback.
pub open spec fn record_in_range(a: AnnouncementView, start: Seq<char>, end: Seq<char>) -> bool {
    ||| single_date_in_range(a.date, start, end)
    ||| (a.query_date matches Some(q) && single_date_in_range(q, start, end))
    ||| (a.fact_date matches Some(f) && single_date_in_range(f, start, end))
}

/// Decides whether an announcement falls in the requested range: its
/// `date`, `query_date` and `fact_date` are each checked, and any match
/// admits the record.
pub fn is_date_in_range(announcement: &Announcement, start_date: &str, end_date: &str) -> (r:
    bool)
    ensures
        r == record_in_range(announcement@, start_date@, end_date@),
{
    if is_single_date_in_range(announcement.date.as_str(), start_date, end_date) {
        return true;
    }
    match &announcement.query_date {
        Some(q) => {
            if is_single_date_in_range(q.as_str(), start_date, end_date) {
                return true;
            }
        },
        None => {},
    }
    match &announcement.fact_date {
        Some(f) => {
            if is_single_date_in_range(f.as_str(), start_date, end_date) {
                return true;
            }
        },
        None => {},
    }
    false
}

/// The candidates that survive re-validation, in order.
pub open spec fn in_range_only(
    s: Seq<AnnouncementView>,
    start: Seq<char>,
    end: Seq<char>,
) -> Seq<AnnouncementView>
    decreases s.len(),
{
    if s.len() == 0 {
        Seq::empty()
    } else if record_in_range(s.last(), start, end) {
        in_range_only(s.drop_last(), start, end).push(s.last())
    } else {
        in_range_only(s.drop_last(), start, end)
    }
}

/// The mandatory post-filter: re-validates every candidate a broad
/// condition set returned against the originally requested ISO range,
/// keeping exactly those with some date field in range.
pub fn filter_in_range(candidates: &Vec<Announcement>, start_date: &str, end_date: &str) -> (r:
    Vec<Announcement>)
    ensures
        views(r@) == in_range_only(views(candidates@), start_date@, end_date@),
{
    let mut r: Vec<Announcement> = Vec::new();
    let mut i: usize = 0;
    while i < candidates.len()
        invariant
            i <= candidates.len(),
            views(r@) =~= in_range_only(views(candidates@).take(i as int), start_date@, end_date@),
        decreases candidates.len() - i,
    {
        proof {
            assert(views(candidates@).take(i as int + 1).drop_last() =~= views(
                candidates@,
            ).take(i as int));
            assert(views(candidates@).take(i as int + 1).last() == candidates@[i as int]@);
        }
        if is_date_in_range(&candidates[i], start_date, end_date) {
            let rec = candidates[i].duplicate();
            proof {
                assert(views(r@.push(candidates@[i as int])) =~= views(r@).push(
                    candidates@[i as int]@,
                ));
            }
            r.push(rec);
        }
        i = i + 1;
    }
    assert(views(candidates@).take(candidates@.len() as int) =~= views(candidates@));
    r
}

/// The result limit a query is served with: the requested count, defaulted
/// to 50 and capped at 1000.
pub fn effective_limit(requested: Option<u64>) -> (r: u64)
    ensures
        r == (match requested {
            Some(l) => if l < 1000 {
                l
            } else {
                1000
            },
            None => 50,
        }),
{
    match requested {
        Some(l) => if l < 1000 {
            l
        } else {
            1000
        },
        None => 50,
    }
}

// ---------------------------------------------------------------------------
// The whole filter of a listing query
// ---------------------------------------------------------------------------
/// The parameters of a listing query, as they arrive from a caller.
pub struct QueryParams {
    pub company: Option<String>,
    pub date: Option<String>,
    pub start_date: Option<String>,
    pub end_date: Option<String>,
    pub search: Option<String>,
    pub limit: Option<u64>,
}

/// The model of [`QueryParams`].
pub struct QueryParamsView {
    pub company: Option<Seq<char>>,
    pub date: Option<Seq<char>>,
    pub start_date: Option<Seq<char>>,
    pub end_date: Option<Seq<char>>,
    pub search: Option<Seq<char>>,
    pub limit: Option<u64>,
}

impl View for QueryParams {
    type V = QueryParamsView;

    open spec fn view(&self) -> QueryParamsView {
        QueryParamsView {
            company: crate::records::view_opt(self.company),
            date: crate::records::view_opt(self.date),
            start_date: crate::records::view_opt(self.start_date),
            end_date: crate::records::view_opt(self.end_date),
            search: crate::records::view_opt(self.search),
            limit: self.limit,
        }
    }
}

/// One conjunct of a listing query's filter.
#[derive(Clone, Debug, PartialEq)]
pub enum QueryClause {
    /// The company code must equal the given code.
    Company { code: String },
    /// Some date condition of the disjunction must hold.
    DateAny { conditions: Vec<DateCondition> },
    /// The `query_date` tag must equal the given date verbatim.
    QueryDateIs { date: String },
    /// The title must match the given pattern, case-insensitively.
    TitleSearch { pattern: String },
}

/// The model of a [`QueryClause`].
pub enum QueryClauseView {
    Company { code: Seq<char> },
    DateAny { conditions: Seq<DateConditionView> },
    QueryDateIs { date: Seq<char> },
    TitleSearch { pattern: Seq<char> },
}

impl View for QueryClause {
    type V = QueryClauseView;

    open spec fn view(&self) -> QueryClauseView {
        match self {
            QueryClause::Company { code } => QueryClauseView::Company { code: code@ },
            QueryClause::DateAny { conditions } => QueryClauseView::DateAny {
                conditions: cviews(conditions@),
            },
            QueryClause::QueryDateIs { date } => QueryClauseView::QueryDateIs { date: date@ },
            QueryClause::TitleSearch { pattern } => QueryClauseView::TitleSearch {
                pattern: pattern@,
            },
        }
    }
}

/// The views of a sequence of clauses.
pub open spec fn qviews(s: Seq<QueryClause>) -> Seq<QueryClauseView> {
    s.map_values(|c: QueryClause| c@)
}

/// An optional string that is present and non-empty.
pub open spec fn nonempty_opt(o: Option<Seq<char>>) -> bool {
    o matches Some(s) && s.len() > 0
}

/// The date-related part of a listing filter: a full range where both ends
/// are given, a single-ended bound where one is, the verbatim `query_date`
/// where only the single-date parameter is given, and nothing otherwise.
pub open spec fn plan_date_part(p: QueryParamsView) -> Seq<QueryClauseView> {
    match (p.start_date, p.end_date) {
        (Some(s), Some(e)) => if s.len() > 0 && e.len() > 0 {
            seq![QueryClauseView::DateAny { conditions: range_conditions(s, e) }]
        } else {
            Seq::empty()
        },
        (Some(s), None) => if s.len() > 0 {
            seq![QueryClauseView::DateAny { conditions: single_conditions(s, true) }]
        } else {
            Seq::empty()
        },
        (None, Some(e)) => if e.len() > 0 {
            seq![QueryClauseView::DateAny { conditions: single_conditions(e, false) }]
        } else {
            Seq::empty()
        },
        (None, None) => match p.date {
            Some(d) => if d.len() > 0 {
                seq![QueryClauseView::QueryDateIs { date: d }]
            } else {
                Seq::empty()
            },
            None => Seq::empty(),
        },
    }
}

/// The conjuncts of a listing query's filter, in order: the company code,
/// the date part, and the title search, each present only where the
/// corresponding parameter is non-empty.
pub open spec fn plan_clauses(p: QueryParamsView) -> Seq<QueryClauseView> {
    (if nonempty_opt(p.company) {
        seq![QueryClauseView::Company { code: p.company->0 }]
    } else {
        Seq::empty()
    }) + plan_date_part(p) + (if nonempty_opt(p.search) {
        seq![QueryClauseView::TitleSearch { pattern: p.search->0 }]
    } else {
        Seq::empty()
    })
}

/// A listing query, ready for the storage collaborator: the filter
/// conjuncts, the capped result limit, and whether results must pass the
/// mandatory range re-validation.
pub struct FilterPlan {
    pub clauses: Vec<QueryClause>,
    pub limit: u64,
    pub revalidate: bool,
}

/// Builds the whole filter of a listing query from its parameters. The
/// limit defaults to 50 and is capped at 1000; `revalidate` is set exactly
/// when a full date range was requested, in which case the results must be
/// re-checked with [`filter_in_range`].
pub fn build_query_filter(params: &QueryParams) -> (r: FilterPlan)
    ensures
        qviews(r.clauses@) == plan_clauses(params@),
        r.limit == (match params.limit {
            Some(l) => if l < 1000 {
                l
            } else {
                1000
            },
            None => 50u64,
        }),
        r.revalidate == (nonempty_opt(params@.start_date) && nonempty_opt(params@.end_date)),
{
    let mut clauses: Vec<QueryClause> = Vec::new();
    match &params.company {
        Some(c) => if !c.as_str().is_empty() {
            clauses.push(QueryClause::Company { code: c.clone() });
        },
        None => {},
    }
    let mut revalidate = false;
    match (&params.start_date, &params.end_date) {
        (Some(s), Some(e)) => {
            if !s.as_str().is_empty() && !e.as_str().is_empty() {
                revalidate = true;
                let conditions = generate_date_conditions(s.as_str(), e.as_str());
                clauses.push(QueryClause::DateAny { conditions });
            }
        },
        (Some(s), None) => {
            if !s.as_str().is_empty() {
                let conditions = generate_single_date_conditions(s.as_str(), true);
                clauses.push(QueryClause::DateAny { conditions });
            }
        },
        (None, Some(e)) => {
            if !e.as_str().is_empty() {
                let conditions = generate_single_date_conditions(e.as_str(), false);
                clauses.push(QueryClause::DateAny { conditions });
            }
        },
        (None, None) => {
            match &params.date {
                Some(d) => if !d.as_str().is_empty() {
                    clauses.push(QueryClause::QueryDateIs { date: d.clone() });
                },
                None => {},
            }
        },
    }
    match &params.search {
        Some(q) => if !q.as_str().is_empty() {
            clauses.push(QueryClause::TitleSearch { pattern: q.clone() });
        },
        None => {},
    }
    let limit = effective_limit(params.limit);
    assert(qviews(clauses@) =~= plan_clauses(params@));
    FilterPlan { clauses, limit, revalidate }
}

/// The sort of a listing: date, then time, then insertion time, each
/// descending, so the most recent stands first at every tie level.
pub fn listing_sort_keys() -> (r: Vec<String>)
    ensures
        r@.len() == 3,
        r@[0]@ == "date"@,
        r@[1]@ == "time"@,
        r@[2]@ == "created_at"@,
{
    let mut v: Vec<String> = Vec::new();
    v.push(String::from_str("date"));
    v.push(String::from_str("time"));
    v.push(String::from_str("created_at"));
    v
}

} // verus!