//! The table walker, row classifier and hidden-field decoder.
//!
//! The source page embeds one data table among arbitrary markup; a table
//! qualifies by carrying a known header marker class. Within it, a row is a
//! data row exactly when it has at least five cells and a non-empty first
//! cell; positions 0-4 map to date, time, company code, company name and
//! title. Each row also carries hidden metadata fields whose names are
//! meaningful only in their last character: `6` a clause code, `7` a raw
//! eight-digit fact-occurrence date, `8` free-text detail content.

use vstd::prelude::*;

use crate::dates::fact_date_formatted;
use crate::dates::format_fact_occurrence_date;
use crate::records::Announcement;
use crate::records::AnnouncementView;
use crate::text::contains_chars;
use crate::text::contains_seq;
use crate::text::dec_str;
use crate::text::from_chars;
use crate::text::has_char;
use crate::text::lines_chars;
use crate::text::lines_spec;
use crate::text::pad2;
use crate::text::push_dec;
use crate::text::push_pad2;
use crate::text::split_chars;
use crate::text::split_spec;
use crate::text::to_chars;
use crate::text::trim_chars;
use crate::text::trim_spec;
use crate::text::views_of;

verus! {

// ---------------------------------------------------------------------------
// Raw rows
// ---------------------------------------------------------------------------
/// One hidden form field of a table row: a name/value pair.
#[derive(Clone, Debug, PartialEq)]
pub struct HiddenField {
    pub name: String,
    pub value: String,
}

impl View for HiddenField {
    type V = (Seq<char>, Seq<char>);

    open spec fn view(&self) -> (Seq<char>, Seq<char>) {
        (self.name@, self.value@)
    }
}

/// The views of a sequence of hidden fields.
pub open spec fn hviews(s: Seq<HiddenField>) -> Seq<(Seq<char>, Seq<char>)> {
    s.map_values(|f: HiddenField| f@)
}

/// The views of a sequence of strings.
pub open spec fn string_views(s: Seq<String>) -> Seq<Seq<char>> {
    s.map_values(|c: String| c@)
}

/// One candidate table row: the text of its cells, its hidden fields, and
/// its original markup kept verbatim for audit.
#[derive(Clone, Debug, PartialEq)]
pub struct RawRow {
    pub cells: Vec<String>,
    pub hidden: Vec<HiddenField>,
    pub markup: String,
}

/// The model of a [`RawRow`].
pub struct RawRowView {
    pub cells: Seq<Seq<char>>,
    pub hidden: Seq<(Seq<char>, Seq<char>)>,
    pub markup: Seq<char>,
}

impl View for RawRow {
    type V = RawRowView;

    open spec fn view(&self) -> RawRowView {
        RawRowView {
            cells: string_views(self.cells@),
            hidden: hviews(self.hidden@),
            markup: self.markup@,
        }
    }
}

// ---------------------------------------------------------------------------
// Title cleanup
// ---------------------------------------------------------------------------
/// A title with every embedded line break collapsed to a single space.
pub open spec fn collapsed(s: Seq<char>) -> Seq<char> {
    s.map_values(
        |c: char|
            if c == '\n' || c == '\r' {
                ' '
            } else {
                c
            },
    )
}

/// Collapses embedded line breaks to spaces.
pub fn collapse_breaks(v: &Vec<char>) -> (r: Vec<char>)
    ensures
        r@ == collapsed(v@),
{
    let mut r: Vec<char> = Vec::new();
    let mut i: usize = 0;
    while i < v.len()
        invariant
            i <= v.len(),
            r@ =~= collapsed(v@.take(i as int)),
        decreases v.len() - i,
    {
        let c = v[i];
        if c == '\n' || c == '\r' {
            r.push(' ');
        } else {
            r.push(c);
        }
        proof {
            assert(collapsed(v@.take(i as int + 1)) =~= collapsed(v@.take(i as int)).push(
                if v@[i as int] == '\n' || v@[i as int] == '\r' {
                    ' '
                } else {
                    v@[i as int]
                },
            ));
        }
        i = i + 1;
    }
    assert(collapsed(v@.take(v@.len() as int)) =~= collapsed(v@));
    r
}

// ---------------------------------------------------------------------------
// The "no data" phrases
// ---------------------------------------------------------------------------
/// ASCII case-insensitive character match, with the pattern in lower case.
pub open spec fn eq_ci(c: char, p: char) -> bool {
    c == p || ('A' <= c && c <= 'Z' && (c as u32) + 32 == (p as u32))
}

/// Whether `pat` (lower case) matches `s` at offset `i` up to ASCII case.
pub open spec fn matches_ci_at(s: Seq<char>, pat: Seq<char>, i: int) -> bool {
    0 <= i && i + pat.len() <= s.len() && (forall|j: int|
        0 <= j < pat.len() ==> eq_ci(#[trigger] s[i + j], pat[j]))
}

/// Whether `pat` (lower case) occurs in `s` up to ASCII case.
pub open spec fn contains_ci(s: Seq<char>, pat: Seq<char>) -> bool {
    exists|i: int| #[trigger] matches_ci_at(s, pat, i)
}

/// ASCII case-insensitive substring search, with the pattern in lower case.
pub fn contains_chars_ci(v: &Vec<char>, pat: &Vec<char>) -> (r: bool)
    ensures
        r == contains_ci(v@, pat@),
{
    if pat.len() > v.len() {
        return false;
    }
    let mut i: usize = 0;
    while i <= v.len() - pat.len()
        invariant
            pat.len() <= v.len(),
            i <= v.len() - pat.len() + 1,
            forall|x: int| 0 <= x < i ==> !matches_ci_at(v@, pat@, x),
        decreases v.len() + 1 - i,
    {
        let mut j: usize = 0;
        while j < pat.len()
            invariant
                i + pat.len() <= v.len(),
                j <= pat.len(),
                forall|y: int| 0 <= y < j ==> eq_ci(#[trigger] v@[i + y], pat@[y]),
            ensures
                i + pat.len() <= v.len(),
                j <= pat.len(),
                forall|y: int| 0 <= y < j ==> eq_ci(#[trigger] v@[i + y], pat@[y]),
                j < pat.len() ==> !eq_ci(v@[i + j], pat@[j as int]),
            decreases pat.len() - j,
        {
            let c = v[i + j];
            let p = pat[j];
            let ok = c == p || ('A' <= c && c <= 'Z' && (c as u32) + 32 == (p as u32));
            if !ok {
                break ;
            }
            j = j + 1;
        }
        if j == pat.len() {
            assert(matches_ci_at(v@, pat@, i as int));
            return true;
        }
        assert(!matches_ci_at(v@, pat@, i as int)) by {
            assert(!eq_ci(v@[i + j], pat@[j as int]));
        }
        i = i + 1;
    }
    assert forall|x: int| !matches_ci_at(v@, pat@, x) by {
        if 0 <= x && x + pat@.len() <= v@.len() {
            assert(x < i);
        }
    }
    false
}

/// Whether the raw document carries one of the known "no announcements
/// today" phrases; the walker itself returns an empty result either way,
/// and this check only classifies it for diagnostics. The English phrase
/// is matched up to ASCII case.
pub fn has_no_data_phrase(html: &str) -> (r: bool)
    ensures
        r == (contains_seq(html@, "沒有找到重大訊息"@) || contains_seq(html@, "無重大訊息"@)
            || contains_seq(html@, "沒有找到"@) || contains_ci(html@, "no data"@)),
{
    let v = to_chars(html);
    let p1 = to_chars("沒有找到重大訊息");
    let p2 = to_chars("無重大訊息");
    let p3 = to_chars("沒有找到");
    let p4 = to_chars("no data");
    contains_chars(&v, &p1) || contains_chars(&v, &p2) || contains_chars(&v, &p3)
        || contains_chars_ci(&v, &p4)
}

// ---------------------------------------------------------------------------
// The hidden-field decoder
// ---------------------------------------------------------------------------
/// The structured fields recovered from one row's hidden metadata.
#[derive(Clone, Debug, PartialEq)]
pub struct DecodedFields {
    pub detail_content: Option<String>,
    pub announcement_type: Option<String>,
    pub fact_date: Option<String>,
    pub clause_code: Option<String>,
    pub fact_occurrence_date: Option<String>,
}

/// The model of [`DecodedFields`].
pub struct DecodedView {
    pub detail_content: Option<Seq<char>>,
    pub announcement_type: Option<Seq<char>>,
    pub fact_date: Option<Seq<char>>,
    pub clause_code: Option<Seq<char>>,
    pub fact_occurrence_date: Option<Seq<char>>,
}

impl View for DecodedFields {
    type V = DecodedView;

    open spec fn view(&self) -> DecodedView {
        DecodedView {
            detail_content: crate::records::view_opt(self.detail_content),
            announcement_type: crate::records::view_opt(self.announcement_type),
            fact_date: crate::records::view_opt(self.fact_date),
            clause_code: crate::records::view_opt(self.clause_code),
            fact_occurrence_date: crate::records::view_opt(self.fact_occurrence_date),
        }
    }
}

/// Nothing decoded yet.
pub open spec fn empty_decoded() -> DecodedView {
    DecodedView {
        detail_content: None,
        announcement_type: None,
        fact_date: None,
        clause_code: None,
        fact_occurrence_date: None,
    }
}

/// The first line that contains the pattern, if any.
pub open spec fn first_line_containing(ls: Seq<Seq<char>>, pat: Seq<char>) -> Option<Seq<char>>
    decreases ls.len(),
{
    if ls.len() == 0 {
        None
    } else if contains_seq(ls[0], pat) {
        Some(ls[0])
    } else {
        first_line_containing(ls.drop_first(), pat)
    }
}

/// The fact date recovered from detail content: on the first line holding
/// the fact-occurrence-date label, the trimmed text after the first
/// full-width colon; nothing where no such line or colon exists.
pub open spec fn fact_date_of(value: Seq<char>) -> Option<Seq<char>> {
    match first_line_containing(lines_spec(value), "事實發生日"@) {
        Some(line) => {
            let parts = split_spec(line, '：');
            if parts.len() >= 2 {
                Some(trim_spec(parts[1]))
            } else {
                None
            }
        },
        None => None,
    }
}

/// The announcement type recovered from detail content: the first line
/// holding the matched-clause label, trimmed; nothing where no line
/// matches.
pub open spec fn announcement_type_of(value: Seq<char>) -> Option<Seq<char>> {
    match first_line_containing(lines_spec(value), "符合條款"@) {
        Some(line) => Some(trim_spec(line)),
        None => None,
    }
}

/// What one hidden field does to the decoded state, dispatched on the last
/// character of its name; a field with an all-whitespace value, or a name
/// with an unknown suffix, changes nothing. The clause code is kept
/// trimmed (it references the fixed lookup table); the detail content is
/// stored verbatim.
pub open spec fn decode_step(st: DecodedView, name: Seq<char>, value: Seq<char>) -> DecodedView {
    if name.len() > 0 && name.last() == '6' {
        if trim_spec(value).len() > 0 {
            DecodedView { clause_code: Some(trim_spec(value)), ..st }
        } else {
            st
        }
    } else if name.len() > 0 && name.last() == '7' {
        if trim_spec(value).len() > 0 {
            DecodedView { fact_occurrence_date: Some(fact_date_formatted(value)), ..st }
        } else {
            st
        }
    } else if name.len() > 0 && name.last() == '8' {
        if trim_spec(value).len() > 0 {
            DecodedView {
                detail_content: Some(value),
                fact_date: match fact_date_of(value) {
                    Some(f) => Some(f),
                    None => st.fact_date,
                },
                announcement_type: match announcement_type_of(value) {
                    Some(t) => Some(t),
                    None => st.announcement_type,
                },
                ..st
            }
        } else {
            st
        }
    } else {
        st
    }
}

/// The decoded state after all hidden fields of a row, in order; a later
/// field overwrites an earlier one with the same suffix.
pub open spec fn decode_all(fields: Seq<(Seq<char>, Seq<char>)>) -> DecodedView
    decreases fields.len(),
{
    if fields.len() == 0 {
        empty_decoded()
    } else {
        decode_step(decode_all(fields.drop_last()), fields.last().0, fields.last().1)
    }
}

fn find_line_containing(value: &Vec<char>, pat: &Vec<char>) -> (r: Option<Vec<char>>)
    ensures
        match r {
            Some(line) => first_line_containing(lines_spec(value@), pat@) == Some(line@),
            None => first_line_containing(lines_spec(value@), pat@) is None,
        },
{
    let lines = lines_chars(value);
    let ghost whole = views_of(lines@);
    let mut i: usize = 0;
    assert(whole.skip(0) =~= whole);
    while i < lines.len()
        invariant
            i <= lines.len(),
            whole == views_of(lines@),
            whole == lines_spec(value@),
            first_line_containing(whole, pat@) == first_line_containing(
                whole.skip(i as int),
                pat@,
            ),
        decreases lines.len() - i,
    {
        assert(whole.skip(i as int)[0] == lines@[i as int]@);
        if contains_chars(&lines[i], pat) {
            let line = crate::text::copy_chars(&lines[i]);
            return Some(line);
        }
        assert(whole.skip(i as int).drop_first() =~= whole.skip(i as int + 1));
        i = i + 1;
    }
    assert(whole.skip(i as int) =~= Seq::<Seq<char>>::empty());
    None
}

/// Recovers the fact date from detail content: the trimmed text after the
/// full-width colon on the first line holding the fact-occurrence-date
/// label.
pub fn fact_date_from_detail(value: &str) -> (r: Option<String>)
    ensures
        crate::records::view_opt(r) == fact_date_of(value@),
{
    let v = to_chars(value);
    let pat = to_chars("事實發生日");
    match find_line_containing(&v, &pat) {
        Some(line) => {
            let parts = split_chars(&line, '：');
            if parts.len() >= 2 {
                let t = trim_chars(&parts[1]);
                assert(views_of(parts@)[1] == parts@[1]@);
                Some(from_chars(&t))
            } else {
                None
            }
        },
        None => None,
    }
}

/// Recovers the announcement type from detail content: the first line
/// holding the matched-clause label, trimmed.
pub fn announcement_type_from_detail(value: &str) -> (r: Option<String>)
    ensures
        crate::records::view_opt(r) == announcement_type_of(value@),
{
    let v = to_chars(value);
    let pat = to_chars("符合條款");
    match find_line_containing(&v, &pat) {
        Some(line) => {
            let t = trim_chars(&line);
            Some(from_chars(&t))
        },
        None => None,
    }
}

/// Decodes a row's hidden metadata fields into structured values, by the
/// last character of each field name: `6` yields the clause code (trimmed),
/// `7` the fact-occurrence date (rewritten `YYYY-MM-DD` where eight
/// digits), `8` the detail content (stored verbatim) and, from its text, the fact
/// date and announcement type; other names are ignored.
pub fn decode_hidden_fields(fields: &Vec<HiddenField>) -> (r: DecodedFields)
    ensures
        r@ == decode_all(hviews(fields@)),
{
    let mut detail_content: Option<String> = None;
    let mut announcement_type: Option<String> = None;
    let mut fact_date: Option<String> = None;
    let mut clause_code: Option<String> = None;
    let mut fact_occurrence_date: Option<String> = None;
    let mut k: usize = 0;
    while k < fields.len()
        invariant
            k <= fields.len(),
            decode_all(hviews(fields@).take(k as int)) == (DecodedView {
                detail_content: crate::records::view_opt(detail_content),
                announcement_type: crate::records::view_opt(announcement_type),
                fact_date: crate::records::view_opt(fact_date),
                clause_code: crate::records::view_opt(clause_code),
                fact_occurrence_date: crate::records::view_opt(fact_occurrence_date),
            }),
        decreases fields.len() - k,
    {
        proof {
            assert(hviews(fields@).take(k as int + 1).drop_last() =~= hviews(fields@).take(
                k as int,
            ));
            assert(hviews(fields@).take(k as int + 1).last() == fields@[k as int]@);
        }
        let name = to_chars(fields[k].name.as_str());
        let value_trimmed = trim_chars(&to_chars(fields[k].value.as_str()));
        if name.len() > 0 {
            let last = name[name.len() - 1];
            if last == '6' {
                if value_trimmed.len() > 0 {
                    clause_code = Some(from_chars(&value_trimmed));
                }
            } else if last == '7' {
                if value_trimmed.len() > 0 {
                    fact_occurrence_date = Some(
                        format_fact_occurrence_date(fields[k].value.as_str()),
                    );
                }
            } else if last == '8' {
                if value_trimmed.len() > 0 {
                    detail_content = Some(fields[k].value.clone());
                    match fact_date_from_detail(fields[k].value.as_str()) {
                        Some(f) => {
                            fact_date = Some(f);
                        },
                        None => {},
                    }
                    match announcement_type_from_detail(fields[k].value.as_str()) {
                        Some(t) => {
                            announcement_type = Some(t);
                        },
                        None => {},
                    }
                }
            }
        }
        k = k + 1;
    }
    assert(hviews(fields@).take(fields@.len() as int) =~= hviews(fields@));
    DecodedFields {
        detail_content,
        announcement_type,
        fact_date,
        clause_code,
        fact_occurrence_date,
    }
}

// ---------------------------------------------------------------------------
// The row classifier
// ---------------------------------------------------------------------------
/// The announcement a candidate row yields, if any. A row is a data row
/// exactly when it has at least five cells and a non-empty trimmed first
/// cell; it is emitted only when date, company code and title are all
/// non-empty after trimming. Positions 0-4 map to date, time, company
/// code, company name and title; the title has embedded line breaks
/// collapsed; the hidden fields are decoded; the row's markup is kept
/// verbatim; `query_date` is left for the caller.
pub open spec fn row_announcement(r: RawRowView) -> Option<AnnouncementView> {
    if r.cells.len() >= 5 && trim_spec(r.cells[0]).len() > 0 {
        if trim_spec(r.cells[2]).len() > 0 && trim_spec(r.cells[4]).len() > 0 {
            let d = decode_all(r.hidden);
            Some(
                AnnouncementView {
                    company_code: trim_spec(r.cells[2]),
                    company_name: trim_spec(r.cells[3]),
                    title: collapsed(trim_spec(r.cells[4])),
                    date: trim_spec(r.cells[0]),
                    time: trim_spec(r.cells[1]),
                    detail_content: d.detail_content,
                    announcement_type: d.announcement_type,
                    fact_date: d.fact_date,
                    fact_occurrence_date: d.fact_occurrence_date,
                    clause_code: d.clause_code,
                    raw_html: Some(r.markup),
                    query_date: None,
                },
            )
        } else {
            None
        }
    } else {
        None
    }
}

/// The announcements of a table's candidate rows, in order; rows that are
/// not data rows are dropped silently.
pub open spec fn announcements_of(rows: Seq<RawRowView>) -> Seq<AnnouncementView>
    decreases rows.len(),
{
    if rows.len() == 0 {
        Seq::empty()
    } else {
        announcements_of(rows.drop_last()) + (match row_announcement(rows.last()) {
            Some(a) => seq![a],
            None => Seq::empty(),
        })
    }
}

/// The invariant of every emitted announcement: date, company code and
/// title are non-empty, and the title carries no line break.
pub open spec fn emittable(a: AnnouncementView) -> bool {
    a.date.len() > 0 && a.company_code.len() > 0 && a.title.len() > 0 && !has_char(
        a.title,
        '\n',
    ) && !has_char(a.title, '\r')
}

/// Every announcement the classifier emits satisfies [`emittable`].
pub proof fn lemma_announcements_emittable(rows: Seq<RawRowView>)
    ensures
        forall|i: int|
            0 <= i < announcements_of(rows).len() ==> emittable(
                #[trigger] announcements_of(rows)[i],
            ),
    decreases rows.len(),
{
    if rows.len() > 0 {
        lemma_announcements_emittable(rows.drop_last());
        let prefix = announcements_of(rows.drop_last());
        let whole = announcements_of(rows);
        match row_announcement(rows.last()) {
            Some(a) => {
                assert(emittable(a)) by {
                    let t = trim_spec(rows.last().cells[4]);
                    assert(a.title.len() == t.len());
                    if has_char(a.title, '\n') {
                        let j = choose|j: int| 0 <= j < a.title.len() && a.title[j] == '\n';
                        assert(a.title[j] != '\n');
                    }
                    if has_char(a.title, '\r') {
                        let j = choose|j: int| 0 <= j < a.title.len() && a.title[j] == '\r';
                        assert(a.title[j] != '\r');
                    }
                }
                assert forall|i: int| 0 <= i < whole.len() implies emittable(
                    #[trigger] whole[i],
                ) by {
                    if i < prefix.len() {
                        assert(whole[i] == prefix[i]);
                    } else {
                        assert(whole[i] == a);
                    }
                }
            },
            None => {
                assert(whole =~= prefix);
            },
        }
    }
}

/// Classifies a table's candidate rows and assembles the announcements of
/// the data rows, dropping the rest silently.
pub fn rows_to_announcements(rows: &Vec<RawRow>) -> (r: Vec<Announcement>)
    ensures
        crate::records::views(r@) == announcements_of(rows@.map_values(|x: RawRow| x@)),
{
    let ghost rviews = rows@.map_values(|x: RawRow| x@);
    let mut r: Vec<Announcement> = Vec::new();
    let mut k: usize = 0;
    while k < rows.len()
        invariant
            k <= rows.len(),
            rviews == rows@.map_values(|x: RawRow| x@),
            crate::records::views(r@) =~= announcements_of(rviews.take(k as int)),
        decreases rows.len() - k,
    {
        proof {
            assert(rviews.take(k as int + 1).drop_last() =~= rviews.take(k as int));
            assert(rviews.take(k as int + 1).last() == rows@[k as int]@);
        }
        let row = &rows[k];
        let ghost rv = rows@[k as int]@;
        if row.cells.len() >= 5 {
            let c0 = trim_chars(&to_chars(row.cells[0].as_str()));
            proof {
                assert(rv.cells[0] == row.cells@[0]@);
                assert(rv.cells[1] == row.cells@[1]@);
                assert(rv.cells[2] == row.cells@[2]@);
                assert(rv.cells[3] == row.cells@[3]@);
                assert(rv.cells[4] == row.cells@[4]@);
            }
            if c0.len() > 0 {
                let c2 = trim_chars(&to_chars(row.cells[2].as_str()));
                let c4 = trim_chars(&to_chars(row.cells[4].as_str()));
                if c2.len() > 0 && c4.len() > 0 {
                    let c1 = trim_chars(&to_chars(row.cells[1].as_str()));
                    let c3 = trim_chars(&to_chars(row.cells[3].as_str()));
                    let d = decode_hidden_fields(&row.hidden);
                    let title = collapse_breaks(&c4);
                    let a = Announcement {
                        company_code: from_chars(&c2),
                        company_name: from_chars(&c3),
                        title: from_chars(&title),
                        date: from_chars(&c0),
                        time: from_chars(&c1),
                        detail_content: d.detail_content,
                        announcement_type: d.announcement_type,
                        fact_date: d.fact_date,
                        fact_occurrence_date: d.fact_occurrence_date,
                        clause_code: d.clause_code,
                        raw_html: Some(row.markup.clone()),
                        query_date: None,
                    };
                    proof {
                        assert(row_announcement(rv) == Some(a@));
                        assert(crate::records::views(r@.push(a)) =~= crate::records::views(
                            r@,
                        ).push(a@));
                        assert(announcements_of(rviews.take(k as int + 1)) =~= announcements_of(
                            rviews.take(k as int),
                        ).push(a@));
                    }
                    r.push(a);
                } else {
                    proof {
                        assert(announcements_of(rviews.take(k as int + 1)) =~= announcements_of(
                            rviews.take(k as int),
                        ));
                    }
                }
            } else {
                proof {
                    assert(announcements_of(rviews.take(k as int + 1)) =~= announcements_of(
                        rviews.take(k as int),
                    ));
                }
            }
        } else {
            proof {
                assert(announcements_of(rviews.take(k as int + 1)) =~= announcements_of(
                    rviews.take(k as int),
                ));
            }
        }
        k = k + 1;
    }
    assert(rviews.take(rows@.len() as int) =~= rviews);
    r
}

// ---------------------------------------------------------------------------
// The request form
// ---------------------------------------------------------------------------
/// The form fields of one announcement query: the fixed protocol fields,
/// the local-calendar year, and the zero-padded month and day.
pub fn form_fields(year: u32, month: u32, day: u32) -> (r: Vec<(String, String)>)
    requires
        year > 1911,
    ensures
        r@.len() == 9,
        r@[0].0@ == "encodeURIComponent"@ && r@[0].1@ == "1"@,
        r@[1].0@ == "step"@ && r@[1].1@ == "1"@,
        r@[2].0@ == "step00"@ && r@[2].1@ == "0"@,
        r@[3].0@ == "firstin"@ && r@[3].1@ == "1"@,
        r@[4].0@ == "off"@ && r@[4].1@ == "1"@,
        r@[5].0@ == "TYPEK"@ && r@[5].1@ == "all"@,
        r@[6].0@ == "year"@ && r@[6].1@ == dec_str((year - 1911) as nat),
        r@[7].0@ == "month"@ && r@[7].1@ == pad2(month as nat),
        r@[8].0@ == "day"@ && r@[8].1@ == pad2(day as nat),
{
    let mut r: Vec<(String, String)> = Vec::new();
    r.push((String::from_str("encodeURIComponent"), String::from_str("1")));
    r.push((String::from_str("step"), String::from_str("1")));
    r.push((String::from_str("step00"), String::from_str("0")));
    r.push((String::from_str("firstin"), String::from_str("1")));
    r.push((String::from_str("off"), String::from_str("1")));
    r.push((String::from_str("TYPEK"), String::from_str("all")));
    let mut yv: Vec<char> = Vec::new();
    push_dec(&mut yv, year - 1911);
    r.push((String::from_str("year"), from_chars(&yv)));
    let mut mv: Vec<char> = Vec::new();
    push_pad2(&mut mv, month);
    r.push((String::from_str("month"), from_chars(&mv)));
    let mut dv: Vec<char> = Vec::new();
    push_pad2(&mut dv, day);
    r.push((String::from_str("day"), from_chars(&dv)));
    r
}

// ---------------------------------------------------------------------------
// The document walk, over scraper's HTML tree
// ---------------------------------------------------------------------------
#[verifier::external_type_specification]
#[verifier::external_body]
pub struct ExHtml(scraper::Html);

/// The parsed tree of a document string. Parsing is deterministic: the
/// tree is a function of the string alone.
pub uninterp spec fn doc_of(html: Seq<char>) -> scraper::Html;

/// How many table elements a tree holds, in document order.
pub uninterp spec fn doc_table_count(doc: scraper::Html) -> nat;

/// Whether the table at the given position holds a header marker cell.
pub uninterp spec fn doc_has_marker(doc: scraper::Html, table: int) -> bool;

/// How many rows the table at the given position holds.
pub uninterp spec fn doc_row_count(doc: scraper::Html, table: int) -> nat;

/// The concatenated text of each cell of a row.
pub uninterp spec fn doc_row_cells(doc: scraper::Html, table: int, row: int) -> Seq<Seq<char>>;

/// The name/value pairs of a row's hidden form fields.
pub uninterp spec fn doc_row_hidden(doc: scraper::Html, table: int, row: int) -> Seq<
    (Seq<char>, Seq<char>),
>;

/// A row's original markup.
pub uninterp spec fn doc_row_markup(doc: scraper::Html, table: int, row: int) -> Seq<char>;

/// Relies on scraper's `Html::parse_document`: parsing does not fail (a
/// malformed document yields a best-effort tree) and is a pure function of
/// the document string; `doc_of` names its result.
#[verifier::external_body]
fn parse_document(html: &str) -> (r: scraper::Html)
    ensures
        r == doc_of(html@),
{
    scraper::Html::parse_document(html)
}

/// Relies on scraper's `Html::select` with the `table` selector: how many
/// table elements the tree holds, a function of the tree alone; named by
/// `doc_table_count`.
#[verifier::external_body]
fn table_count(doc: &scraper::Html) -> (r: usize)
    ensures
        r as nat == doc_table_count(*doc),
{
    let tsel = scraper::Selector::parse("table").unwrap();
    doc.select(&tsel).count()
}

/// Relies on `Html::select` and `ElementRef::select`: whether the table at
/// the given position holds a `th.tblHead` header marker cell, a function
/// of tree and position alone; named by `doc_has_marker`. A position past
/// the last table has no marker.
#[verifier::external_body]
fn table_has_marker(doc: &scraper::Html, table: usize) -> (r: bool)
    ensures
        r == doc_has_marker(*doc, table as int),
{
    let tsel = scraper::Selector::parse("table").unwrap();
    let hsel = scraper::Selector::parse("th.tblHead").unwrap();
    match doc.select(&tsel).nth(table) {
        Some(t) => t.select(&hsel).next().is_some(),
        None => false,
    }
}

/// Relies on `Html::select` and `ElementRef::select` with the `tr`
/// selector: how many rows the table at the given position holds, a
/// function of tree and position alone; named by `doc_row_count`.
#[verifier::external_body]
fn table_row_count(doc: &scraper::Html, table: usize) -> (r: usize)
    ensures
        r as nat == doc_row_count(*doc, table as int),
{
    let tsel = scraper::Selector::parse("table").unwrap();
    let rsel = scraper::Selector::parse("tr").unwrap();
    match doc.select(&tsel).nth(table) {
        Some(t) => t.select(&rsel).count(),
        None => 0,
    }
}

/// Relies on `ElementRef::select` with the `td` selector and
/// `ElementRef::text`: the concatenated text of each cell of the row, a
/// function of tree and position alone; named by `doc_row_cells`. Mapping
/// each cell to its text is converting.
#[verifier::external_body]
fn row_cells(doc: &scraper::Html, table: usize, row: usize) -> (r: Vec<String>)
    ensures
        string_views(r@) == doc_row_cells(*doc, table as int, row as int),
{
    let tsel = scraper::Selector::parse("table").unwrap();
    let rsel = scraper::Selector::parse("tr").unwrap();
    let csel = scraper::Selector::parse("td").unwrap();
    match doc.select(&tsel).nth(table).and_then(|t| t.select(&rsel).nth(row)) {
        Some(r) => r.select(&csel).map(|c| c.text().collect::<String>()).collect(),
        None => Vec::new(),
    }
}

/// Relies on `ElementRef::select` with the hidden-input selector and
/// `ElementRef::attr`: the name/value pairs of the row's hidden form
/// fields, keeping only inputs that carry both attributes, a function of
/// tree and position alone; named by `doc_row_hidden`. Moving the two
/// attributes into the library's pair type is converting.
#[verifier::external_body]
fn row_hidden_fields(doc: &scraper::Html, table: usize, row: usize) -> (r: Vec<HiddenField>)
    ensures
        hviews(r@) == doc_row_hidden(*doc, table as int, row as int),
{
    let tsel = scraper::Selector::parse("table").unwrap();
    let rsel = scraper::Selector::parse("tr").unwrap();
    let isel = scraper::Selector::parse("input[type='hidden']").unwrap();
    match doc.select(&tsel).nth(table).and_then(|t| t.select(&rsel).nth(row)) {
        Some(r) => r.select(&isel).filter_map(
            |inp| match (inp.attr("name"), inp.attr("value")) {
                (Some(n), Some(v)) => Some(HiddenField { name: n.to_string(), value: v.to_string() }),
                _ => None,
            },
        ).collect(),
        None => Vec::new(),
    }
}

/// Relies on `ElementRef::html`: the row's original markup, verbatim, a
/// function of tree and position alone; named by `doc_row_markup`.
#[verifier::external_body]
fn row_markup(doc: &scraper::Html, table: usize, row: usize) -> (r: String)
    ensures
        r@ == doc_row_markup(*doc, table as int, row as int),
{
    let tsel = scraper::Selector::parse("table").unwrap();
    let rsel = scraper::Selector::parse("tr").unwrap();
    match doc.select(&tsel).nth(table).and_then(|t| t.select(&rsel).nth(row)) {
        Some(r) => r.html(),
        None => String::new(),
    }
}

/// The first table at or after position `i` that carries a header marker
/// cell, or -1 where none does.
pub open spec fn first_marker_from(doc: scraper::Html, i: int) -> int
    recommends
        0 <= i,
    decreases doc_table_count(doc) - i,
{
    if i < 0 || i >= doc_table_count(doc) {
        -1
    } else if doc_has_marker(doc, i) {
        i
    } else {
        first_marker_from(doc, i + 1)
    }
}

/// The candidate rows of one table, as the walker reads them: cell texts,
/// hidden fields and markup of each row in order.
pub open spec fn table_rows(doc: scraper::Html, table: int) -> Seq<RawRowView> {
    Seq::new(
        doc_row_count(doc, table),
        |row: int|
            RawRowView {
                cells: doc_row_cells(doc, table, row),
                hidden: doc_row_hidden(doc, table, row),
                markup: doc_row_markup(doc, table, row),
            },
    )
}

/// What extraction yields on a document: the classified rows of the first
/// qualifying table (later qualifying tables are never merged in), and the
/// empty sequence where no table qualifies.
pub open spec fn extracted(html: Seq<char>) -> Seq<AnnouncementView> {
    let doc = doc_of(html);
    let t = first_marker_from(doc, 0);
    if t >= 0 {
        announcements_of(table_rows(doc, t))
    } else {
        Seq::empty()
    }
}

proof fn lemma_first_marker_found(doc: scraper::Html, i: int, k: int)
    requires
        0 <= i <= k < doc_table_count(doc),
        forall|j: int| i <= j < k ==> !(#[trigger] doc_has_marker(doc, j)),
        doc_has_marker(doc, k),
    ensures
        first_marker_from(doc, i) == k,
    decreases k - i,
{
    if i < k {
        lemma_first_marker_found(doc, i + 1, k);
    }
}

proof fn lemma_first_marker_missing(doc: scraper::Html, i: int)
    requires
        0 <= i,
        forall|j: int| i <= j < doc_table_count(doc) ==> !(#[trigger] doc_has_marker(doc, j)),
    ensures
        first_marker_from(doc, i) == -1,
    decreases doc_table_count(doc) - i,
{
    if i < doc_table_count(doc) {
        lemma_first_marker_missing(doc, i + 1);
    }
}

/// Extracts the announcements of a scraped document: scans its tables,
/// takes the first that carries a header marker cell, collects that
/// table's rows, and classifies them with [`rows_to_announcements`]. The
/// result is exactly [`extracted`]: first-match-wins over qualifying
/// tables, and a document with no qualifying table yields an empty
/// sequence, a valid "no announcements today" outcome. Every emitted
/// announcement satisfies [`emittable`].
pub fn extract(html: &str) -> (r: Vec<Announcement>)
    ensures
        crate::records::views(r@) == extracted(html@),
        forall|i: int| 0 <= i < r@.len() ==> emittable(#[trigger] r@[i]@),
{
    let doc = parse_document(html);
    let n = table_count(&doc);
    let mut t: usize = 0;
    while t < n
        invariant
            t <= n,
            doc == doc_of(html@),
            n as nat == doc_table_count(doc),
            forall|j: int| 0 <= j < t ==> !(#[trigger] doc_has_marker(doc, j)),
        ensures
            t <= n,
            doc == doc_of(html@),
            n as nat == doc_table_count(doc),
            forall|j: int| 0 <= j < t ==> !(#[trigger] doc_has_marker(doc, j)),
            t < n ==> doc_has_marker(doc, t as int),
        decreases n - t,
    {
        if table_has_marker(&doc, t) {
            break ;
        }
        t = t + 1;
    }
    if t == n {
        proof {
            lemma_first_marker_missing(doc, 0);
        }
        let r: Vec<Announcement> = Vec::new();
        assert(crate::records::views(r@) =~= extracted(html@));
        return r;
    }
    proof {
        lemma_first_marker_found(doc, 0, t as int);
    }
    let m = table_row_count(&doc, t);
    let mut rows: Vec<RawRow> = Vec::new();
    let mut j: usize = 0;
    while j < m
        invariant
            j <= m,
            doc == doc_of(html@),
            m as nat == doc_row_count(doc, t as int),
            rows@.map_values(|x: RawRow| x@) =~= table_rows(doc, t as int).take(j as int),
        decreases m - j,
    {
        let cells = row_cells(&doc, t, j);
        let hidden = row_hidden_fields(&doc, t, j);
        let markup = row_markup(&doc, t, j);
        let row = RawRow { cells, hidden, markup };
        proof {
            assert(row@ == table_rows(doc, t as int)[j as int]);
            assert(rows@.push(row).map_values(|x: RawRow| x@) =~= rows@.map_values(
                |x: RawRow| x@,
            ).push(row@));
            assert(table_rows(doc, t as int).take(j as int + 1) =~= table_rows(
                doc,
                t as int,
            ).take(j as int).push(table_rows(doc, t as int)[j as int]));
        }
        rows.push(row);
        j = j + 1;
    }
    assert(table_rows(doc, t as int).take(m as int) =~= table_rows(doc, t as int));
    let r = rows_to_announcements(&rows);
    proof {
        lemma_announcements_emittable(rows@.map_values(|x: RawRow| x@));
        assert forall|i: int| 0 <= i < r@.len() implies emittable(#[trigger] r@[i]@) by {
            assert(crate::records::views(r@)[i] == r@[i]@);
        }
        assert(crate::records::views(r@) == extracted(html@));
    }
    r
}

} // verus!
