//! Calendar normalization.
//!
//! Two calendars appear in stored and queried data: Gregorian ISO
//! (`YYYY-MM-DD`) and a local offset calendar whose year equals the Gregorian
//! year minus 1911, rendered either zero-padded (`YYY/MM/DD`) or un-padded
//! (`YYY/M/D`). This module converts between the spellings and produces the
//! eight-digit `YYYYMMDD` key used for range comparisons.

use vstd::prelude::*;

use crate::text::all_digits;
use crate::text::dec_str;
use crate::text::digits_val;
use crate::text::find_char;
use crate::text::from_chars;
use crate::text::has_char;
use crate::text::is_digit;
use crate::text::is_digit_char;
use crate::text::lex_le;
use crate::text::lex_le_chars;
use crate::text::pad2;
use crate::text::pad4;
use crate::text::parse_digits;
use crate::text::parses_as_number;
use crate::text::push_dec;
use crate::text::push_pad2;
use crate::text::push_pad4;
use crate::text::split_chars;
use crate::text::split_spec;
use crate::text::to_chars;

verus! {

/// The year offset between the Gregorian calendar and the local calendar.
pub const YEAR_OFFSET: u32 = 1911;

// ---------------------------------------------------------------------------
// Fact-occurrence dates (`YYYYMMDD` -> `YYYY-MM-DD`)
// ---------------------------------------------------------------------------
/// An eight-character all-digit value, the raw shape of a fact-occurrence
/// date.
pub open spec fn is_eight_digit(s: Seq<char>) -> bool {
    s.len() == 8 && all_digits(s)
}

/// What the fact-occurrence-date formatter yields: an eight-digit value is
/// reinterpreted as `YYYYMMDD` and rewritten `YYYY-MM-DD`; anything else is
/// passed through unchanged.
pub open spec fn fact_date_formatted(s: Seq<char>) -> Seq<char> {
    if is_eight_digit(s) {
        s.subrange(0, 4) + seq!['-'] + s.subrange(4, 6) + seq!['-'] + s.subrange(6, 8)
    } else {
        s
    }
}

/// Rewrites an eight-digit `YYYYMMDD` value as `YYYY-MM-DD`; any value not
/// of that shape is returned unchanged.
pub fn format_fact_occurrence_date(date_str: &str) -> (r: String)
    ensures
        r@ == fact_date_formatted(date_str@),
{
    let v = to_chars(date_str);
    if v.len() != 8 {
        return from_chars(&v);
    }
    let mut i: usize = 0;
    while i < v.len()
        invariant
            i <= v.len(),
            v@ == date_str@,
            forall|j: int| 0 <= j < i ==> is_digit_char(#[trigger] v@[j]),
        decreases v.len() - i,
    {
        if !is_digit(v[i]) {
            assert(!all_digits(v@)) by {
                assert(!is_digit_char(v@[i as int]));
            }
            return from_chars(&v);
        }
        i = i + 1;
    }
    let mut out: Vec<char> = Vec::new();
    out.push(v[0]);
    out.push(v[1]);
    out.push(v[2]);
    out.push(v[3]);
    out.push('-');
    out.push(v[4]);
    out.push(v[5]);
    out.push('-');
    out.push(v[6]);
    out.push(v[7]);
    assert(out@ =~= fact_date_formatted(v@));
    from_chars(&out)
}

// ---------------------------------------------------------------------------
// Gregorian ISO -> local calendar
// ---------------------------------------------------------------------------
/// The numeric value of a month or day component: its parsed value, or zero
/// where it does not parse.
pub open spec fn component_val(p: Seq<char>) -> nat {
    if parses_as_number(p) {
        digits_val(p)
    } else {
        0
    }
}

/// Whether an ISO string has a local-calendar equivalent: three
/// dash-separated components whose first parses to a year above 1911.
pub open spec fn to_local_ok(s: Seq<char>) -> bool {
    let ps = split_spec(s, '-');
    ps.len() == 3 && parses_as_number(ps[0]) && digits_val(ps[0]) > 1911
}

/// The zero-padded local spelling `YYY/MM/DD` of an ISO string, meaningful
/// when [`to_local_ok`] holds.
pub open spec fn local_padded(s: Seq<char>) -> Seq<char> {
    let ps = split_spec(s, '-');
    dec_str((digits_val(ps[0]) - 1911) as nat) + seq!['/'] + pad2(component_val(ps[1]))
        + seq!['/'] + pad2(component_val(ps[2]))
}

/// The un-padded local spelling `YYY/M/D` of an ISO string, meaningful when
/// [`to_local_short_ok`] holds.
pub open spec fn local_short(s: Seq<char>) -> Seq<char> {
    let ps = split_spec(s, '-');
    dec_str((digits_val(ps[0]) - 1911) as nat) + seq!['/'] + dec_str(digits_val(ps[1]))
        + seq!['/'] + dec_str(digits_val(ps[2]))
}

/// Whether an ISO string has an un-padded local spelling: all three
/// components must parse and the year must be above 1911.
pub open spec fn to_local_short_ok(s: Seq<char>) -> bool {
    let ps = split_spec(s, '-');
    ps.len() == 3 && parses_as_number(ps[0]) && parses_as_number(ps[1]) && parses_as_number(
        ps[2],
    ) && digits_val(ps[0]) > 1911
}

/// Converts a Gregorian ISO date to the zero-padded local spelling
/// `YYY/MM/DD`, subtracting 1911 from the year. Yields nothing when the
/// string does not split into three components, the year does not parse, or
/// the local year would not be positive; a month or day that does not parse
/// is rendered as zero.
pub fn convert_to_roc_date(date_str: &str) -> (r: Option<String>)
    ensures
        match r {
            Some(out) => to_local_ok(date_str@) && out@ == local_padded(date_str@),
            None => !to_local_ok(date_str@),
        },
{
    let v = to_chars(date_str);
    let parts = split_chars(&v, '-');
    if parts.len() != 3 {
        return None;
    }
    let year = match parse_digits(&parts[0]) {
        Some(y) => y,
        None => {
            return None;
        },
    };
    if year <= YEAR_OFFSET {
        return None;
    }
    let month = match parse_digits(&parts[1]) {
        Some(m) => m,
        None => 0,
    };
    let day = match parse_digits(&parts[2]) {
        Some(d) => d,
        None => 0,
    };
    let mut out: Vec<char> = Vec::new();
    push_dec(&mut out, year - YEAR_OFFSET);
    out.push('/');
    push_pad2(&mut out, month);
    out.push('/');
    push_pad2(&mut out, day);
    assert(out@ =~= local_padded(v@));
    Some(from_chars(&out))
}

/// Converts a Gregorian ISO date to the un-padded local spelling `YYY/M/D`.
/// Yields nothing unless all three components parse and the local year is
/// positive.
pub fn convert_to_roc_date_short(date_str: &str) -> (r: Option<String>)
    ensures
        match r {
            Some(out) => to_local_short_ok(date_str@) && out@ == local_short(date_str@),
            None => !to_local_short_ok(date_str@),
        },
{
    let v = to_chars(date_str);
    let parts = split_chars(&v, '-');
    if parts.len() != 3 {
        return None;
    }
    let year = match parse_digits(&parts[0]) {
        Some(y) => y,
        None => {
            return None;
        },
    };
    let month = match parse_digits(&parts[1]) {
        Some(m) => m,
        None => {
            return None;
        },
    };
    let day = match parse_digits(&parts[2]) {
        Some(d) => d,
        None => {
            return None;
        },
    };
    if year <= YEAR_OFFSET {
        return None;
    }
    let mut out: Vec<char> = Vec::new();
    push_dec(&mut out, year - YEAR_OFFSET);
    out.push('/');
    push_dec(&mut out, month);
    out.push('/');
    push_dec(&mut out, day);
    assert(out@ =~= local_short(v@));
    Some(from_chars(&out))
}

// ---------------------------------------------------------------------------
// Comparison keys
// ---------------------------------------------------------------------------
/// `s` with every occurrence of `c` removed.
pub open spec fn remove_char(s: Seq<char>, c: char) -> Seq<char>
    decreases s.len(),
{
    if s.len() == 0 {
        Seq::empty()
    } else if s.last() == c {
        remove_char(s.drop_last(), c)
    } else {
        remove_char(s.drop_last(), c).push(s.last())
    }
}

/// The canonical eight-digit `YYYYMMDD` comparison key of a date string, in
/// either calendar spelling. A ten-character dashed string has its dashes
/// removed; a slash-separated string is parsed, has 1911 added to its year
/// whenever the leading group has at most three digits, and is re-rendered
/// zero-padded. Anything else has no key.
pub open spec fn normalize_key(s: Seq<char>) -> Option<Seq<char>> {
    if has_char(s, '-') && s.len() == 10 {
        Some(remove_char(s, '-'))
    } else if has_char(s, '/') {
        let ps = split_spec(s, '/');
        if ps.len() == 3 && parses_as_number(ps[0]) && parses_as_number(ps[1])
            && parses_as_number(ps[2]) {
            let y = if ps[0].len() <= 3 {
                digits_val(ps[0]) + 1911
            } else {
                digits_val(ps[0])
            };
            Some(pad4(y) + pad2(digits_val(ps[1])) + pad2(digits_val(ps[2])))
        } else {
            None
        }
    } else {
        None
    }
}

/// Normalizes a date string of either calendar spelling to its eight-digit
/// `YYYYMMDD` comparison key; yields nothing for unparseable input.
pub fn normalize_date_for_comparison(date_str: &str) -> (r: Option<String>)
    ensures
        match r {
            Some(out) => normalize_key(date_str@) == Some(out@),
            None => normalize_key(date_str@) is None,
        },
{
    let v = to_chars(date_str);
    let has_dash = match find_char(&v, '-') {
        Some(_) => true,
        None => false,
    };
    if has_dash && v.len() == 10 {
        let mut out: Vec<char> = Vec::new();
        let mut i: usize = 0;
        while i < v.len()
            invariant
                i <= v.len(),
                out@ == remove_char(v@.take(i as int), '-'),
            decreases v.len() - i,
        {
            assert(v@.take(i as int + 1).drop_last() =~= v@.take(i as int));
            if v[i] != '-' {
                out.push(v[i]);
            }
            i = i + 1;
        }
        assert(v@.take(v@.len() as int) =~= v@);
        return Some(from_chars(&out));
    }
    let has_slash = match find_char(&v, '/') {
        Some(_) => true,
        None => false,
    };
    if !has_slash {
        return None;
    }
    let parts = split_chars(&v, '/');
    if parts.len() != 3 {
        return None;
    }
    let year = match parse_digits(&parts[0]) {
        Some(y) => y,
        None => {
            return None;
        },
    };
    let month = match parse_digits(&parts[1]) {
        Some(m) => m,
        None => {
            return None;
        },
    };
    let day = match parse_digits(&parts[2]) {
        Some(d) => d,
        None => {
            return None;
        },
    };
    let western: u32 = if parts[0].len() <= 3 {
        year + YEAR_OFFSET
    } else {
        year
    };
    let mut out: Vec<char> = Vec::new();
    push_pad4(&mut out, western);
    push_pad2(&mut out, month);
    push_pad2(&mut out, day);
    assert(Some(out@) =~= normalize_key(v@));
    Some(from_chars(&out))
}

// ---------------------------------------------------------------------------
// Format detection
// ---------------------------------------------------------------------------
/// The number of occurrences of `c` in `s`.
pub open spec fn count_char(s: Seq<char>, c: char) -> nat
    decreases s.len(),
{
    if s.len() == 0 {
        0
    } else {
        count_char(s.drop_last(), c) + if s.last() == c {
            1nat
        } else {
            0nat
        }
    }
}

/// The label [`detect_date_format`] gives to a date string.
pub open spec fn format_label(s: Seq<char>) -> Seq<char> {
    if has_char(s, '-') {
        if s.len() == 10 && count_char(s, '-') == 2 {
            "YYYY-MM-DD"@
        } else {
            "other_dash"@
        }
    } else if has_char(s, '/') {
        let ps = split_spec(s, '/');
        if ps.len() == 3 {
            if ps[0].len() == 3 {
                "YYY/MM/DD_roc"@
            } else if ps[0].len() == 4 {
                "YYYY/MM/DD"@
            } else {
                "other_slash"@
            }
        } else {
            "invalid_slash"@
        }
    } else {
        "unknown"@
    }
}

/// Classifies the spelling of a date string, for diagnostics over stored
/// data.
pub fn detect_date_format(date_str: &str) -> (r: String)
    ensures
        r@ == format_label(date_str@),
{
    let v = to_chars(date_str);
    let has_dash = match find_char(&v, '-') {
        Some(_) => true,
        None => false,
    };
    if has_dash {
        let mut n: usize = 0;
        let mut i: usize = 0;
        while i < v.len()
            invariant
                i <= v.len(),
                n <= i,
                n == count_char(v@.take(i as int), '-'),
            decreases v.len() - i,
        {
            assert(v@.take(i as int + 1).drop_last() =~= v@.take(i as int));
            if v[i] == '-' {
                n = n + 1;
            }
            i = i + 1;
        }
        assert(v@.take(v@.len() as int) =~= v@);
        if v.len() == 10 && n == 2 {
            return String::from_str("YYYY-MM-DD");
        }
        return String::from_str("other_dash");
    }
    let has_slash = match find_char(&v, '/') {
        Some(_) => true,
        None => false,
    };
    if has_slash {
        let parts = split_chars(&v, '/');
        if parts.len() == 3 {
            let ylen = parts[0].len();
            if ylen == 3 {
                return String::from_str("YYY/MM/DD_roc");
            } else if ylen == 4 {
                return String::from_str("YYYY/MM/DD");
            } else {
                return String::from_str("other_slash");
            }
        }
        return String::from_str("invalid_slash");
    }
    String::from_str("unknown")
}

// ---------------------------------------------------------------------------
// Range membership
// ---------------------------------------------------------------------------
/// Whether a date string lies in the inclusive range `[start, end]`: by
/// comparison of the three normalized keys where all of them exist, and by
/// raw lexicographic comparison of the original strings otherwise.
pub open spec fn single_date_in_range(d: Seq<char>, start: Seq<char>, end: Seq<char>) -> bool {
    match (normalize_key(d), normalize_key(start), normalize_key(end)) {
        (Some(x), Some(a), Some(b)) => lex_le(a, x) && lex_le(x, b),
        _ => lex_le(start, d) && lex_le(d, end),
    }
}

/// Decides whether `date_str` lies in the inclusive range
/// `[start_date, end_date]`, normalizing all three to eight-digit keys and
/// degrading to raw string comparison when any of them has no key.
pub fn is_single_date_in_range(date_str: &str, start_date: &str, end_date: &str) -> (r: bool)
    ensures
        r == single_date_in_range(date_str@, start_date@, end_date@),
{
    let nd = normalize_date_for_comparison(date_str);
    let ns = normalize_date_for_comparison(start_date);
    let ne = normalize_date_for_comparison(end_date);
    match (nd, ns, ne) {
        (Some(d), Some(s), Some(e)) => {
            let dv = to_chars(d.as_str());
            let sv = to_chars(s.as_str());
            let ev = to_chars(e.as_str());
            lex_le_chars(&sv, &dv) && lex_le_chars(&dv, &ev)
        },
        _ => {
            let dv = to_chars(date_str);
            let sv = to_chars(start_date);
            let ev = to_chars(end_date);
            lex_le_chars(&sv, &dv) && lex_le_chars(&dv, &ev)
        },
    }
}

// ---------------------------------------------------------------------------
// Laws
// ---------------------------------------------------------------------------
/// The canonical ISO spelling `YYYY-MM-DD` of a calendar date.
pub open spec fn iso_of(y: nat, m: nat, d: nat) -> Seq<char> {
    pad4(y) + seq!['-'] + pad2(m) + seq!['-'] + pad2(d)
}

/// `s` with every occurrence of `c` removed distributes over concatenation.
proof fn lemma_remove_char_concat(a: Seq<char>, b: Seq<char>, c: char)
    ensures
        remove_char(a + b, c) == remove_char(a, c) + remove_char(b, c),
    decreases b.len(),
{
    if b.len() == 0 {
        assert(a + b =~= a);
        assert(remove_char(a, c) + remove_char(b, c) =~= remove_char(a, c));
    } else {
        assert((a + b).drop_last() =~= a + b.drop_last());
        assert((a + b).last() == b.last());
        lemma_remove_char_concat(a, b.drop_last(), c);
        if b.last() != c {
            assert(remove_char(a, c) + remove_char(b.drop_last(), c).push(b.last())
                =~= (remove_char(a, c) + remove_char(b.drop_last(), c)).push(b.last()));
        }
    }
}

/// Removing a character that does not occur leaves the string unchanged.
proof fn lemma_remove_char_absent(s: Seq<char>, c: char)
    requires
        !crate::text::has_char(s, c),
    ensures
        remove_char(s, c) == s,
    decreases s.len(),
{
    if s.len() > 0 {
        assert(s.last() != c);
        assert forall|i: int| 0 <= i < s.drop_last().len() implies s.drop_last()[i] != c by {
            assert(s.drop_last()[i] == s[i]);
        }
        lemma_remove_char_absent(s.drop_last(), c);
        assert(s.drop_last().push(s.last()) =~= s);
    }
}

/// The key of a slash-joined triple of digit groups whose leading group
/// has at most three digits: 1911 is added back to the year and the
/// components are re-rendered zero-padded.
proof fn lemma_slash_triple_key(yp: Seq<char>, mp: Seq<char>, dp: Seq<char>)
    requires
        parses_as_number(yp),
        parses_as_number(mp),
        parses_as_number(dp),
        all_digits(yp),
        all_digits(mp),
        all_digits(dp),
        yp.len() <= 3,
    ensures
        normalize_key(yp + seq!['/'] + mp + seq!['/'] + dp) == Some(
            pad4((digits_val(yp) + 1911) as nat) + pad2(digits_val(mp)) + pad2(digits_val(dp)),
        ),
{
    let s = yp + seq!['/'] + mp + seq!['/'] + dp;
    crate::text::lemma_all_digits_has_char(yp, '-');
    crate::text::lemma_all_digits_has_char(mp, '-');
    crate::text::lemma_all_digits_has_char(dp, '-');
    crate::text::lemma_all_digits_has_char(yp, '/');
    crate::text::lemma_all_digits_has_char(mp, '/');
    crate::text::lemma_all_digits_has_char(dp, '/');
    assert(!has_char(s, '-')) by {
        crate::text::lemma_has_char_concat(yp + seq!['/'] + mp + seq!['/'], dp, '-');
        crate::text::lemma_has_char_concat(yp + seq!['/'] + mp, seq!['/'], '-');
        crate::text::lemma_has_char_concat(yp + seq!['/'], mp, '-');
        crate::text::lemma_has_char_concat(yp, seq!['/'], '-');
        assert(!has_char(seq!['/'], '-')) by {
            assert(forall|i: int| 0 <= i < 1 ==> seq!['/'][i] == '/');
        }
    }
    assert(s[yp.len() as int] == '/');
    assert(has_char(s, '/'));
    crate::text::lemma_split_three(yp, mp, dp, '/');
    assert(split_spec(s, '/') =~= seq![yp, mp, dp]);
}

/// For every calendar date whose year lies above 1911 and whose local year
/// still has at most three digits, both local spellings carry the same
/// eight-digit comparison key as the ISO spelling: normalizing any of the
/// three yields `YYYYMMDD`.
pub proof fn lemma_normalize_agrees_on_local(y: nat, m: nat, d: nat)
    requires
        1911 < y <= 2910,
        m <= 99,
        d <= 99,
    ensures
        to_local_ok(iso_of(y, m, d)),
        to_local_short_ok(iso_of(y, m, d)),
        normalize_key(local_padded(iso_of(y, m, d))) == normalize_key(iso_of(y, m, d)),
        normalize_key(local_short(iso_of(y, m, d))) == normalize_key(iso_of(y, m, d)),
        normalize_key(iso_of(y, m, d)) == Some(pad4(y) + pad2(m) + pad2(d)),
{
    let iso = iso_of(y, m, d);
    crate::text::lemma_pad4_val(y);
    crate::text::lemma_pad2_val(m);
    crate::text::lemma_pad2_val(d);
    crate::text::lemma_all_digits_has_char(pad4(y), '-');
    crate::text::lemma_all_digits_has_char(pad2(m), '-');
    crate::text::lemma_all_digits_has_char(pad2(d), '-');
    crate::text::lemma_split_three(pad4(y), pad2(m), pad2(d), '-');
    let ps = split_spec(iso, '-');
    assert(ps =~= seq![pad4(y), pad2(m), pad2(d)]);
    assert(parses_as_number(pad4(y)));
    assert(to_local_ok(iso));

    // The ISO side of the key.
    assert(iso[pad4(y).len() as int] == '-');
    assert(has_char(iso, '-'));
    assert(iso.len() == 10);
    lemma_remove_char_concat(pad4(y) + seq!['-'] + pad2(m) + seq!['-'], pad2(d), '-');
    lemma_remove_char_concat(pad4(y) + seq!['-'] + pad2(m), seq!['-'], '-');
    lemma_remove_char_concat(pad4(y) + seq!['-'], pad2(m), '-');
    lemma_remove_char_concat(pad4(y), seq!['-'], '-');
    lemma_remove_char_absent(pad4(y), '-');
    lemma_remove_char_absent(pad2(m), '-');
    lemma_remove_char_absent(pad2(d), '-');
    assert(remove_char(Seq::<char>::empty(), '-') =~= Seq::<char>::empty());
    assert(seq!['-'].drop_last() =~= Seq::<char>::empty());
    assert(remove_char(seq!['-'], '-') =~= Seq::<char>::empty());
    assert(remove_char(iso, '-') =~= pad4(y) + pad2(m) + pad2(d));
    assert(normalize_key(iso) == Some(pad4(y) + pad2(m) + pad2(d)));

    // The local sides of the key.
    let ry = (y - 1911) as nat;
    crate::text::lemma_dec_str_val(ry);
    crate::text::lemma_dec_str_len(ry);
    crate::text::lemma_dec_str_val(m);
    crate::text::lemma_dec_str_val(d);
    assert(dec_str(ry).len() <= 3);
    assert(parses_as_number(dec_str(ry)));
    assert(parses_as_number(dec_str(m)));
    assert(parses_as_number(dec_str(d)));
    assert(to_local_short_ok(iso));
    assert(local_padded(iso) == dec_str(ry) + seq!['/'] + pad2(m) + seq!['/'] + pad2(d));
    assert(local_short(iso) == dec_str(ry) + seq!['/'] + dec_str(m) + seq!['/'] + dec_str(d));
    lemma_slash_triple_key(dec_str(ry), pad2(m), pad2(d));
    lemma_slash_triple_key(dec_str(ry), dec_str(m), dec_str(d));
    assert(digits_val(dec_str(ry)) + 1911 == y);
    assert(pad2(digits_val(pad2(m))) == pad2(m));
    assert(pad2(digits_val(pad2(d))) == pad2(d));
    assert(normalize_key(local_padded(iso)) == Some(pad4(y) + pad2(m) + pad2(d)));
    assert(normalize_key(local_short(iso)) == Some(pad4(y) + pad2(m) + pad2(d)));
}

/// A calendar date whose year lies at or below 1911 has no local-calendar
/// equivalent: `convert_to_roc_date` yields nothing on its ISO spelling.
pub proof fn lemma_to_local_rejects_old_years(y: nat, m: nat, d: nat)
    requires
        y <= 1911,
    ensures
        !to_local_ok(iso_of(y, m, d)),
{
    crate::text::lemma_pad4_val(y);
    crate::text::lemma_pad2_val(m);
    crate::text::lemma_pad2_val(d);
    crate::text::lemma_all_digits_has_char(pad4(y), '-');
    crate::text::lemma_all_digits_has_char(pad2(m), '-');
    crate::text::lemma_all_digits_has_char(pad2(d), '-');
    crate::text::lemma_split_three(pad4(y), pad2(m), pad2(d), '-');
    assert(split_spec(iso_of(y, m, d), '-') =~= seq![pad4(y), pad2(m), pad2(d)]);
}

} // verus!
