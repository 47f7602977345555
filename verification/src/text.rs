//! Character-level string utilities.
//!
//! All extraction and normalization logic in this crate works over `Vec<char>`
//! so that indexing is cheap and contracts can be stated over `Seq<char>`.
//! This module holds the conversions between `&str`/`String` and `Vec<char>`
//! and the small lexical building blocks (digits, whitespace, searching,
//! splitting, lexicographic comparison, decimal parsing and rendering).

use vstd::prelude::*;
use vstd::std_specs::iter::IteratorSpec;

verus! {

// ---------------------------------------------------------------------------
// Character classes
// ---------------------------------------------------------------------------
/// An ASCII decimal digit.
pub open spec fn is_digit_char(c: char) -> bool {
    '0' <= c && c <= '9'
}

/// Numeric value of an ASCII digit.
pub open spec fn char_digit(c: char) -> nat {
    ((c as int) - ('0' as int)) as nat
}

/// A character with the Unicode `White_Space` property, the set that
/// `str::trim` removes.
pub open spec fn is_space_char(c: char) -> bool {
    ||| c == '\u{0009}'
    ||| c == '\u{000A}'
    ||| c == '\u{000B}'
    ||| c == '\u{000C}'
    ||| c == '\u{000D}'
    ||| c == ' '
    ||| c == '\u{0085}'
    ||| c == '\u{00A0}'
    ||| c == '\u{1680}'
    ||| ('\u{2000}' <= c && c <= '\u{200A}')
    ||| c == '\u{2028}'
    ||| c == '\u{2029}'
    ||| c == '\u{202F}'
    ||| c == '\u{205F}'
    ||| c == '\u{3000}'
}

/// Exec test for [`is_digit_char`].
pub fn is_digit(c: char) -> (r: bool)
    ensures
        r == is_digit_char(c),
{
    '0' <= c && c <= '9'
}

/// Exec test for [`is_space_char`].
pub fn is_space(c: char) -> (r: bool)
    ensures
        r == is_space_char(c),
{
    c == '\u{0009}' || c == '\u{000A}' || c == '\u{000B}' || c == '\u{000C}' || c == '\u{000D}'
        || c == ' ' || c == '\u{0085}' || c == '\u{00A0}' || c == '\u{1680}' || ('\u{2000}' <= c
        && c <= '\u{200A}') || c == '\u{2028}' || c == '\u{2029}' || c == '\u{202F}' || c
        == '\u{205F}' || c == '\u{3000}'
}

// ---------------------------------------------------------------------------
// String <-> Vec<char>
// ---------------------------------------------------------------------------
/// Relies on `String::push`: appends exactly the given character.
#[verifier::external_body]
fn push_char(s: &mut String, c: char)
    ensures
        final(s)@ == old(s)@.push(c),
{
    s.push(c)
}

/// Collects the characters of a string slice into a vector.
pub fn to_chars(s: &str) -> (r: Vec<char>)
    ensures
        r@ == s@,
{
    broadcast use vstd::string::group_string_axioms;

    let mut it = s.chars();
    let mut r: Vec<char> = Vec::new();
    loop
        invariant_except_break
            it.obeys_prophetic_iter_laws(),
            it.decrease() is Some,
            r@ + it.remaining() == s@,
        ensures
            r@ == s@,
        decreases it.decrease()->0,
    {
        match it.next() {
            Some(c) => {
                r.push(c);
            },
            None => {
                assert(r@ + it.remaining() =~= r@);
                break ;
            },
        }
    }
    r
}

/// Builds an owned string out of a vector of characters.
pub fn from_chars(v: &Vec<char>) -> (r: String)
    ensures
        r@ == v@,
{
    let mut r = String::new();
    let mut i: usize = 0;
    while i < v.len()
        invariant
            i <= v.len(),
            r@ == v@.take(i as int),
        decreases v.len() - i,
    {
        push_char(&mut r, v[i]);
        i = i + 1;
        assert(r@ =~= v@.take(i as int));
    }
    assert(v@.take(v.len() as int) =~= v@);
    r
}

// ---------------------------------------------------------------------------
// Trimming
// ---------------------------------------------------------------------------
/// The sequence with its leading whitespace removed.
pub open spec fn trim_front(s: Seq<char>) -> Seq<char>
    decreases s.len(),
{
    if s.len() > 0 && is_space_char(s.first()) {
        trim_front(s.drop_first())
    } else {
        s
    }
}

/// The sequence with its trailing whitespace removed.
pub open spec fn trim_back(s: Seq<char>) -> Seq<char>
    decreases s.len(),
{
    if s.len() > 0 && is_space_char(s.last()) {
        trim_back(s.drop_last())
    } else {
        s
    }
}

/// What `str::trim` leaves: the sequence with surrounding whitespace removed.
pub open spec fn trim_spec(s: Seq<char>) -> Seq<char> {
    trim_back(trim_front(s))
}

/// Removes leading and trailing whitespace characters.
pub fn trim_chars(v: &Vec<char>) -> (r: Vec<char>)
    ensures
        r@ == trim_spec(v@),
{
    let mut a: usize = 0;
    assert(v@.skip(0) =~= v@);
    while a < v.len() && is_space(v[a])
        invariant
            a <= v.len(),
            trim_front(v@) == trim_front(v@.skip(a as int)),
        decreases v.len() - a,
    {
        assert(v@.skip(a as int).drop_first() =~= v@.skip(a as int + 1));
        a = a + 1;
    }
    assert(trim_front(v@) =~= v@.skip(a as int));
    let mut b: usize = v.len();
    while b > a && is_space(v[b - 1])
        invariant
            a <= b <= v.len(),
            trim_front(v@) == v@.skip(a as int),
            trim_back(v@.skip(a as int)) == trim_back(v@.subrange(a as int, b as int)),
        decreases b,
    {
        assert(v@.subrange(a as int, b as int).drop_last() =~= v@.subrange(a as int, b as int - 1));
        b = b - 1;
    }
    assert(trim_back(v@.subrange(a as int, b as int)) =~= v@.subrange(a as int, b as int));
    let mut r: Vec<char> = Vec::new();
    let mut i: usize = a;
    while i < b
        invariant
            a <= i <= b <= v.len(),
            r@ =~= v@.subrange(a as int, i as int),
        decreases b - i,
    {
        r.push(v[i]);
        i = i + 1;
    }
    r
}

// ---------------------------------------------------------------------------
// Searching
// ---------------------------------------------------------------------------
/// The index of the first occurrence of `c` in `s` at or after `i`, or -1.
pub open spec fn index_of_from(s: Seq<char>, c: char, i: int) -> int
    recommends
        0 <= i,
    decreases s.len() - i,
{
    if i < 0 || i >= s.len() {
        -1
    } else if s[i] == c {
        i
    } else {
        index_of_from(s, c, i + 1)
    }
}

/// Whether `c` occurs in `s`.
pub open spec fn has_char(s: Seq<char>, c: char) -> bool {
    exists|i: int| 0 <= i < s.len() && s[i] == c
}

proof fn lemma_index_of_from_found(s: Seq<char>, c: char, i: int, k: int)
    requires
        0 <= i <= k < s.len(),
        forall|j: int| i <= j < k ==> s[j] != c,
        s[k] == c,
    ensures
        index_of_from(s, c, i) == k,
    decreases k - i,
{
    if i < k {
        lemma_index_of_from_found(s, c, i + 1, k);
    }
}

proof fn lemma_index_of_from_missing(s: Seq<char>, c: char, i: int)
    requires
        0 <= i,
        forall|j: int| i <= j < s.len() ==> s[j] != c,
    ensures
        index_of_from(s, c, i) == -1,
    decreases s.len() - i,
{
    if i < s.len() {
        lemma_index_of_from_missing(s, c, i + 1);
    }
}

/// The two basic facts about [`index_of_from`]: its result is -1 exactly
/// when `c` does not occur at or after `i`, and otherwise it is the first
/// occurrence.
pub proof fn lemma_index_of_from_spec(s: Seq<char>, c: char, i: int)
    requires
        0 <= i,
    ensures
        index_of_from(s, c, i) == -1 ==> forall|j: int| i <= j < s.len() ==> s[j] != c,
        index_of_from(s, c, i) != -1 ==> {
            let k = index_of_from(s, c, i);
            &&& i <= k < s.len()
            &&& s[k] == c
            &&& forall|j: int| i <= j < k ==> s[j] != c
        },
    decreases s.len() - i,
{
    if i < s.len() && s[i] != c {
        lemma_index_of_from_spec(s, c, i + 1);
    }
}

/// Finds the first occurrence of `c` in `v`.
pub fn find_char(v: &Vec<char>, c: char) -> (r: Option<usize>)
    ensures
        match r {
            Some(i) => i < v@.len() && v@[i as int] == c && index_of_from(v@, c, 0) == i,
            None => !has_char(v@, c) && index_of_from(v@, c, 0) == -1,
        },
{
    let mut i: usize = 0;
    while i < v.len()
        invariant
            i <= v.len(),
            forall|j: int| 0 <= j < i ==> v@[j] != c,
        decreases v.len() - i,
    {
        if v[i] == c {
            proof {
                lemma_index_of_from_found(v@, c, 0, i as int);
            }
            return Some(i);
        }
        i = i + 1;
    }
    proof {
        lemma_index_of_from_missing(v@, c, 0);
    }
    None
}

/// Whether `pat` occurs as a contiguous subsequence of `s`.
pub open spec fn contains_seq(s: Seq<char>, pat: Seq<char>) -> bool {
    exists|i: int| 0 <= i && i + pat.len() <= s.len() && #[trigger] s.subrange(i, i + pat.len())
        == pat
}

/// Substring search: whether `pat` occurs anywhere in `v`.
pub fn contains_chars(v: &Vec<char>, pat: &Vec<char>) -> (r: bool)
    ensures
        r == contains_seq(v@, pat@),
{
    if pat.len() > v.len() {
        return false;
    }
    let mut i: usize = 0;
    while i <= v.len() - pat.len()
        invariant
            pat.len() <= v.len(),
            i <= v.len() - pat.len() + 1,
            forall|x: int|
                0 <= x < i ==> #[trigger] v@.subrange(x, x + pat@.len()) != pat@,
        decreases v.len() + 1 - i,
    {
        let mut j: usize = 0;
        while j < pat.len()
            invariant
                i + pat.len() <= v.len(),
                j <= pat.len(),
                forall|y: int| 0 <= y < j ==> v@[i + y] == pat@[y],
            ensures
                i + pat.len() <= v.len(),
                j <= pat.len(),
                forall|y: int| 0 <= y < j ==> v@[i + y] == pat@[y],
                j < pat.len() ==> v@[i + j] != pat@[j as int],
            decreases pat.len() - j,
        {
            if v[i + j] != pat[j] {
                break ;
            }
            j = j + 1;
        }
        if j == pat.len() {
            assert(v@.subrange(i as int, i + pat@.len()) =~= pat@);
            return true;
        }
        assert(v@.subrange(i as int, i + pat@.len()) != pat@) by {
            assert(v@.subrange(i as int, i + pat@.len())[j as int] != pat@[j as int]);
        }
        i = i + 1;
    }
    assert(!contains_seq(v@, pat@)) by {
        assert forall|x: int| 0 <= x && x + pat@.len() <= v@.len() implies #[trigger] v@.subrange(
            x,
            x + pat@.len(),
        ) != pat@ by {
            assert(x < i);
        }
    }
    false
}

// ---------------------------------------------------------------------------
// Lexicographic comparison
// ---------------------------------------------------------------------------
/// Lexicographic order on character sequences by code point, the order
/// `str`'s `<=` gives on the underlying strings.
pub open spec fn lex_le(a: Seq<char>, b: Seq<char>) -> bool
    decreases a.len(),
{
    if a.len() == 0 {
        true
    } else if b.len() == 0 {
        false
    } else if a.first() != b.first() {
        (a.first() as u32) < (b.first() as u32)
    } else {
        lex_le(a.drop_first(), b.drop_first())
    }
}

/// Compares two character vectors lexicographically.
pub fn lex_le_chars(a: &Vec<char>, b: &Vec<char>) -> (r: bool)
    ensures
        r == lex_le(a@, b@),
{
    let mut i: usize = 0;
    assert(a@.skip(0) =~= a@);
    assert(b@.skip(0) =~= b@);
    while i < a.len() && i < b.len()
        invariant
            i <= a.len(),
            i <= b.len(),
            lex_le(a@, b@) == lex_le(a@.skip(i as int), b@.skip(i as int)),
        decreases a.len() - i,
    {
        assert(a@.skip(i as int).first() == a@[i as int]);
        assert(b@.skip(i as int).first() == b@[i as int]);
        if a[i] != b[i] {
            return (a[i] as u32) < (b[i] as u32);
        }
        assert(a@.skip(i as int).drop_first() =~= a@.skip(i as int + 1));
        assert(b@.skip(i as int).drop_first() =~= b@.skip(i as int + 1));
        i = i + 1;
    }
    assert(a@.skip(i as int).len() == a@.len() - i);
    assert(b@.skip(i as int).len() == b@.len() - i);
    a.len() <= b.len()
}

// ---------------------------------------------------------------------------
// Splitting
// ---------------------------------------------------------------------------
/// The views of a sequence of character vectors.
pub open spec fn views_of(r: Seq<Vec<char>>) -> Seq<Seq<char>> {
    r.map_values(|p: Vec<char>| p@)
}

/// What splitting `s` on the separator `sep` yields: the (possibly empty)
/// segments between occurrences of `sep`, as `str::split` produces them.
pub open spec fn split_spec(s: Seq<char>, sep: char) -> Seq<Seq<char>>
    decreases s.len(),
{
    let i = index_of_from(s, sep, 0);
    if 0 <= i < s.len() {
        seq![s.subrange(0, i)] + split_spec(s.subrange(i + 1, s.len() as int), sep)
    } else {
        seq![s]
    }
}

/// Copies a character vector.
pub fn copy_chars(v: &Vec<char>) -> (r: Vec<char>)
    ensures
        r@ == v@,
{
    let mut r: Vec<char> = Vec::new();
    let mut i: usize = 0;
    while i < v.len()
        invariant
            i <= v.len(),
            r@ =~= v@.take(i as int),
        decreases v.len() - i,
    {
        r.push(v[i]);
        i = i + 1;
    }
    assert(v@.take(v.len() as int) =~= v@);
    r
}

/// Splits `v` on the separator character, as `str::split` does.
pub fn split_chars(v: &Vec<char>, sep: char) -> (r: Vec<Vec<char>>)
    ensures
        views_of(r@) == split_spec(v@, sep),
        r@.len() >= 1,
{
    let mut parts: Vec<Vec<char>> = Vec::new();
    let mut cur: Vec<char> = Vec::new();
    let mut i: usize = 0;
    proof {
        assert(Seq::<char>::empty() + v@.skip(0) =~= v@);
        assert(views_of(parts@) + split_spec(v@, sep) =~= split_spec(v@, sep));
    }
    while i < v.len()
        invariant
            i <= v.len(),
            forall|j: int| 0 <= j < cur@.len() ==> cur@[j] != sep,
            split_spec(v@, sep) == views_of(parts@) + split_spec(
                cur@ + v@.skip(i as int),
                sep,
            ),
        decreases v.len() - i,
    {
        let c = v[i];
        if c == sep {
            proof {
                let s = cur@ + v@.skip(i as int);
                assert(s[cur@.len() as int] == sep);
                lemma_index_of_from_found(s, sep, 0, cur@.len() as int);
                assert(s.subrange(0, cur@.len() as int) =~= cur@);
                assert(s.subrange(cur@.len() as int + 1, s.len() as int) =~= Seq::<
                    char,
                >::empty() + v@.skip(i as int + 1));
                assert(split_spec(s, sep) =~= seq![cur@] + split_spec(
                    Seq::<char>::empty() + v@.skip(i as int + 1),
                    sep,
                ));
            }
            let done = cur;
            cur = Vec::new();
            proof {
                assert(views_of(parts@.push(done)) =~= views_of(parts@).push(done@));
            }
            parts.push(done);
        } else {
            proof {
                assert(cur@.push(c) + v@.skip(i as int + 1) =~= cur@ + v@.skip(i as int));
            }
            cur.push(c);
        }
        i = i + 1;
    }
    proof {
        assert(cur@ + v@.skip(v@.len() as int) =~= cur@);
        lemma_index_of_from_missing(cur@, sep, 0);
        assert(split_spec(cur@, sep) =~= seq![cur@]);
        assert(views_of(parts@.push(cur)) =~= views_of(parts@).push(cur@));
        assert(views_of(parts@) + seq![cur@] =~= views_of(parts@).push(cur@));
    }
    parts.push(cur);
    parts
}

// ---------------------------------------------------------------------------
// Lines
// ---------------------------------------------------------------------------
/// A segment with one trailing carriage return removed, if present.
pub open spec fn strip_cr(t: Seq<char>) -> Seq<char> {
    if t.len() > 0 && t.last() == '\r' {
        t.drop_last()
    } else {
        t
    }
}

/// What `str::lines` yields: segments between newlines, each stripped of a
/// carriage return that stood before the newline; a trailing newline does
/// not open a final empty line.
pub open spec fn lines_spec(s: Seq<char>) -> Seq<Seq<char>> {
    let parts = split_spec(s, '\n');
    let n = parts.len() as int;
    if parts.last().len() == 0 {
        Seq::new((n - 1) as nat, |i: int| strip_cr(parts[i]))
    } else {
        Seq::new(
            n as nat,
            |i: int|
                if i < n - 1 {
                    strip_cr(parts[i])
                } else {
                    parts[i]
                },
        )
    }
}

/// Splits `v` into lines, as `str::lines` does.
pub fn lines_chars(v: &Vec<char>) -> (r: Vec<Vec<char>>)
    ensures
        views_of(r@) == lines_spec(v@),
{
    let parts = split_chars(v, '\n');
    let n = parts.len();
    let keep_last = parts[n - 1].len() > 0;
    let m = if keep_last {
        n
    } else {
        n - 1
    };
    let mut r: Vec<Vec<char>> = Vec::new();
    let mut i: usize = 0;
    while i < m
        invariant
            m <= n == parts@.len(),
            i <= m,
            views_of(parts@) == split_spec(v@, '\n'),
            keep_last == (views_of(parts@).last().len() != 0),
            m == if keep_last {
                n as int
            } else {
                n - 1
            },
            views_of(r@) =~= lines_spec(v@).take(i as int),
        decreases m - i,
    {
        let strip = !keep_last || i < m - 1;
        let mut q = copy_chars(&parts[i]);
        if strip && q.len() > 0 && q[q.len() - 1] == '\r' {
            q.pop();
            assert(q@ =~= strip_cr(parts@[i as int]@));
        }
        proof {
            assert(views_of(r@.push(q)) =~= views_of(r@).push(q@));
            assert(lines_spec(v@).take(i as int + 1) =~= lines_spec(v@).take(i as int).push(
                lines_spec(v@)[i as int],
            ));
        }
        r.push(q);
        i = i + 1;
    }
    assert(lines_spec(v@).take(m as int) =~= lines_spec(v@));
    r
}

// ---------------------------------------------------------------------------
// Decimal numbers
// ---------------------------------------------------------------------------
/// Every character is an ASCII digit.
pub open spec fn all_digits(s: Seq<char>) -> bool {
    forall|i: int| 0 <= i < s.len() ==> is_digit_char(#[trigger] s[i])
}

/// The numeric value of a digit string read in base ten.
pub open spec fn digits_val(s: Seq<char>) -> nat
    decreases s.len(),
{
    if s.len() == 0 {
        0
    } else {
        digits_val(s.drop_last()) * 10 + char_digit(s.last())
    }
}

/// A string that `i32::from_str` style parsing accepts: non-empty, all
/// digits, and with a value within the signed 32-bit range.
pub open spec fn parses_as_number(s: Seq<char>) -> bool {
    s.len() > 0 && all_digits(s) && digits_val(s) <= 0x7FFF_FFFF
}

proof fn lemma_digits_val_prefix_le(s: Seq<char>, i: int)
    requires
        0 <= i <= s.len(),
    ensures
        digits_val(s.take(i)) <= digits_val(s),
    decreases s.len() - i,
{
    if i < s.len() {
        assert(s.take(i + 1).drop_last() =~= s.take(i));
        assert(digits_val(s.take(i + 1)) == digits_val(s.take(i)) * 10 + char_digit(
            s.take(i + 1).last(),
        ));
        lemma_digits_val_prefix_le(s, i + 1);
    } else {
        assert(s.take(i) =~= s);
    }
}

/// Parses a non-empty all-digit string, within the signed 32-bit range.
pub fn parse_digits(v: &Vec<char>) -> (r: Option<u32>)
    ensures
        match r {
            Some(n) => parses_as_number(v@) && n == digits_val(v@),
            None => !parses_as_number(v@),
        },
{
    if v.len() == 0 {
        return None;
    }
    let mut acc: u64 = 0;
    let mut i: usize = 0;
    while i < v.len()
        invariant
            i <= v.len(),
            forall|j: int| 0 <= j < i ==> is_digit_char(#[trigger] v@[j]),
            acc == digits_val(v@.take(i as int)),
            acc <= 0x7FFF_FFFF,
        decreases v.len() - i,
    {
        let c = v[i];
        if !is_digit(c) {
            return None;
        }
        let d: u64 = (c as u32 as u64) - 0x30;
        let next: u64 = acc * 10 + d;
        proof {
            assert(v@.take(i as int + 1).drop_last() =~= v@.take(i as int));
            assert(d == char_digit(c));
            assert(digits_val(v@.take(i as int + 1)) == acc * 10 + d);
        }
        if next > 0x7FFF_FFFF {
            proof {
                lemma_digits_val_prefix_le(v@, i as int + 1);
            }
            return None;
        }
        acc = next;
        i = i + 1;
    }
    assert(v@.take(v@.len() as int) =~= v@);
    Some(acc as u32)
}

/// The digit character for a value below ten.
pub open spec fn digit_char(d: nat) -> char {
    if d == 0 {
        '0'
    } else if d == 1 {
        '1'
    } else if d == 2 {
        '2'
    } else if d == 3 {
        '3'
    } else if d == 4 {
        '4'
    } else if d == 5 {
        '5'
    } else if d == 6 {
        '6'
    } else if d == 7 {
        '7'
    } else if d == 8 {
        '8'
    } else {
        '9'
    }
}

/// The shortest decimal rendering of `n`, as `u32`'s `Display` writes it.
pub open spec fn dec_str(n: nat) -> Seq<char>
    decreases n,
{
    if n < 10 {
        seq![digit_char(n)]
    } else {
        dec_str(n / 10) + seq![digit_char(n % 10)]
    }
}

/// The decimal rendering of `n` left-padded with zeros to two digits.
pub open spec fn pad2(n: nat) -> Seq<char> {
    if n < 10 {
        seq!['0'] + dec_str(n)
    } else {
        dec_str(n)
    }
}

/// The decimal rendering of `n` left-padded with zeros to four digits.
pub open spec fn pad4(n: nat) -> Seq<char> {
    if n < 10 {
        seq!['0', '0', '0'] + dec_str(n)
    } else if n < 100 {
        seq!['0', '0'] + dec_str(n)
    } else if n < 1000 {
        seq!['0'] + dec_str(n)
    } else {
        dec_str(n)
    }
}

fn digit_of(d: u32) -> (c: char)
    requires
        d < 10,
    ensures
        c == digit_char(d as nat),
{
    if d == 0 {
        '0'
    } else if d == 1 {
        '1'
    } else if d == 2 {
        '2'
    } else if d == 3 {
        '3'
    } else if d == 4 {
        '4'
    } else if d == 5 {
        '5'
    } else if d == 6 {
        '6'
    } else if d == 7 {
        '7'
    } else if d == 8 {
        '8'
    } else {
        '9'
    }
}

/// Appends the decimal rendering of `n`.
pub fn push_dec(v: &mut Vec<char>, n: u32)
    ensures
        final(v)@ == old(v)@ + dec_str(n as nat),
    decreases n,
{
    if n >= 10 {
        push_dec(v, n / 10);
        v.push(digit_of(n % 10));
        assert(final(v)@ =~= old(v)@ + dec_str(n as nat));
    } else {
        v.push(digit_of(n));
        assert(final(v)@ =~= old(v)@ + dec_str(n as nat));
    }
}

/// Appends the decimal rendering of `n`, zero-padded to two digits.
pub fn push_pad2(v: &mut Vec<char>, n: u32)
    ensures
        final(v)@ == old(v)@ + pad2(n as nat),
{
    if n < 10 {
        v.push('0');
    }
    push_dec(v, n);
    assert(final(v)@ =~= old(v)@ + pad2(n as nat));
}

/// Appends the decimal rendering of `n`, zero-padded to four digits.
pub fn push_pad4(v: &mut Vec<char>, n: u32)
    ensures
        final(v)@ == old(v)@ + pad4(n as nat),
{
    if n < 10 {
        v.push('0');
        v.push('0');
        v.push('0');
    } else if n < 100 {
        v.push('0');
        v.push('0');
    } else if n < 1000 {
        v.push('0');
    }
    push_dec(v, n);
    assert(final(v)@ =~= old(v)@ + pad4(n as nat));
}

/// Removes leading whitespace characters only.
pub fn trim_front_chars(v: &Vec<char>) -> (r: Vec<char>)
    ensures
        r@ == trim_front(v@),
{
    let mut a: usize = 0;
    assert(v@.skip(0) =~= v@);
    while a < v.len() && is_space(v[a])
        invariant
            a <= v.len(),
            trim_front(v@) == trim_front(v@.skip(a as int)),
        decreases v.len() - a,
    {
        assert(v@.skip(a as int).drop_first() =~= v@.skip(a as int + 1));
        a = a + 1;
    }
    assert(trim_front(v@) =~= v@.skip(a as int));
    let mut r: Vec<char> = Vec::new();
    let mut i: usize = a;
    while i < v.len()
        invariant
            a <= i <= v.len(),
            r@ =~= v@.subrange(a as int, i as int),
        decreases v.len() - i,
    {
        r.push(v[i]);
        i = i + 1;
    }
    assert(v@.subrange(a as int, v@.len() as int) =~= v@.skip(a as int));
    r
}

// ---------------------------------------------------------------------------
// Substring position
// ---------------------------------------------------------------------------
/// The index of the first occurrence of `pat` in `s` at or after `i`, or
/// -1.
pub open spec fn first_sub_from(s: Seq<char>, pat: Seq<char>, i: int) -> int
    recommends
        0 <= i,
    decreases s.len() + 1 - i,
{
    if i < 0 || i + pat.len() > s.len() {
        -1
    } else if s.subrange(i, i + pat.len()) == pat {
        i
    } else {
        first_sub_from(s, pat, i + 1)
    }
}

proof fn lemma_first_sub_found(s: Seq<char>, pat: Seq<char>, i: int, k: int)
    requires
        0 <= i <= k,
        k + pat.len() <= s.len(),
        forall|x: int| i <= x < k ==> #[trigger] s.subrange(x, x + pat.len()) != pat,
        s.subrange(k, k + pat.len()) == pat,
    ensures
        first_sub_from(s, pat, i) == k,
    decreases k - i,
{
    if i < k {
        lemma_first_sub_found(s, pat, i + 1, k);
    }
}

proof fn lemma_first_sub_missing(s: Seq<char>, pat: Seq<char>, i: int)
    requires
        0 <= i,
        forall|x: int|
            i <= x && x + pat.len() <= s.len() ==> #[trigger] s.subrange(x, x + pat.len())
                != pat,
    ensures
        first_sub_from(s, pat, i) == -1,
    decreases s.len() + 1 - i,
{
    if i + pat.len() <= s.len() {
        lemma_first_sub_missing(s, pat, i + 1);
    }
}

/// Finds the first occurrence of `pat` in `v`.
pub fn find_sub(v: &Vec<char>, pat: &Vec<char>) -> (r: Option<usize>)
    ensures
        match r {
            Some(i) => first_sub_from(v@, pat@, 0) == i && i + pat@.len() <= v@.len(),
            None => first_sub_from(v@, pat@, 0) == -1,
        },
{
    if pat.len() > v.len() {
        proof {
            lemma_first_sub_missing(v@, pat@, 0);
        }
        return None;
    }
    let mut i: usize = 0;
    while i <= v.len() - pat.len()
        invariant
            pat.len() <= v.len(),
            i <= v.len() - pat.len() + 1,
            forall|x: int| 0 <= x < i ==> #[trigger] v@.subrange(x, x + pat@.len()) != pat@,
        decreases v.len() + 1 - i,
    {
        let mut j: usize = 0;
        while j < pat.len()
            invariant
                i + pat.len() <= v.len(),
                j <= pat.len(),
                forall|y: int| 0 <= y < j ==> v@[i + y] == pat@[y],
            ensures
                i + pat.len() <= v.len(),
                j <= pat.len(),
                forall|y: int| 0 <= y < j ==> v@[i + y] == pat@[y],
                j < pat.len() ==> v@[i + j] != pat@[j as int],
            decreases pat.len() - j,
        {
            if v[i + j] != pat[j] {
                break ;
            }
            j = j + 1;
        }
        if j == pat.len() {
            proof {
                assert(v@.subrange(i as int, i + pat@.len()) =~= pat@);
                lemma_first_sub_found(v@, pat@, 0, i as int);
            }
            return Some(i);
        }
        assert(v@.subrange(i as int, i + pat@.len()) != pat@) by {
            assert(v@.subrange(i as int, i + pat@.len())[j as int] != pat@[j as int]);
        }
        i = i + 1;
    }
    proof {
        lemma_first_sub_missing(v@, pat@, 0);
    }
    None
}

// ---------------------------------------------------------------------------
// Whitespace words
// ---------------------------------------------------------------------------
/// The index of the first whitespace character at or after `i`, or -1.
pub open spec fn first_space_from(s: Seq<char>, i: int) -> int
    recommends
        0 <= i,
    decreases s.len() - i,
{
    if i < 0 || i >= s.len() {
        -1
    } else if is_space_char(s[i]) {
        i
    } else {
        first_space_from(s, i + 1)
    }
}

/// What `str::split_whitespace` yields: the maximal non-whitespace runs.
pub open spec fn words_of(s: Seq<char>) -> Seq<Seq<char>>
    decreases s.len(),
{
    if s.len() == 0 {
        Seq::empty()
    } else if is_space_char(s[0]) {
        words_of(s.drop_first())
    } else {
        let j = first_space_from(s, 0);
        if 1 <= j < s.len() {
            seq![s.subrange(0, j)] + words_of(s.subrange(j, s.len() as int))
        } else {
            seq![s]
        }
    }
}

/// The words joined with single spaces, as `join(" ")` renders them.
pub open spec fn joined(ws: Seq<Seq<char>>) -> Seq<char>
    decreases ws.len(),
{
    if ws.len() == 0 {
        Seq::empty()
    } else if ws.len() == 1 {
        ws[0]
    } else {
        ws[0] + seq![' '] + joined(ws.drop_first())
    }
}

proof fn lemma_first_space_found(s: Seq<char>, i: int, k: int)
    requires
        0 <= i <= k < s.len(),
        forall|j: int| i <= j < k ==> !is_space_char(#[trigger] s[j]),
        is_space_char(s[k]),
    ensures
        first_space_from(s, i) == k,
    decreases k - i,
{
    if i < k {
        lemma_first_space_found(s, i + 1, k);
    }
}

proof fn lemma_first_space_missing(s: Seq<char>, i: int)
    requires
        0 <= i,
        forall|j: int| i <= j < s.len() ==> !is_space_char(#[trigger] s[j]),
    ensures
        first_space_from(s, i) == -1,
    decreases s.len() - i,
{
    if i < s.len() {
        lemma_first_space_missing(s, i + 1);
    }
}

/// Splits `v` into its maximal non-whitespace runs, as
/// `str::split_whitespace` does.
pub fn split_whitespace_chars(v: &Vec<char>) -> (r: Vec<Vec<char>>)
    ensures
        views_of(r@) == words_of(v@),
{
    let mut r: Vec<Vec<char>> = Vec::new();
    let mut i: usize = 0;
    proof {
        assert(v@.skip(0) =~= v@);
        assert(views_of(r@) + words_of(v@) =~= words_of(v@));
    }
    while i < v.len()
        invariant
            i <= v.len(),
            words_of(v@) == views_of(r@) + words_of(v@.skip(i as int)),
        decreases v.len() - i,
    {
        if is_space(v[i]) {
            proof {
                assert(v@.skip(i as int).drop_first() =~= v@.skip(i as int + 1));
            }
            i = i + 1;
        } else {
            let start = i;
            let mut j: usize = i + 1;
            while j < v.len() && !is_space(v[j])
                invariant
                    start < j <= v.len(),
                    forall|x: int| start <= x < j ==> !is_space_char(#[trigger] v@[x]),
                decreases v.len() - j,
            {
                j = j + 1;
            }
            let mut w: Vec<char> = Vec::new();
            let mut x: usize = start;
            while x < j
                invariant
                    start <= x <= j <= v.len(),
                    w@ =~= v@.subrange(start as int, x as int),
                decreases j - x,
            {
                w.push(v[x]);
                x = x + 1;
            }
            proof {
                let t = v@.skip(start as int);
                assert forall|y: int| 0 <= y < j - start implies !is_space_char(
                    #[trigger] t[y],
                ) by {
                    assert(t[y] == v@[start + y]);
                }
                if j < v.len() {
                    assert(t[j - start] == v@[j as int]);
                    lemma_first_space_found(t, 0, j - start);
                    assert(t.subrange(0, j - start) =~= v@.subrange(start as int, j as int));
                    assert(t.subrange(j - start, t.len() as int) =~= v@.skip(j as int));
                    assert(words_of(t) =~= seq![w@] + words_of(v@.skip(j as int)));
                } else {
                    lemma_first_space_missing(t, 0);
                    assert(t =~= v@.subrange(start as int, j as int));
                    assert(v@.skip(j as int) =~= Seq::<char>::empty());
                    assert(words_of(t) =~= seq![w@] + words_of(v@.skip(j as int)));
                }
                assert(views_of(r@.push(w)) =~= views_of(r@).push(w@));
                assert(views_of(r@).push(w@) + words_of(v@.skip(j as int)) =~= views_of(r@) + (
                seq![w@] + words_of(v@.skip(j as int))));
            }
            r.push(w);
            i = j;
        }
    }
    proof {
        assert(v@.skip(v@.len() as int) =~= Seq::<char>::empty());
        assert(views_of(r@) + Seq::<Seq<char>>::empty() =~= views_of(r@));
    }
    r
}

proof fn lemma_joined_snoc(ws: Seq<Seq<char>>, w: Seq<char>)
    ensures
        joined(ws.push(w)) == if ws.len() == 0 {
            w
        } else {
            joined(ws) + seq![' '] + w
        },
    decreases ws.len(),
{
    if ws.len() == 0 {
        assert(ws.push(w)[0] == w);
    } else {
        assert(ws.push(w)[0] == ws[0]);
        assert(ws.push(w).drop_first() =~= ws.drop_first().push(w));
        lemma_joined_snoc(ws.drop_first(), w);
        if ws.len() == 1 {
            assert(ws.drop_first() =~= Seq::<Seq<char>>::empty());
        } else {
            assert(ws[0] + seq![' '] + (joined(ws.drop_first()) + seq![' '] + w) =~= (ws[0]
                + seq![' '] + joined(ws.drop_first())) + seq![' '] + w);
        }
    }
}

/// Joins words with single spaces, as `join(" ")` does.
pub fn join_words(ws: &Vec<Vec<char>>) -> (r: Vec<char>)
    ensures
        r@ == joined(views_of(ws@)),
{
    let mut r: Vec<char> = Vec::new();
    let mut i: usize = 0;
    while i < ws.len()
        invariant
            i <= ws.len(),
            r@ =~= joined(views_of(ws@).take(i as int)),
        decreases ws.len() - i,
    {
        proof {
            lemma_joined_snoc(views_of(ws@).take(i as int), views_of(ws@)[i as int]);
            assert(views_of(ws@).take(i as int).push(views_of(ws@)[i as int]) =~= views_of(
                ws@,
            ).take(i as int + 1));
            assert(views_of(ws@)[i as int] == ws@[i as int]@);
        }
        if i > 0 {
            r.push(' ');
        }
        let mut x: usize = 0;
        let ghost mid = r@;
        while x < ws[i].len()
            invariant
                i < ws@.len(),
                x <= ws@[i as int]@.len(),
                r@ =~= mid + ws@[i as int]@.take(x as int),
            decreases ws@[i as int]@.len() - x,
        {
            r.push(ws[i][x]);
            x = x + 1;
        }
        proof {
            assert(ws@[i as int]@.take(ws@[i as int]@.len() as int) =~= ws@[i as int]@);
            assert(r@ =~= joined(views_of(ws@).take(i as int + 1)));
        }
        i = i + 1;
    }
    assert(views_of(ws@).take(ws@.len() as int) =~= views_of(ws@));
    r
}

// ---------------------------------------------------------------------------
// Equality
// ---------------------------------------------------------------------------
/// Compares two character vectors for equality.
pub fn chars_eq(a: &Vec<char>, b: &Vec<char>) -> (r: bool)
    ensures
        r == (a@ == b@),
{
    if a.len() != b.len() {
        return false;
    }
    let mut i: usize = 0;
    while i < a.len()
        invariant
            a@.len() == b@.len(),
            i <= a.len(),
            forall|j: int| 0 <= j < i ==> a@[j] == b@[j],
        decreases a.len() - i,
    {
        if a[i] != b[i] {
            return false;
        }
        i = i + 1;
    }
    assert(a@ =~= b@);
    true
}

/// Compares two string slices for equality.
pub fn str_eq(a: &str, b: &str) -> (r: bool)
    ensures
        r == (a@ == b@),
{
    let av = to_chars(a);
    let bv = to_chars(b);
    chars_eq(&av, &bv)
}

// ---------------------------------------------------------------------------
// Facts about the primitives above
// ---------------------------------------------------------------------------
/// Occurrence of a character in a concatenation.
pub proof fn lemma_has_char_concat(a: Seq<char>, b: Seq<char>, c: char)
    ensures
        has_char(a + b, c) == (has_char(a, c) || has_char(b, c)),
{
    if has_char(a, c) {
        let i = choose|i: int| 0 <= i < a.len() && a[i] == c;
        assert((a + b)[i] == c);
    }
    if has_char(b, c) {
        let i = choose|i: int| 0 <= i < b.len() && b[i] == c;
        assert((a + b)[a.len() + i] == c);
    }
    if has_char(a + b, c) {
        let i = choose|i: int| 0 <= i < (a + b).len() && (a + b)[i] == c;
        if i < a.len() {
            assert(a[i] == c);
        } else {
            assert(b[i - a.len()] == c);
        }
    }
}

/// A string of digits contains no other character.
pub proof fn lemma_all_digits_has_char(s: Seq<char>, c: char)
    requires
        all_digits(s),
        !is_digit_char(c),
    ensures
        !has_char(s, c),
{
}

/// Splitting a string that holds no separator yields the string itself.
pub proof fn lemma_split_whole(s: Seq<char>, sep: char)
    requires
        !has_char(s, sep),
    ensures
        split_spec(s, sep) =~= seq![s],
{
    lemma_index_of_from_spec(s, sep, 0);
    if index_of_from(s, sep, 0) >= 0 {
        assert(s[index_of_from(s, sep, 0)] == sep);
    }
}

/// Splitting `a ++ sep ++ b` where `a` holds no separator peels off `a`.
pub proof fn lemma_split_peel(a: Seq<char>, b: Seq<char>, sep: char)
    requires
        !has_char(a, sep),
    ensures
        split_spec(a + seq![sep] + b, sep) =~= seq![a] + split_spec(b, sep),
{
    let s = a + seq![sep] + b;
    assert(s[a.len() as int] == sep);
    assert forall|j: int| 0 <= j < a.len() implies s[j] != sep by {
        assert(s[j] == a[j]);
    }
    lemma_index_of_from_found(s, sep, 0, a.len() as int);
    assert(s.subrange(0, a.len() as int) =~= a);
    assert(s.subrange(a.len() as int + 1, s.len() as int) =~= b);
}

/// Splitting the three-part join `p0/sep/p1/sep/p2` recovers the parts.
pub proof fn lemma_split_three(p0: Seq<char>, p1: Seq<char>, p2: Seq<char>, sep: char)
    requires
        !has_char(p0, sep),
        !has_char(p1, sep),
        !has_char(p2, sep),
    ensures
        split_spec(p0 + seq![sep] + p1 + seq![sep] + p2, sep) =~= seq![p0, p1, p2],
{
    let tail = p1 + seq![sep] + p2;
    assert(p0 + seq![sep] + p1 + seq![sep] + p2 =~= p0 + seq![sep] + tail);
    lemma_split_peel(p0, tail, sep);
    lemma_split_peel(p1, p2, sep);
    lemma_split_whole(p2, sep);
    assert(split_spec(tail, sep) =~= seq![p1] + seq![p2]);
}

/// The decimal rendering of a number is all digits and reads back to it.
pub proof fn lemma_dec_str_val(n: nat)
    ensures
        all_digits(dec_str(n)),
        digits_val(dec_str(n)) == n,
        dec_str(n).len() >= 1,
    decreases n,
{
    if n < 10 {
        assert(digits_val(dec_str(n)) == digits_val(seq![digit_char(n)].drop_last()) * 10
            + char_digit(digit_char(n)));
        assert(seq![digit_char(n)].drop_last() =~= Seq::<char>::empty());
    } else {
        lemma_dec_str_val(n / 10);
        let s = dec_str(n / 10) + seq![digit_char(n % 10)];
        assert(s.drop_last() =~= dec_str(n / 10));
        assert(digits_val(s) == (n / 10) * 10 + (n % 10));
        assert((n / 10) * 10 + (n % 10) == n) by (nonlinear_arith);
        assert forall|i: int| 0 <= i < s.len() implies is_digit_char(#[trigger] s[i]) by {
            if i < dec_str(n / 10).len() {
                assert(s[i] == dec_str(n / 10)[i]);
            }
        }
    }
}

/// How many digits the decimal rendering of `n` has, for small `n`.
pub proof fn lemma_dec_str_len(n: nat)
    ensures
        (dec_str(n).len() == 1) == (n < 10),
        (dec_str(n).len() <= 2) == (n < 100),
        (dec_str(n).len() <= 3) == (n < 1000),
        (dec_str(n).len() <= 4) == (n < 10000),
    decreases n,
{
    if n >= 10 {
        lemma_dec_str_len(n / 10);
    }
}

/// Prepending a zero does not change the value a digit string reads as.
pub proof fn lemma_digits_val_prepend_zero(s: Seq<char>)
    ensures
        digits_val(seq!['0'] + s) == digits_val(s),
    decreases s.len(),
{
    if s.len() == 0 {
        assert(seq!['0'] + s =~= seq!['0']);
        assert(seq!['0'].drop_last() =~= Seq::<char>::empty());
        assert(digits_val(Seq::<char>::empty()) == 0);
        assert(digits_val(seq!['0']) == digits_val(seq!['0'].drop_last()) * 10 + char_digit(
            seq!['0'].last(),
        ));
    } else {
        assert((seq!['0'] + s).drop_last() =~= seq!['0'] + s.drop_last());
        assert((seq!['0'] + s).last() == s.last());
        lemma_digits_val_prepend_zero(s.drop_last());
        assert(digits_val(seq!['0'] + s) == digits_val(seq!['0'] + s.drop_last()) * 10
            + char_digit(s.last()));
    }
}

/// The two-digit padding is all digits, reads back to `n`, and has length
/// two exactly for `n` below one hundred.
pub proof fn lemma_pad2_val(n: nat)
    ensures
        all_digits(pad2(n)),
        digits_val(pad2(n)) == n,
        n < 100 ==> pad2(n).len() == 2,
    decreases n,
{
    lemma_dec_str_val(n);
    lemma_dec_str_len(n);
    if n < 10 {
        lemma_digits_val_prepend_zero(dec_str(n));
        assert forall|i: int| 0 <= i < pad2(n).len() implies is_digit_char(
            #[trigger] pad2(n)[i],
        ) by {
            if i >= 1 {
                assert(pad2(n)[i] == dec_str(n)[i - 1]);
            }
        }
    }
}

/// The four-digit padding is all digits, reads back to `n`, and has length
/// four exactly for `n` below ten thousand.
pub proof fn lemma_pad4_val(n: nat)
    ensures
        all_digits(pad4(n)),
        digits_val(pad4(n)) == n,
        n < 10000 ==> pad4(n).len() == 4,
{
    lemma_dec_str_val(n);
    lemma_dec_str_len(n);
    if n < 1000 {
        lemma_digits_val_prepend_zero(dec_str(n));
        if n < 100 {
            lemma_digits_val_prepend_zero(seq!['0'] + dec_str(n));
            assert(seq!['0'] + (seq!['0'] + dec_str(n)) =~= seq!['0', '0'] + dec_str(n));
            if n < 10 {
                lemma_digits_val_prepend_zero(seq!['0', '0'] + dec_str(n));
                assert(seq!['0'] + (seq!['0', '0'] + dec_str(n)) =~= seq!['0', '0', '0']
                    + dec_str(n));
            }
        }
    }
    assert forall|i: int| 0 <= i < pad4(n).len() implies is_digit_char(#[trigger] pad4(n)[i]) by {
        let zeros: int = pad4(n).len() - dec_str(n).len();
        if i >= zeros {
            assert(pad4(n)[i] == dec_str(n)[i - zeros]);
        } else {
            assert(pad4(n)[i] == '0');
        }
    }
}

} // verus!
