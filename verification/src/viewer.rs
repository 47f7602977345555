//! Types and helpers of the read-side viewer: its query parameters and
//! aggregate rows, the clause-code listing order, and the diagnostics over
//! stored date spellings.

use vstd::prelude::*;

use crate::dates::format_label;
use crate::records::Announcement;
use crate::records::ClauseCode;
use crate::text::digits_val;
use crate::text::from_chars;
use crate::text::parse_digits;
use crate::text::parses_as_number;
use crate::text::to_chars;

verus! {

/// The parameters of a paged viewer query.
pub struct QueryParams {
    pub company: Option<String>,
    pub date: Option<String>,
    pub search: Option<String>,
    pub page: Option<u64>,
    pub limit: Option<u64>,
}

impl Default for QueryParams {
    /// The default page: the first, twenty records, no filters.
    fn default() -> (r: QueryParams)
        ensures
            r.company is None,
            r.date is None,
            r.search is None,
            r.page == Some(1u64),
            r.limit == Some(20u64),
    {
        QueryParams { company: None, date: None, search: None, page: Some(1), limit: Some(20) }
    }
}

/// One company of the listing's company picker, with its record count.
pub struct CompanyInfo {
    pub code: String,
    pub name: String,
    pub count: i64,
}

/// One row of the per-company aggregate.
pub struct CompanyStats {
    pub company_code: String,
    pub company_name: String,
    pub count: i64,
}

/// One row of the per-date aggregate.
pub struct DateStats {
    pub date: String,
    pub count: i64,
}

// ---------------------------------------------------------------------------
// Clause-code listing order
// ---------------------------------------------------------------------------
/// The numeric listing key of a clause code: its parsed value, or 999
/// where the code does not parse.
pub open spec fn clause_sort_key(c: ClauseCode) -> nat {
    if parses_as_number(c.code@) {
        digits_val(c.code@)
    } else {
        999
    }
}

/// Non-decreasing listing keys.
pub open spec fn sorted_by_clause_key(s: Seq<ClauseCode>) -> bool {
    forall|i: int, j: int|
        0 <= i < j < s.len() ==> clause_sort_key(#[trigger] s[i]) <= clause_sort_key(
            #[trigger] s[j],
        )
}

fn clause_key(c: &ClauseCode) -> (r: u32)
    ensures
        r == clause_sort_key(*c),
{
    let v = to_chars(c.code.as_str());
    match parse_digits(&v) {
        Some(n) => n,
        None => 999,
    }
}

/// Orders clause codes by their numeric value for listing, unparseable
/// codes last among the 999 keys; the result is a permutation of the
/// input sorted by [`clause_sort_key`].
pub fn sort_clause_codes(codes: &Vec<ClauseCode>) -> (r: Vec<ClauseCode>)
    ensures
        sorted_by_clause_key(r@),
        r@.to_multiset() == codes@.to_multiset(),
{
    broadcast use vstd::seq_lib::to_multiset_insert;
    broadcast use vstd::seq_lib::to_multiset_build;

    let mut r: Vec<ClauseCode> = Vec::new();
    let mut i: usize = 0;
    proof {
        assert(codes@.take(0) =~= Seq::<ClauseCode>::empty());
        assert(r@.to_multiset() =~= codes@.take(0).to_multiset());
    }
    while i < codes.len()
        invariant
            i <= codes.len(),
            sorted_by_clause_key(r@),
            r@.to_multiset() == codes@.take(i as int).to_multiset(),
        decreases codes.len() - i,
    {
        let x = codes[i].duplicate();
        let kx = clause_key(&x);
        let mut pos: usize = 0;
        while pos < r.len() && clause_key(&r[pos]) <= kx
            invariant
                pos <= r@.len(),
                forall|j: int| 0 <= j < pos ==> clause_sort_key(#[trigger] r@[j]) <= kx,
            decreases r.len() - pos,
        {
            pos = pos + 1;
        }
        proof {
            assert(codes@.take(i as int + 1).drop_last() =~= codes@.take(i as int));
            assert(codes@.take(i as int + 1) =~= codes@.take(i as int).push(codes@[i as int]));
        }
        let ghost old_r = r@;
        r.insert(pos, x);
        proof {
            assert(r@ == old_r.insert(pos as int, x));
            vstd::seq_lib::to_multiset_insert(old_r, pos as int, x);
            vstd::seq_lib::to_multiset_build(codes@.take(i as int), codes@[i as int]);
            assert(r@.to_multiset() =~= codes@.take(i as int + 1).to_multiset());
            assert forall|a: int, b: int| 0 <= a < b < r@.len() implies clause_sort_key(
                #[trigger] r@[a],
            ) <= clause_sort_key(#[trigger] r@[b]) by {
                assert(r@ == old_r.insert(pos as int, x));
                if a < pos {
                    assert(r@[a] == old_r[a]);
                } else if a == pos {
                    assert(r@[a] == x);
                } else {
                    assert(r@[a] == old_r[a - 1]);
                }
                if b < pos {
                    assert(r@[b] == old_r[b]);
                } else if b == pos {
                    assert(r@[b] == x);
                } else {
                    assert(r@[b] == old_r[b - 1]);
                }
            }
        }
        i = i + 1;
    }
    assert(codes@.take(codes@.len() as int) =~= codes@);
    r
}

// ---------------------------------------------------------------------------
// Date-format diagnostics
// ---------------------------------------------------------------------------
/// The index of the first entry with the given key, or -1.
pub open spec fn stat_key_from(st: Seq<(Seq<char>, nat)>, key: Seq<char>, i: int) -> int
    recommends
        0 <= i,
    decreases st.len() - i,
{
    if i < 0 || i >= st.len() {
        -1
    } else if st[i].0 == key {
        i
    } else {
        stat_key_from(st, key, i + 1)
    }
}

/// One observation of a key: its first entry is incremented, or a fresh
/// entry with count one is appended.
pub open spec fn bump(st: Seq<(Seq<char>, nat)>, key: Seq<char>) -> Seq<(Seq<char>, nat)> {
    let j = stat_key_from(st, key, 0);
    if j >= 0 {
        st.update(j, (key, (st[j].1 + 1) as nat))
    } else {
        st.push((key, 1nat))
    }
}

/// The observations one announcement contributes: the spelling of its
/// `query_date` where present, of its `date`, and of its `fact_date`
/// where present, each under a key naming the field and the spelling.
pub open spec fn record_stats(
    st: Seq<(Seq<char>, nat)>,
    a: crate::records::AnnouncementView,
) -> Seq<(Seq<char>, nat)> {
    let st1 = match a.query_date {
        Some(q) => bump(st, "query_date_"@ + format_label(q)),
        None => st,
    };
    let st2 = bump(st1, "date_"@ + format_label(a.date));
    match a.fact_date {
        Some(f) => bump(st2, "fact_date_"@ + format_label(f)),
        None => st2,
    }
}

/// The date-format distribution of a sample of records.
pub open spec fn stats_fold(rs: Seq<crate::records::AnnouncementView>) -> Seq<(Seq<char>, nat)>
    decreases rs.len(),
{
    if rs.len() == 0 {
        Seq::empty()
    } else {
        record_stats(stats_fold(rs.drop_last()), rs.last())
    }
}

/// The view of the counter entries.
pub open spec fn stat_views(st: Seq<(String, u64)>) -> Seq<(Seq<char>, nat)> {
    st.map_values(|e: (String, u64)| (e.0@, e.1 as nat))
}

fn bump_exec(st: &mut Vec<(String, u64)>, key: String, bound: Ghost<nat>)
    requires
        forall|j: int| 0 <= j < old(st)@.len() ==> (#[trigger] old(st)@[j].1) <= bound@,
        bound@ < u64::MAX,
    ensures
        stat_views(final(st)@) == bump(stat_views(old(st)@), key@),
        forall|j: int| 0 <= j < final(st)@.len() ==> (#[trigger] final(st)@[j].1) <= bound@ + 1,
{
    let ghost sv = stat_views(st@);
    let mut j: usize = 0;
    while j < st.len()
        invariant
            j <= st@.len(),
            st@ == old(st)@,
            sv == stat_views(st@),
            bound@ < u64::MAX,
            forall|x: int| 0 <= x < old(st)@.len() ==> (#[trigger] old(st)@[x].1) <= bound@,
            forall|x: int| 0 <= x < j ==> sv[x].0 != key@,
        decreases st.len() - j,
    {
        assert(sv[j as int] == (st@[j as int].0@, st@[j as int].1 as nat));
        if crate::text::str_eq(st[j].0.as_str(), key.as_str()) {
            proof {
                lemma_stat_key_found(sv, key@, 0, j as int);
                assert(old(st)@[j as int].1 <= bound@);
            }
            let c = st[j].1;
            let name = st[j].0.clone();
            set_pair(st, j, (name, c + 1));
            proof {
                assert(stat_views(st@) =~= bump(sv, key@));
                assert forall|x: int| 0 <= x < st@.len() implies (#[trigger] st@[x].1) <= bound@
                    + 1 by {
                    if x != j {
                        assert(st@[x] == old(st)@[x]);
                    }
                }
            }
            return ;
        }
        j = j + 1;
    }
    proof {
        lemma_stat_key_missing(sv, key@, 0);
    }
    st.push((key, 1));
    proof {
        assert(stat_views(st@) =~= bump(sv, key@));
        assert forall|x: int| 0 <= x < st@.len() implies (#[trigger] st@[x].1) <= bound@ + 1 by {
            if x < st@.len() - 1 {
                assert(st@[x] == old(st)@[x]);
            }
        }
    }
}

fn set_pair(v: &mut Vec<(String, u64)>, i: usize, x: (String, u64))
    requires
        i < old(v)@.len(),
    ensures
        final(v)@ == old(v)@.update(i as int, x),
{
    v.remove(i);
    v.insert(i, x);
    assert(final(v)@ =~= old(v)@.update(i as int, x));
}

proof fn lemma_stat_key_found(st: Seq<(Seq<char>, nat)>, key: Seq<char>, i: int, k: int)
    requires
        0 <= i <= k < st.len(),
        forall|x: int| i <= x < k ==> st[x].0 != key,
        st[k].0 == key,
    ensures
        stat_key_from(st, key, i) == k,
    decreases k - i,
{
    if i < k {
        lemma_stat_key_found(st, key, i + 1, k);
    }
}

proof fn lemma_stat_key_missing(st: Seq<(Seq<char>, nat)>, key: Seq<char>, i: int)
    requires
        0 <= i,
        forall|x: int| i <= x < st.len() ==> st[x].0 != key,
    ensures
        stat_key_from(st, key, i) == -1,
    decreases st.len() - i,
{
    if i < st.len() {
        lemma_stat_key_missing(st, key, i + 1);
    }
}

/// Tallies the spelling of each date field over a sample of records, as
/// key/count pairs in first-seen order; keys name the field and the
/// spelling. The sample must be small enough for the counters.
pub fn date_format_stats(records: &Vec<Announcement>) -> (r: Vec<(String, u64)>)
    requires
        records@.len() < 0x1000_0000_0000_0000,
    ensures
        stat_views(r@) == stats_fold(crate::records::views(records@)),
{
    let ghost all = crate::records::views(records@);
    let mut st: Vec<(String, u64)> = Vec::new();
    let mut i: usize = 0;
    proof {
        assert(all.take(0) =~= Seq::<crate::records::AnnouncementView>::empty());
        assert(stat_views(st@) =~= stats_fold(all.take(0)));
    }
    while i < records.len()
        invariant
            i <= records.len(),
            all == crate::records::views(records@),
            stat_views(st@) == stats_fold(all.take(i as int)),
            forall|j: int| 0 <= j < st@.len() ==> (#[trigger] st@[j].1) <= 3 * i,
            records@.len() < 0x1000_0000_0000_0000,
        decreases records.len() - i,
    {
        proof {
            assert(all.take(i as int + 1).drop_last() =~= all.take(i as int));
            assert(all.take(i as int + 1).last() == records@[i as int]@);
        }
        let a = &records[i];
        match &a.query_date {
            Some(q) => {
                let mut key = String::from_str("query_date_");
                key.append(crate::dates::detect_date_format(q.as_str()).as_str());
                bump_exec(&mut st, key, Ghost(3 * i as nat));
            },
            None => {},
        }
        let mut key2 = String::from_str("date_");
        key2.append(crate::dates::detect_date_format(a.date.as_str()).as_str());
        bump_exec(&mut st, key2, Ghost(3 * i as nat + 1));
        match &a.fact_date {
            Some(f) => {
                let mut key3 = String::from_str("fact_date_");
                key3.append(crate::dates::detect_date_format(f.as_str()).as_str());
                bump_exec(&mut st, key3, Ghost(3 * i as nat + 2));
            },
            None => {},
        }
        proof {
            assert(stat_views(st@) == stats_fold(all.take(i as int + 1)));
        }
        i = i + 1;
    }
    assert(all.take(records@.len() as int) =~= all);
    st
}

/// A title cut to its first fifty characters, with a trailing ellipsis,
/// for compact diagnostics.
pub fn title_preview(title: &str) -> (r: String)
    ensures
        r@ == title@.take(if title@.len() < 50 {
            title@.len() as int
        } else {
            50
        }) + "..."@,
{
    let v = to_chars(title);
    let n = if v.len() < 50 {
        v.len()
    } else {
        50
    };
    let mut out: Vec<char> = Vec::new();
    let mut i: usize = 0;
    while i < n
        invariant
            i <= n <= v@.len(),
            out@ =~= v@.take(n as int).take(i as int),
        decreases n - i,
    {
        proof {
            assert(v@.take(n as int)[i as int] == v@[i as int]);
        }
        out.push(v[i]);
        i = i + 1;
    }
    assert(v@.take(n as int).take(n as int) =~= v@.take(n as int));
    let mut s = from_chars(&out);
    s.append("...");
    s
}

} // verus!
