//! A fallback parser for the plain-text rendering of the announcement
//! listing: one announcement per line, in the shape
//! `date time company-name title company-code`.

use vstd::prelude::*;

use crate::records::Announcement;
use crate::records::AnnouncementView;
use crate::records::views;
use crate::text::contains_chars;
use crate::text::contains_seq;
use crate::text::copy_chars;
use crate::text::find_char;
use crate::text::find_sub;
use crate::text::first_sub_from;
use crate::text::from_chars;
use crate::text::index_of_from;
use crate::text::join_words;
use crate::text::joined;
use crate::text::lines_chars;
use crate::text::lines_spec;
use crate::text::split_whitespace_chars;
use crate::text::to_chars;
use crate::text::trim_chars;
use crate::text::trim_front;
use crate::text::trim_front_chars;
use crate::text::trim_spec;
use crate::text::views_of;
use crate::text::words_of;

verus! {

/// The index of the last space character before `i`, or -1; what
/// `str::rfind(' ')` yields over the whole string.
pub open spec fn last_space_before(s: Seq<char>, i: int) -> int
    decreases i,
{
    if i <= 0 {
        -1
    } else if s[i - 1] == ' ' {
        i - 1
    } else {
        last_space_before(s, i - 1)
    }
}

fn rfind_space(v: &Vec<char>) -> (r: Option<usize>)
    ensures
        match r {
            Some(i) => last_space_before(v@, v@.len() as int) == i && i < v@.len(),
            None => last_space_before(v@, v@.len() as int) == -1,
        },
{
    let mut b: usize = v.len();
    while b > 0
        invariant
            b <= v.len(),
            last_space_before(v@, v@.len() as int) == last_space_before(v@, b as int),
        decreases b,
    {
        if v[b - 1] == ' ' {
            return Some(b - 1);
        }
        b = b - 1;
    }
    None
}

/// The company name and title recovered from the middle of a line: the
/// text splits at the first announcement marker where one stands past the
/// start; otherwise the first whitespace word is the name and the rest,
/// re-joined with single spaces, the title.
pub open spec fn name_title_of(content: Seq<char>) -> (Seq<char>, Seq<char>) {
    let p = first_sub_from(content, "公告"@, 0);
    if p > 0 {
        (
            trim_spec(content.subrange(0, p)),
            trim_spec(content.subrange(p, content.len() as int)),
        )
    } else {
        let ws = words_of(content);
        if ws.len() > 0 {
            (ws[0], joined(ws.drop_first()))
        } else {
            (Seq::empty(), Seq::empty())
        }
    }
}

/// The announcement a plain-text line yields, if any: the text before the
/// first space is the date, the next word the time, the text after the
/// last space the company code, and the middle splits into company name
/// and title. A line without those three separators yields nothing.
pub open spec fn parsed_line(line: Seq<char>) -> Option<AnnouncementView> {
    let ds = index_of_from(line, ' ', 0);
    if ds < 0 {
        None
    } else {
        let date = line.subrange(0, ds);
        let rest1 = trim_front(line.subrange(ds, line.len() as int));
        let ts = index_of_from(rest1, ' ', 0);
        if ts < 0 {
            None
        } else {
            let time = rest1.subrange(0, ts);
            let rest2 = trim_front(rest1.subrange(ts, rest1.len() as int));
            let ls = last_space_before(rest2, rest2.len() as int);
            if ls < 0 {
                None
            } else {
                let code = trim_spec(rest2.subrange(ls, rest2.len() as int));
                let content = trim_spec(rest2.subrange(0, ls));
                let nt = name_title_of(content);
                Some(
                    AnnouncementView {
                        company_code: code,
                        company_name: nt.0,
                        title: nt.1,
                        date: date,
                        time: time,
                        detail_content: None,
                        announcement_type: None,
                        fact_date: None,
                        fact_occurrence_date: None,
                        clause_code: None,
                        raw_html: None,
                        query_date: None,
                    },
                )
            }
        }
    }
}

/// Parses one plain-text listing line into an announcement, or nothing
/// where the line does not carry the date/time/code separators.
pub fn parse_announcement_line(line: &str) -> (r: Option<Announcement>)
    ensures
        match r {
            Some(a) => parsed_line(line@) == Some(a@),
            None => parsed_line(line@) is None,
        },
{
    let v = to_chars(line);
    let ds = match find_char(&v, ' ') {
        Some(i) => i,
        None => {
            return None;
        },
    };
    let mut date: Vec<char> = Vec::new();
    let mut i: usize = 0;
    while i < ds
        invariant
            i <= ds < v@.len(),
            date@ =~= v@.subrange(0, i as int),
        decreases ds - i,
    {
        date.push(v[i]);
        i = i + 1;
    }
    let mut tail1: Vec<char> = Vec::new();
    let mut j: usize = ds;
    while j < v.len()
        invariant
            ds <= j <= v@.len(),
            tail1@ =~= v@.subrange(ds as int, j as int),
        decreases v.len() - j,
    {
        tail1.push(v[j]);
        j = j + 1;
    }
    assert(v@.subrange(ds as int, v@.len() as int) =~= tail1@);
    let rest1 = trim_front_chars(&tail1);
    let ts = match find_char(&rest1, ' ') {
        Some(i) => i,
        None => {
            return None;
        },
    };
    let mut time: Vec<char> = Vec::new();
    let mut k: usize = 0;
    while k < ts
        invariant
            k <= ts < rest1@.len(),
            time@ =~= rest1@.subrange(0, k as int),
        decreases ts - k,
    {
        time.push(rest1[k]);
        k = k + 1;
    }
    let mut tail2: Vec<char> = Vec::new();
    let mut m: usize = ts;
    while m < rest1.len()
        invariant
            ts <= m <= rest1@.len(),
            tail2@ =~= rest1@.subrange(ts as int, m as int),
        decreases rest1.len() - m,
    {
        tail2.push(rest1[m]);
        m = m + 1;
    }
    assert(rest1@.subrange(ts as int, rest1@.len() as int) =~= tail2@);
    let rest2 = trim_front_chars(&tail2);
    let ls = match rfind_space(&rest2) {
        Some(i) => i,
        None => {
            return None;
        },
    };
    let mut code_part: Vec<char> = Vec::new();
    let mut p: usize = ls;
    while p < rest2.len()
        invariant
            ls <= p <= rest2@.len(),
            code_part@ =~= rest2@.subrange(ls as int, p as int),
        decreases rest2.len() - p,
    {
        code_part.push(rest2[p]);
        p = p + 1;
    }
    assert(rest2@.subrange(ls as int, rest2@.len() as int) =~= code_part@);
    let mut content_part: Vec<char> = Vec::new();
    let mut q: usize = 0;
    while q < ls
        invariant
            q <= ls < rest2@.len(),
            content_part@ =~= rest2@.subrange(0, q as int),
        decreases ls - q,
    {
        content_part.push(rest2[q]);
        q = q + 1;
    }
    let code = trim_chars(&code_part);
    let content = trim_chars(&content_part);
    let marker = to_chars("公告");
    let (name, title): (Vec<char>, Vec<char>) = match find_sub(&content, &marker) {
        Some(pos) if pos > 0 => {
            let mut head: Vec<char> = Vec::new();
            let mut x: usize = 0;
            while x < pos
                invariant
                    x <= pos,
                    pos + marker@.len() <= content@.len(),
                    head@ =~= content@.subrange(0, x as int),
                decreases pos - x,
            {
                head.push(content[x]);
                x = x + 1;
            }
            let mut tail: Vec<char> = Vec::new();
            let mut y: usize = pos;
            while y < content.len()
                invariant
                    pos <= y <= content@.len(),
                    tail@ =~= content@.subrange(pos as int, y as int),
                decreases content.len() - y,
            {
                tail.push(content[y]);
                y = y + 1;
            }
            assert(content@.subrange(pos as int, content@.len() as int) =~= tail@);
            (trim_chars(&head), trim_chars(&tail))
        },
        _ => {
            let ws = split_whitespace_chars(&content);
            if ws.len() > 0 {
                let name = copy_chars(&ws[0]);
                let mut rest_words: Vec<Vec<char>> = Vec::new();
                let mut z: usize = 1;
                while z < ws.len()
                    invariant
                        1 <= z <= ws@.len(),
                        views_of(rest_words@) =~= views_of(ws@).drop_first().take(z - 1),
                    decreases ws.len() - z,
                {
                    proof {
                        assert(views_of(rest_words@.push(ws@[z as int])) =~= views_of(
                            rest_words@,
                        ).push(ws@[z as int]@));
                        assert(views_of(ws@).drop_first().take(z as int) =~= views_of(
                            ws@,
                        ).drop_first().take(z - 1).push(views_of(ws@)[z as int]));
                    }
                    let w = copy_chars(&ws[z]);
                    rest_words.push(w);
                    z = z + 1;
                }
                assert(views_of(ws@).drop_first().take(ws@.len() - 1) =~= views_of(
                    ws@,
                ).drop_first());
                let title = join_words(&rest_words);
                assert(views_of(ws@)[0] == ws@[0]@);
                (name, title)
            } else {
                (Vec::new(), Vec::new())
            }
        },
    };
    let a = Announcement {
        company_code: from_chars(&code),
        company_name: from_chars(&name),
        title: from_chars(&title),
        date: from_chars(&date),
        time: from_chars(&time),
        detail_content: None,
        announcement_type: None,
        fact_date: None,
        fact_occurrence_date: None,
        clause_code: None,
        raw_html: None,
        query_date: None,
    };
    assert(parsed_line(line@) == Some(a@)) by {
        assert(v@.subrange(0, ds as int) =~= date@);
    }
    Some(a)
}

// ---------------------------------------------------------------------------
// The text-content walk
// ---------------------------------------------------------------------------
/// Whether a trimmed line is skipped as blank, header or separator text.
pub open spec fn is_header_line(t: Seq<char>) -> bool {
    t.len() == 0 || contains_seq(t, "公司當日重大訊息之詳細內容"@) || contains_seq(
        t,
        "代號"@,
    ) || contains_seq(t, "----"@)
}

/// One step of the text walk: a header or separator line is skipped, with
/// a separator marking the start of the data section; lines before the
/// data section are skipped; a data line contributes its parsed
/// announcement, if it has one.
pub open spec fn text_step(
    started: bool,
    acc: Seq<AnnouncementView>,
    line: Seq<char>,
) -> (bool, Seq<AnnouncementView>) {
    let t = trim_spec(line);
    if is_header_line(t) {
        (started || contains_seq(t, "----"@), acc)
    } else if !started {
        (started, acc)
    } else {
        match parsed_line(t) {
            Some(a) => (started, acc.push(a)),
            None => (started, acc),
        }
    }
}

/// The walk over all lines, in order.
pub open spec fn text_fold(ls: Seq<Seq<char>>) -> (bool, Seq<AnnouncementView>)
    decreases ls.len(),
{
    if ls.len() == 0 {
        (false, Seq::empty())
    } else {
        let prev = text_fold(ls.drop_last());
        text_step(prev.0, prev.1, ls.last())
    }
}

/// Parses the plain-text rendering of the listing: skips the header
/// section up to the first separator line, then parses each remaining
/// non-header line.
pub fn parse_text_content(content: &str) -> (r: Vec<Announcement>)
    ensures
        views(r@) == text_fold(lines_spec(content@)).1,
{
    let v = to_chars(content);
    let lines = lines_chars(&v);
    let ghost ls = views_of(lines@);
    let mut started = false;
    let mut out: Vec<Announcement> = Vec::new();
    let mut i: usize = 0;
    while i < lines.len()
        invariant
            i <= lines.len(),
            ls == views_of(lines@),
            ls == lines_spec(content@),
            text_fold(ls.take(i as int)) == (started, views(out@)),
        decreases lines.len() - i,
    {
        proof {
            assert(ls.take(i as int + 1).drop_last() =~= ls.take(i as int));
            assert(ls.take(i as int + 1).last() == lines@[i as int]@);
        }
        let t = trim_chars(&lines[i]);
        let p1 = to_chars("公司當日重大訊息之詳細內容");
        let p2 = to_chars("代號");
        let p3 = to_chars("----");
        let has_sep = contains_chars(&t, &p3);
        if t.len() == 0 || contains_chars(&t, &p1) || contains_chars(&t, &p2) || has_sep {
            if has_sep {
                started = true;
            }
        } else if started {
            match parse_announcement_line(from_chars(&t).as_str()) {
                Some(a) => {
                    proof {
                        assert(views(out@.push(a)) =~= views(out@).push(a@));
                    }
                    out.push(a);
                },
                None => {},
            }
        }
        proof {
            assert(text_fold(ls.take(i as int + 1)) == (started, views(out@)));
        }
        i = i + 1;
    }
    assert(ls.take(lines@.len() as int) =~= ls);
    out
}

} // verus!
