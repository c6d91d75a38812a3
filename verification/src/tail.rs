//! The tail stages: conclusion, discussion and bibliography.
//!
//! Conclusion and discussion share one shape: re-derive a starting line from
//! the body's end offset, look for the section's start heading from there,
//! then collect lines until its terminal heading or the end of the document.
//! Both run independently from the same bound, because a document may present
//! either section before the other or omit one. A section whose start heading
//! never occurs yields empty text and a zero offset. The bibliography is
//! everything after the first references heading, or a sentinel when there is
//! none.

use vstd::prelude::*;

use crate::rules::{
    conclusion_end_exec, conclusion_start_exec, discussion_end_exec, discussion_start_exec,
    biblio_header_exec, is_biblio_header, is_conclusion_end, is_conclusion_start,
    is_discussion_end, is_discussion_start,
};
use crate::scan::{first_match, first_reach, lemma_first_match, lemma_first_match_step,
    lemma_first_reach};
use crate::text::{
    chars_to_string, cum_len, cum_offset, join_chars, join_with, line_chars, str_chars, trim,
    trim_chars,
};

verus! {

/// The line from which a tail stage scans: the first line at which the
/// running offset reaches the body's end; the first line of the document when
/// no line does.
pub open spec fn spec_tail_start_line(d: Seq<Seq<char>>, bound: int) -> int {
    let s = first_reach(d, 0, bound, 1);
    if s == d.len() {
        0
    } else {
        s
    }
}

/// A tail section: from the first line matching `start_p` (at or after the
/// re-derived starting line) up to the first line after it matching `end_p`.
/// The text is the raw lines joined by newlines and trimmed; the offset is
/// the cumulative count, one separator per line, up to the section's end.
/// Empty text and a zero offset when no start heading occurs.
pub open spec fn spec_extract_section(
    d: Seq<Seq<char>>,
    bound: int,
    start_p: spec_fn(Seq<char>) -> bool,
    end_p: spec_fn(Seq<char>) -> bool,
) -> (Seq<char>, int) {
    let from = spec_tail_start_line(d, bound);
    let s = first_match(d, from, start_p);
    if s == d.len() {
        (Seq::empty(), 0)
    } else {
        let e = first_match(d, s + 1, end_p);
        (trim(join_with(d.subrange(s, e), seq!['\n'])), cum_len(d, e, 1))
    }
}

/// The conclusion's rule pair.
pub open spec fn conclusion_start_p() -> spec_fn(Seq<char>) -> bool {
    |l: Seq<char>| is_conclusion_start(l)
}

pub open spec fn conclusion_end_p() -> spec_fn(Seq<char>) -> bool {
    |l: Seq<char>| is_conclusion_end(l)
}

/// The discussion's rule pair.
pub open spec fn discussion_start_p() -> spec_fn(Seq<char>) -> bool {
    |l: Seq<char>| is_discussion_start(l)
}

pub open spec fn discussion_end_p() -> spec_fn(Seq<char>) -> bool {
    |l: Seq<char>| is_discussion_end(l)
}

/// The conclusion as a function of the document and the body's end offset.
pub open spec fn spec_extract_conclusion(d: Seq<Seq<char>>, bound: int) -> (Seq<char>, int) {
    spec_extract_section(d, bound, conclusion_start_p(), conclusion_end_p())
}

/// The discussion as a function of the document and the body's end offset.
pub open spec fn spec_extract_discussion(d: Seq<Seq<char>>, bound: int) -> (Seq<char>, int) {
    spec_extract_section(d, bound, discussion_start_p(), discussion_end_p())
}

/// A document without a start heading yields the empty section: this is how
/// a missing conclusion or discussion is reported to the pipeline.
pub proof fn lemma_section_missing(
    d: Seq<Seq<char>>,
    bound: int,
    start_p: spec_fn(Seq<char>) -> bool,
    end_p: spec_fn(Seq<char>) -> bool,
)
    requires
        forall|i: int| 0 <= i < d.len() ==> !#[trigger] start_p(d[i]),
    ensures
        spec_extract_section(d, bound, start_p, end_p) == (Seq::<char>::empty(), 0int),
{
    let from = spec_tail_start_line(d, bound);
    lemma_first_reach(d, 0, bound, 1);
    lemma_first_match(d, from, start_p);
    let s = first_match(d, from, start_p);
    if s < d.len() {
        assert(start_p(d[s]));
        assert(false);
    }
}

/// Re-derives the starting line for a tail stage from the body's end offset.
fn tail_start_line(lines: &Vec<String>, bound: u128) -> (r: usize)
    ensures
        r as int == spec_tail_start_line(lines.deep_view(), bound as int),
        r <= lines@.len(),
{
    let ghost d = lines.deep_view();
    let ghost gbound = bound as int;
    let n = lines.len();
    proof {
        assert(d.len() == lines@.len());
    }
    let mut acc: u128 = 0;
    let mut i: usize = 0;
    while i < n
        invariant_except_break
            acc == cum_len(d, i as int, 1),
            acc <= (i as int) * 0x1_0000_0000_0000_0001,
        invariant
            0 <= i <= n,
            n == d.len(),
            d == lines.deep_view(),
            n == lines@.len(),
            gbound == bound as int,
            first_reach(d, 0, gbound, 1) == first_reach(d, i as int, gbound, 1),
        ensures
            i as int == first_reach(d, 0, gbound, 1),
        decreases n - i,
    {
        let len = lines[i].as_str().unicode_len();
        proof {
            assert(lines.deep_view()[i as int] == lines@[i as int]@);
            assert(cum_len(d, i + 1 as int, 1) == cum_len(d, i as int, 1) + d[i as int].len() + 1);
            assert(len as int <= 0xffff_ffff_ffff_ffff);
            assert(acc + len + 1 <= (i as int + 1) * 0x1_0000_0000_0000_0001);
        }
        acc = acc + (len as u128) + 1;
        if acc >= bound {
            proof {
                assert(first_reach(d, i as int, gbound, 1) == i as int);
            }
            break;
        }
        proof {
            assert(cum_len(d, i + 1 as int, 1) < gbound);
        }
        i += 1;
    }
    if i == n {
        0
    } else {
        i
    }
}

/// Joins the raw lines of the range `[s, e)` by newlines and trims the ends.
fn join_range(lines: &Vec<String>, s: usize, e: usize) -> (r: String)
    requires
        s <= e <= lines@.len(),
    ensures
        r@ == trim(join_with(lines.deep_view().subrange(s as int, e as int), seq!['\n'])),
{
    let ghost d = lines.deep_view();
    let mut parts: Vec<Vec<char>> = Vec::new();
    let mut k: usize = s;
    proof {
        assert(d.len() == lines@.len());
        assert(parts.deep_view() =~= d.subrange(s as int, s as int));
    }
    while k < e
        invariant
            s <= k <= e <= lines@.len(),
            d == lines.deep_view(),
            d.len() == lines@.len(),
            parts.deep_view() == d.subrange(s as int, k as int),
        decreases e - k,
    {
        let lc = line_chars(lines, k);
        let ghost before = parts.deep_view();
        parts.push(lc);
        proof {
            assert(parts.deep_view() =~~= before.push(d[k as int]));
            assert(before.push(d[k as int]) =~= d.subrange(s as int, k + 1 as int));
        }
        k += 1;
    }
    let sep = str_chars("\n");
    proof {
        reveal_strlit("\n");
        assert("\n"@ =~= seq!['\n']);
    }
    let joined = join_chars(&parts, &sep);
    let trimmed = trim_chars(&joined);
    chars_to_string(&trimmed)
}

/// Extracts the conclusion from the region after the body: its text and the
/// cumulative offset of everything up to its end, or empty text and zero when
/// no conclusion heading occurs.
pub fn extract_conclusion(lines: &Vec<String>, body_char_end: u128) -> (r: (String, u128))
    ensures
        r.0@ == spec_extract_conclusion(lines.deep_view(), body_char_end as int).0,
        r.1 == spec_extract_conclusion(lines.deep_view(), body_char_end as int).1,
{
    let ghost d = lines.deep_view();
    let n = lines.len();
    proof {
        assert(d.len() == lines@.len());
    }
    let from = tail_start_line(lines, body_char_end);
    let ghost sp = conclusion_start_p();
    let mut s: usize = from;
    while s < n
        invariant
            from <= s <= n,
            n == d.len(),
            d == lines.deep_view(),
            n == lines@.len(),
            sp == conclusion_start_p(),
            first_match(d, from as int, sp) == first_match(d, s as int, sp),
        ensures
            s as int == first_match(d, from as int, sp),
        decreases n - s,
    {
        let lc = line_chars(lines, s);
        if conclusion_start_exec(&lc) {
            proof {
                assert(sp(d[s as int]));
                assert(first_match(d, s as int, sp) == s as int);
            }
            break;
        }
        proof {
            assert(!sp(d[s as int]));
            lemma_first_match_step(d, s as int, sp);
        }
        s += 1;
    }
    if s == n {
        let empty: Vec<char> = Vec::new();
        return (chars_to_string(&empty), 0);
    }
    let ghost ep = conclusion_end_p();
    let mut e: usize = s + 1;
    while e < n
        invariant
            s + 1 <= e <= n,
            n == d.len(),
            d == lines.deep_view(),
            n == lines@.len(),
            ep == conclusion_end_p(),
            first_match(d, s + 1 as int, ep) == first_match(d, e as int, ep),
        ensures
            e as int == first_match(d, s + 1 as int, ep),
        decreases n - e,
    {
        let lc = line_chars(lines, e);
        if conclusion_end_exec(&lc) {
            proof {
                assert(ep(d[e as int]));
                assert(first_match(d, e as int, ep) == e as int);
            }
            break;
        }
        proof {
            assert(!ep(d[e as int]));
            lemma_first_match_step(d, e as int, ep);
        }
        e += 1;
    }
    let text = join_range(lines, s, e);
    let offset = cum_offset(lines, e, true);
    (text, offset)
}

/// Extracts the discussion from the region after the body: its text and the
/// cumulative offset of everything up to its end, or empty text and zero when
/// no discussion heading occurs.
pub fn extract_discussion(lines: &Vec<String>, body_char_end: u128) -> (r: (String, u128))
    ensures
        r.0@ == spec_extract_discussion(lines.deep_view(), body_char_end as int).0,
        r.1 == spec_extract_discussion(lines.deep_view(), body_char_end as int).1,
{
    let ghost d = lines.deep_view();
    let n = lines.len();
    proof {
        assert(d.len() == lines@.len());
    }
    let from = tail_start_line(lines, body_char_end);
    let ghost sp = discussion_start_p();
    let mut s: usize = from;
    while s < n
        invariant
            from <= s <= n,
            n == d.len(),
            d == lines.deep_view(),
            n == lines@.len(),
            sp == discussion_start_p(),
            first_match(d, from as int, sp) == first_match(d, s as int, sp),
        ensures
            s as int == first_match(d, from as int, sp),
        decreases n - s,
    {
        let lc = line_chars(lines, s);
        if discussion_start_exec(&lc) {
            proof {
                assert(sp(d[s as int]));
                assert(first_match(d, s as int, sp) == s as int);
            }
            break;
        }
        proof {
            assert(!sp(d[s as int]));
            lemma_first_match_step(d, s as int, sp);
        }
        s += 1;
    }
    if s == n {
        let empty: Vec<char> = Vec::new();
        return (chars_to_string(&empty), 0);
    }
    let ghost ep = discussion_end_p();
    let mut e: usize = s + 1;
    while e < n
        invariant
            s + 1 <= e <= n,
            n == d.len(),
            d == lines.deep_view(),
            n == lines@.len(),
            ep == discussion_end_p(),
            first_match(d, s + 1 as int, ep) == first_match(d, e as int, ep),
        ensures
            e as int == first_match(d, s + 1 as int, ep),
        decreases n - e,
    {
        let lc = line_chars(lines, e);
        if discussion_end_exec(&lc) {
            proof {
                assert(ep(d[e as int]));
                assert(first_match(d, e as int, ep) == e as int);
            }
            break;
        }
        proof {
            assert(!ep(d[e as int]));
            lemma_first_match_step(d, e as int, ep);
        }
        e += 1;
    }
    let text = join_range(lines, s, e);
    let offset = cum_offset(lines, e, true);
    (text, offset)
}

/// The bibliography's sentinel, reported when no references heading occurs.
pub open spec fn biblio_sentinel() -> Seq<char> {
    "no bibliography found"@
}

/// The rule that opens the bibliography.
pub open spec fn biblio_p() -> spec_fn(Seq<char>) -> bool {
    |l: Seq<char>| is_biblio_header(l)
}

/// The bibliography: everything after the first references heading, joined by
/// newlines and trimmed; the sentinel when no heading occurs.
pub open spec fn spec_extract_bibliography(d: Seq<Seq<char>>) -> Seq<char> {
    let i = first_match(d, 0, biblio_p());
    if i == d.len() {
        biblio_sentinel()
    } else {
        trim(join_with(d.subrange(i + 1, d.len() as int), seq!['\n']))
    }
}

/// Extracts the bibliography: every line after the first references heading,
/// or the sentinel when the document has none.
pub fn extract_bibliography(lines: &Vec<String>) -> (r: String)
    ensures
        r@ == spec_extract_bibliography(lines.deep_view()),
{
    let ghost d = lines.deep_view();
    let ghost p = biblio_p();
    let n = lines.len();
    proof {
        assert(d.len() == lines@.len());
    }
    let mut i: usize = 0;
    while i < n
        invariant
            0 <= i <= n,
            n == d.len(),
            d == lines.deep_view(),
            n == lines@.len(),
            p == biblio_p(),
            first_match(d, 0, p) == first_match(d, i as int, p),
        ensures
            i as int == first_match(d, 0, p),
        decreases n - i,
    {
        let lc = line_chars(lines, i);
        if biblio_header_exec(&lc) {
            proof {
                assert(p(d[i as int]));
                assert(first_match(d, i as int, p) == i as int);
            }
            break;
        }
        proof {
            assert(!p(d[i as int]));
            lemma_first_match_step(d, i as int, p);
        }
        i += 1;
    }
    if i == n {
        let s = str_chars("no bibliography found");
        return chars_to_string(&s);
    }
    join_range(lines, i + 1, n)
}

} // verus!
