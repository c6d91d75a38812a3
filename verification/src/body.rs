//! The body stage.
//!
//! The body starts at the line where the running character count first
//! reaches the introduction's end offset, and runs to the first line whose
//! normalized form matches a terminal-section heading (discussion,
//! experiments, conclusion, future work, acknowledgments, references,
//! bibliography), or to the end of the document. The returned offset backs
//! off two lines before the terminal heading, a deliberate safety margin so
//! that the last body sentence is not clipped by the stages that follow; it
//! counts raw line lengths with no separator.

use vstd::prelude::*;

use crate::norm::{normalize_chars, normalize_spec};
use crate::rules::{is_terminal_line, terminal_line_exec};
use crate::scan::{
    first_match, first_reach, lemma_first_match, lemma_first_match_step, lemma_first_reach,
};
use crate::text::{
    chars_to_string, cum_len, cum_offset, join_chars, join_with, line_chars, str_chars, trim,
    trim_chars,
};

verus! {

/// The rule that ends the body: the normalized line opens a terminal section.
pub open spec fn body_terminal_p() -> spec_fn(Seq<char>) -> bool {
    |l: Seq<char>| is_terminal_line(normalize_spec(l))
}

/// The body's line range: from the line reaching the offset `bound` to the
/// first terminal line. When no line reaches the bound, the body runs over
/// the whole document unchecked.
pub open spec fn spec_body_bounds(d: Seq<Seq<char>>, bound: int) -> (int, int) {
    let s = first_reach(d, 0, bound, 1);
    if s == d.len() {
        (0, d.len() as int)
    } else {
        (s, first_match(d, s, body_terminal_p()))
    }
}

/// The body's text and end offset: the raw lines of the range joined by
/// newlines and trimmed, and the cumulative raw length of every line up to
/// two lines before the range's end.
pub open spec fn spec_extract_body(d: Seq<Seq<char>>, bound: int) -> (Seq<char>, int) {
    let bounds = spec_body_bounds(d, bound);
    (
        trim(join_with(d.subrange(bounds.0, bounds.1), seq!['\n'])),
        if bounds.1 >= 2 {
            cum_len(d, bounds.1 - 2, 0)
        } else {
            0
        },
    )
}

/// For a bound inside the document, no line of the body matches the terminal
/// rule that ends it.
pub proof fn lemma_body_excludes_terminal(d: Seq<Seq<char>>, bound: int)
    requires
        bound <= cum_len(d, d.len() as int, 1),
    ensures
        forall|j: int|
            spec_body_bounds(d, bound).0 <= j < spec_body_bounds(d, bound).1
                ==> !is_terminal_line(normalize_spec(#[trigger] d[j])),
{
    let s = first_reach(d, 0, bound, 1);
    lemma_first_reach(d, 0, bound, 1);
    if s == d.len() {
        if d.len() > 0 {
            assert(cum_len(d, (d.len() - 1) + 1, 1) < bound);
            assert(false);
        }
    } else {
        lemma_first_match(d, s, body_terminal_p());
        assert forall|j: int|
            spec_body_bounds(d, bound).0 <= j < spec_body_bounds(d, bound).1 implies !is_terminal_line(
            normalize_spec(#[trigger] d[j]),
        ) by {
            assert(!body_terminal_p()(d[j]));
        }
    }
}

/// Extracts the body: every line between the introduction's end offset and
/// the first terminal-section heading, joined by newlines, together with the
/// backed-off end offset for the stages that follow.
pub fn extract_body(lines: &Vec<String>, intro_char_end: u128) -> (r: (String, u128))
    ensures
        r.0@ == spec_extract_body(lines.deep_view(), intro_char_end as int).0,
        r.1 == spec_extract_body(lines.deep_view(), intro_char_end as int).1,
{
    let ghost d = lines.deep_view();
    let ghost bound = intro_char_end as int;
    let n = lines.len();
    proof {
        assert(d.len() == lines@.len());
    }
    // Find the start line: the first line at which the running offset meets
    // the bound.
    let mut acc: u128 = 0;
    let mut i: usize = 0;
    let mut start: usize = 0;
    let mut found = false;
    while i < n
        invariant
            0 <= i <= n,
            n == d.len(),
            d == lines.deep_view(),
            n == lines@.len(),
            bound == intro_char_end as int,
            !found ==> acc == cum_len(d, i as int, 1),
            !found ==> acc <= (i as int) * 0x1_0000_0000_0000_0001,
            !found ==> first_reach(d, 0, bound, 1) == first_reach(d, i as int, bound, 1),
            found ==> start < n && start as int == first_reach(d, 0, bound, 1),
        ensures
            found ==> start < n && start as int == first_reach(d, 0, bound, 1),
            !found ==> first_reach(d, 0, bound, 1) == d.len(),
        decreases n - i,
    {
        if found {
            break;
        }
        let len = lines[i].as_str().unicode_len();
        proof {
            assert(lines.deep_view()[i as int] == lines@[i as int]@);
            assert(cum_len(d, i + 1 as int, 1) == cum_len(d, i as int, 1) + d[i as int].len() + 1);
            assert(len as int <= 0xffff_ffff_ffff_ffff);
            assert(acc + len + 1 <= (i as int + 1) * 0x1_0000_0000_0000_0001);
        }
        acc = acc + (len as u128) + 1;
        if acc >= intro_char_end {
            start = i;
            found = true;
            proof {
                assert(cum_len(d, i + 1 as int, 1) >= bound);
                assert(first_reach(d, i as int, bound, 1) == i as int);
            }
        } else {
            proof {
                assert(cum_len(d, i + 1 as int, 1) < bound);
                assert(first_reach(d, i as int, bound, 1) == first_reach(d, i + 1 as int, bound, 1));
            }
        }
        i += 1;
    }
    let ghost gbounds = spec_body_bounds(d, bound);
    let scan_from: usize = if found {
        start
    } else {
        0
    };
    let mut e: usize = n;
    if found {
        // Find the first terminal line at or after the start.
        let ghost p = body_terminal_p();
        let mut j: usize = start;
        while j < n
            invariant
                start <= j <= n,
                n == d.len(),
                d == lines.deep_view(),
                n == lines@.len(),
                p == body_terminal_p(),
                first_match(d, start as int, p) == first_match(d, j as int, p),
            ensures
                j as int == first_match(d, start as int, p),
            decreases n - j,
        {
            let lc = line_chars(lines, j);
            let norm = normalize_chars(&lc);
            if terminal_line_exec(&norm) {
                proof {
                    assert(p(d[j as int]));
                    assert(first_match(d, j as int, p) == j as int);
                }
                break;
            }
            proof {
                assert(!p(d[j as int]));
                lemma_first_match_step(d, j as int, p);
            }
            j += 1;
        }
        e = j;
    }
    proof {
        assert(scan_from as int == gbounds.0);
        assert(e as int == gbounds.1);
    }
    // Collect the raw lines of the range.
    let mut parts: Vec<Vec<char>> = Vec::new();
    let mut k: usize = scan_from;
    proof {
        assert(parts.deep_view() =~= d.subrange(scan_from as int, scan_from as int));
    }
    while k < e
        invariant
            scan_from <= k <= e <= n,
            n == d.len(),
            d == lines.deep_view(),
            n == lines@.len(),
            parts.deep_view() == d.subrange(scan_from as int, k as int),
        decreases e - k,
    {
        let lc = line_chars(lines, k);
        let ghost before = parts.deep_view();
        parts.push(lc);
        proof {
            assert(parts.deep_view() =~~= before.push(d[k as int]));
            assert(before.push(d[k as int]) =~= d.subrange(scan_from as int, k + 1 as int));
        }
        k += 1;
    }
    let sep = str_chars("\n");
    proof {
        reveal_strlit("\n");
        assert("\n"@ =~= seq!['\n']);
    }
    let joined = join_chars(&parts, &sep);
    let trimmed = trim_chars(&joined);
    let text = chars_to_string(&trimmed);
    let back = if e >= 2 {
        e - 2
    } else {
        0
    };
    let char_end = cum_offset(lines, back, false);
    (text, char_end)
}

} // verus!
