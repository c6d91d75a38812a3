//! Multi-column layout normalization.
//!
//! Two-column renderings share a vertical whitespace gutter: on many lines, a
//! run of at least four spaces (past the fortieth character) ends at the same
//! column. `detect_column_cutoff` finds the most common such column over the
//! non-blank lines (smallest column first on ties, so the result is
//! deterministic) and reports it only when at least fifteen percent of the
//! non-blank lines show it; `keep_left_column` then truncates every line at
//! that column, keeping the first column of text.

use vstd::prelude::*;

use crate::text::{
    chars_to_string, line_chars, trim, trim_back, trim_back_chars, trim_chars,
};

verus! {

/// A gutter ends at column `p` of the line: the character there is not a
/// space and the four characters before it are spaces, all past the fortieth
/// column.
pub open spec fn is_gutter_hit(l: Seq<char>, p: int) -> bool {
    44 <= p < l.len() && l[p] != ' ' && l[p - 1] == ' ' && l[p - 2] == ' ' && l[p - 3] == ' '
        && l[p - 4] == ' '
}

/// The number of non-blank lines with a gutter hit at column `p`.
pub open spec fn hit_count(d: Seq<Seq<char>>, p: int) -> int
    decreases d.len(),
{
    if d.len() == 0 {
        0
    } else {
        hit_count(d.drop_last(), p) + if trim(d.last()).len() > 0 && is_gutter_hit(d.last(), p) {
            1int
        } else {
            0int
        }
    }
}

/// The number of non-blank lines.
pub open spec fn nonblank_count(d: Seq<Seq<char>>) -> int
    decreases d.len(),
{
    if d.len() == 0 {
        0
    } else {
        nonblank_count(d.drop_last()) + if trim(d.last()).len() > 0 {
            1int
        } else {
            0int
        }
    }
}

/// The length of the longest line.
pub open spec fn max_line_len(d: Seq<Seq<char>>) -> int
    decreases d.len(),
{
    if d.len() == 0 {
        0
    } else if d.last().len() > max_line_len(d.drop_last()) {
        d.last().len() as int
    } else {
        max_line_len(d.drop_last())
    }
}

/// The column with the most gutter hits among the first `p` columns, smallest
/// column first on ties, together with its count.
pub open spec fn best_cutoff(d: Seq<Seq<char>>, p: int) -> (int, int)
    decreases p
        when p >= 0
{
    if p <= 0 {
        (0, 0)
    } else {
        let prev = best_cutoff(d, p - 1);
        let c = hit_count(d, p - 1);
        if c > prev.1 {
            (p - 1, c)
        } else {
            prev
        }
    }
}

/// The detected cutoff column: the most frequent gutter column, or nothing
/// when no line shows a gutter or fewer than fifteen percent of the non-blank
/// lines share the best one.
pub open spec fn spec_detect_cutoff(d: Seq<Seq<char>>) -> Option<int> {
    let best = best_cutoff(d, max_line_len(d));
    if best.1 == 0 {
        None
    } else if 20 * best.1 < 3 * nonblank_count(d) {
        None
    } else {
        Some(best.0)
    }
}

/// Counts the non-blank lines with a gutter hit at column `p`.
fn hit_count_exec(cs: &Vec<Vec<char>>, p: usize) -> (r: usize)
    ensures
        r == hit_count(cs.deep_view(), p as int),
        r <= cs@.len(),
{
    let ghost d = cs.deep_view();
    let n = cs.len();
    proof {
        assert(d.len() == cs@.len());
    }
    let mut count: usize = 0;
    let mut i: usize = 0;
    while i < n
        invariant
            0 <= i <= n,
            n == d.len(),
            d == cs.deep_view(),
            n == cs@.len(),
            forall|j: int| 0 <= j < d.len() ==> #[trigger] d[j] == cs@[j]@,
            count == hit_count(d.subrange(0, i as int), p as int),
            count <= i,
        decreases n - i,
    {
        let line = &cs[i];
        let len = line.len();
        let hit = if len > 44 && p >= 44 && p < len {
            line[p] != ' ' && line[p - 1] == ' ' && line[p - 2] == ' ' && line[p - 3] == ' '
                && line[p - 4] == ' '
        } else {
            false
        };
        proof {
            assert(hit == is_gutter_hit(d[i as int], p as int));
        }
        if hit {
            let t = trim_chars(line);
            if t.len() > 0 {
                count += 1;
            }
        }
        proof {
            let pre = d.subrange(0, i + 1 as int);
            assert(pre.drop_last() =~= d.subrange(0, i as int));
            assert(pre.last() == d[i as int]);
        }
        i += 1;
    }
    proof {
        assert(d.subrange(0, n as int) =~= d);
    }
    count
}

/// Detects the column at which a two-column layout's gutter ends, over the
/// document's non-blank lines. Returns the largest representable value when
/// the document reads as a single column: no gutter at all, or one too rare
/// to trust.
pub fn detect_column_cutoff(lines: &Vec<String>) -> (r: usize)
    ensures
        match spec_detect_cutoff(lines.deep_view()) {
            None => r == usize::MAX,
            Some(p) => r as int == p,
        },
{
    let ghost d = lines.deep_view();
    let n = lines.len();
    proof {
        assert(d.len() == lines@.len());
    }
    // Materialize the lines once.
    let mut cs: Vec<Vec<char>> = Vec::new();
    let mut i: usize = 0;
    proof {
        assert(cs.deep_view() =~= d.subrange(0, 0));
    }
    while i < n
        invariant
            0 <= i <= n,
            n == d.len(),
            d == lines.deep_view(),
            n == lines@.len(),
            cs.deep_view() == d.subrange(0, i as int),
            cs@.len() == i,
        decreases n - i,
    {
        let lc = line_chars(lines, i);
        let ghost before = cs.deep_view();
        cs.push(lc);
        proof {
            assert(cs.deep_view() =~~= before.push(d[i as int]));
            assert(before.push(d[i as int]) =~= d.subrange(0, i + 1 as int));
        }
        i += 1;
    }
    proof {
        assert(cs.deep_view() =~= d);
    }
    // The longest line bounds the columns worth scanning.
    let mut maxlen: usize = 0;
    let mut k: usize = 0;
    while k < n
        invariant
            0 <= k <= n,
            n == d.len(),
            cs.deep_view() == d,
            cs@.len() == n,
            maxlen == max_line_len(d.subrange(0, k as int)),
        decreases n - k,
    {
        let len = cs[k].len();
        proof {
            let pre = d.subrange(0, k + 1 as int);
            assert(pre.drop_last() =~= d.subrange(0, k as int));
            assert(pre.last() == d[k as int]);
            assert(cs.deep_view()[k as int] == cs@[k as int]@);
        }
        if len > maxlen {
            maxlen = len;
        }
        k += 1;
    }
    proof {
        assert(d.subrange(0, n as int) =~= d);
    }
    // Count the non-blank lines.
    let mut total: usize = 0;
    let mut k2: usize = 0;
    while k2 < n
        invariant
            0 <= k2 <= n,
            n == d.len(),
            cs.deep_view() == d,
            cs@.len() == n,
            total == nonblank_count(d.subrange(0, k2 as int)),
            total <= k2,
        decreases n - k2,
    {
        let t = trim_chars(&cs[k2]);
        proof {
            let pre = d.subrange(0, k2 + 1 as int);
            assert(pre.drop_last() =~= d.subrange(0, k2 as int));
            assert(pre.last() == d[k2 as int]);
            assert(cs.deep_view()[k2 as int] == cs@[k2 as int]@);
        }
        if t.len() > 0 {
            total += 1;
        }
        k2 += 1;
    }
    proof {
        assert(d.subrange(0, n as int) =~= d);
    }
    // Fold over the columns for the most frequent gutter.
    let mut best_p: usize = 0;
    let mut best_c: usize = 0;
    let mut p: usize = 0;
    while p < maxlen
        invariant
            0 <= p <= maxlen,
            n == d.len(),
            cs.deep_view() == d,
            cs@.len() == n,
            maxlen == max_line_len(d),
            (best_p as int, best_c as int) == best_cutoff(d, p as int),
        decreases maxlen - p,
    {
        let c = hit_count_exec(&cs, p);
        if c > best_c {
            best_p = p;
            best_c = c;
        }
        p += 1;
    }
    if best_c == 0 {
        return usize::MAX;
    }
    if 20 * (best_c as u128) < 3 * (total as u128) {
        return usize::MAX;
    }
    best_p
}

/// One line truncated at the cutoff column: trailing whitespace removed, the
/// line cut at the column, trailing whitespace removed again.
pub open spec fn spec_keep_left(l: Seq<char>, width: int) -> Seq<char> {
    let t = trim_back(l);
    let w = if width < t.len() {
        width
    } else {
        t.len() as int
    };
    trim_back(t.subrange(0, w))
}

/// Every line truncated at the cutoff column.
pub open spec fn spec_keep_left_column(d: Seq<Seq<char>>, width: int) -> Seq<Seq<char>> {
    Seq::new(d.len(), |i: int| spec_keep_left(d[i], width))
}

/// Truncates every line at the detected gutter column, keeping the first
/// column of text.
pub fn keep_left_column(lines: &Vec<String>, dynamic_width: usize) -> (r: Vec<String>)
    ensures
        r.deep_view() == spec_keep_left_column(lines.deep_view(), dynamic_width as int),
{
    let ghost d = lines.deep_view();
    let n = lines.len();
    proof {
        assert(d.len() == lines@.len());
    }
    let mut out: Vec<String> = Vec::new();
    let mut i: usize = 0;
    proof {
        assert(out.deep_view() =~= spec_keep_left_column(d, dynamic_width as int).subrange(0, 0));
    }
    while i < n
        invariant
            0 <= i <= n,
            n == d.len(),
            d == lines.deep_view(),
            n == lines@.len(),
            out.deep_view() == spec_keep_left_column(d, dynamic_width as int).subrange(
                0,
                i as int,
            ),
        decreases n - i,
    {
        let lc = line_chars(lines, i);
        let t = trim_back_chars(&lc);
        let w = if dynamic_width < t.len() {
            dynamic_width
        } else {
            t.len()
        };
        let cut = crate::text::copy_range(&t, 0, w);
        let fin = trim_back_chars(&cut);
        let ghost before = out.deep_view();
        out.push(chars_to_string(&fin));
        proof {
            assert(fin@ == spec_keep_left(d[i as int], dynamic_width as int));
            assert(out.deep_view() =~~= before.push(spec_keep_left(
                d[i as int],
                dynamic_width as int,
            )));
            assert(before.push(spec_keep_left(d[i as int], dynamic_width as int))
                =~= spec_keep_left_column(d, dynamic_width as int).subrange(0, i + 1 as int));
        }
        i += 1;
    }
    proof {
        assert(spec_keep_left_column(d, dynamic_width as int).subrange(
            0,
            d.len() as int,
        ) =~= spec_keep_left_column(d, dynamic_width as int));
    }
    out
}

} // verus!
