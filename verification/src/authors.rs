//! The author stage.
//!
//! Authors and affiliations follow the title. The scan skips blank lines,
//! stops at an abstract or introduction marker, and, once at least one line
//! has been accepted, stops at the first line that reads as body prose. All
//! surviving lines are joined by single spaces: affiliation lines interleave
//! with names in real documents, so recall is preferred over precision.

use vstd::prelude::*;

use crate::rules::{authors_stop_exec, is_authors_stop, is_likely_prose, likely_prose_exec};
use crate::text::{chars_to_string, join_with, line_chars, push_all, trim, trim_chars};

verus! {

/// The trimmed lines the author scan accepts from position `i` on, given
/// whether a line has already been accepted.
pub open spec fn authors_scan(d: Seq<Seq<char>>, i: int, started: bool) -> Seq<Seq<char>>
    decreases d.len() - i
        when 0 <= i <= d.len()
{
    if i >= d.len() {
        Seq::empty()
    } else {
        let t = trim(d[i]);
        if t.len() == 0 {
            authors_scan(d, i + 1, started)
        } else if is_authors_stop(t) {
            Seq::empty()
        } else if is_likely_prose(t) && started {
            Seq::empty()
        } else {
            seq![t] + authors_scan(d, i + 1, true)
        }
    }
}

/// The author block: the accepted lines joined by single spaces.
pub open spec fn spec_extract_authors(d: Seq<Seq<char>>, start: int) -> Seq<char> {
    let s0 = if start > d.len() {
        d.len() as int
    } else if start < 0 {
        0
    } else {
        start
    };
    join_with(authors_scan(d, s0, false), seq![' '])
}

/// Collects the author block that follows the title, scanning from
/// `start_after_title`.
pub fn extract_authors(lines: &Vec<String>, start_after_title: usize) -> (r: String)
    ensures
        r@ == spec_extract_authors(lines.deep_view(), start_after_title as int),
{
    let ghost d = lines.deep_view();
    let n = lines.len();
    proof {
        assert(d.len() == lines@.len());
    }
    let mut i: usize = if start_after_title > n {
        n
    } else {
        start_after_title
    };
    let ghost s0 = i as int;
    let mut out: Vec<char> = Vec::new();
    let mut started = false;
    let ghost mut parts: Seq<Seq<char>> = Seq::empty();
    proof {
        assert(Seq::<Seq<char>>::empty() + authors_scan(d, s0, false) =~= authors_scan(
            d,
            s0,
            false,
        ));
    }
    while i < n
        invariant
            0 <= s0 <= i <= n,
            n == d.len(),
            d == lines.deep_view(),
            n == lines@.len(),
            authors_scan(d, s0, false) == parts + authors_scan(d, i as int, started),
            out@ == join_with(parts, seq![' ']),
            started == (parts.len() > 0),
        ensures
            authors_scan(d, s0, false) == parts,
            out@ == join_with(parts, seq![' ']),
        decreases n - i,
    {
        let lc = line_chars(lines, i);
        let t = trim_chars(&lc);
        let ghost ts = trim(d[i as int]);
        if t.len() == 0 {
            i += 1;
            continue;
        }
        if authors_stop_exec(&t) {
            proof {
                assert(authors_scan(d, i as int, started) =~= Seq::<Seq<char>>::empty());
                assert(parts + Seq::<Seq<char>>::empty() =~= parts);
            }
            break;
        }
        if started && likely_prose_exec(&t) {
            proof {
                assert(authors_scan(d, i as int, started) =~= Seq::<Seq<char>>::empty());
                assert(parts + Seq::<Seq<char>>::empty() =~= parts);
            }
            break;
        }
        if started {
            out.push(' ');
        }
        push_all(&mut out, &t);
        proof {
            assert(authors_scan(d, i as int, started) == seq![ts] + authors_scan(
                d,
                i + 1 as int,
                true,
            ));
            assert(parts + authors_scan(d, i as int, started) =~= parts.push(ts) + authors_scan(
                d,
                i + 1 as int,
                true,
            ));
            let np = parts.push(ts);
            assert(np.drop_last() =~= parts);
            assert(np.last() == ts);
            if parts.len() > 0 {
                assert(join_with(np, seq![' ']) == join_with(parts, seq![' ']) + seq![' '] + ts);
            } else {
                assert(np.len() == 1);
                assert(join_with(np, seq![' ']) == ts);
                assert(out@ =~= ts);
            }
            parts = np;
        }
        started = true;
        i += 1;
    }
    proof {
        if i == n {
            assert(authors_scan(d, n as int, started) =~= Seq::<Seq<char>>::empty());
            assert(parts + Seq::<Seq<char>>::empty() =~= parts);
        }
    }
    chars_to_string(&out)
}

} // verus!
