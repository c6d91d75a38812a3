//! The title stage.
//!
//! The title is the first line that survives the noise filter, extended by
//! the following line when that line does not read as an author list (titles
//! may wrap once). The stage fails only when every line of the document is
//! noise.

use vstd::prelude::*;

use crate::rules::{author_like_exec, is_author_like, is_title_noise, title_noise_exec};
use crate::scan::{first_match, lemma_first_match_step};
use crate::text::{chars_to_string, line_chars, push_all, trim, trim_chars};

verus! {

/// The rule by which the title stage accepts a line.
pub open spec fn title_candidate() -> spec_fn(Seq<char>) -> bool {
    |l: Seq<char>| !is_title_noise(l)
}

/// The title and the index of the line after it, or nothing when every line
/// of the document is noise. A wrapped second line is appended after a single
/// space; the result is trimmed.
pub open spec fn spec_extract_title(d: Seq<Seq<char>>) -> Option<(Seq<char>, int)> {
    let i = first_match(d, 0, title_candidate());
    if i == d.len() {
        None
    } else if i + 1 < d.len() && !is_author_like(trim(d[i + 1])) {
        Some((trim(trim(d[i]) + seq![' '] + trim(d[i + 1])), i + 2))
    } else {
        Some((trim(d[i]), i + 1))
    }
}

/// Finds the article's title: the first line that the noise filter accepts,
/// extended by a wrapped second line. Returns the title and the index of the
/// first line after it, or nothing when every line is noise.
pub fn extract_title(lines: &Vec<String>) -> (r: Option<(String, usize)>)
    ensures
        (r is Some) == (spec_extract_title(lines.deep_view()) is Some),
        r matches Some(p) ==> spec_extract_title(lines.deep_view()) matches Some(q) && p.0@ == q.0
            && p.1 as int == q.1,
{
    let ghost d = lines.deep_view();
    let ghost p = title_candidate();
    let n = lines.len();
    proof {
        assert(d.len() == lines@.len());
    }
    let mut i: usize = 0;
    while i < n
        invariant
            0 <= i <= n,
            n == d.len(),
            d == lines.deep_view(),
            n == lines@.len(),
            p == title_candidate(),
            first_match(d, 0, p) == first_match(d, i as int, p),
        ensures
            0 <= i <= n,
            n == d.len(),
            d == lines.deep_view(),
            n == lines@.len(),
            p == title_candidate(),
            i as int == first_match(d, 0, p),
        decreases n - i,
    {
        let lc = line_chars(lines, i);
        if !title_noise_exec(&lc) {
            proof {
                assert(p(d[i as int]));
                assert(first_match(d, i as int, p) == i as int);
            }
            break;
        }
        proof {
            assert(!p(d[i as int]));
            lemma_first_match_step(d, i as int, p);
        }
        i += 1;
    }
    if i == n {
        proof {
            assert(spec_extract_title(d) is None);
        }
        return None;
    }
    let lc = line_chars(lines, i);
    let t0 = trim_chars(&lc);
    if i + 1 < n {
        let nc = line_chars(lines, i + 1);
        let t1 = trim_chars(&nc);
        if !author_like_exec(&t1) {
            let mut comb = t0;
            comb.push(' ');
            push_all(&mut comb, &t1);
            proof {
                assert(comb@ =~= trim(d[i as int]) + seq![' '] + trim(d[i + 1 as int]));
            }
            let fin = trim_chars(&comb);
            return Some((chars_to_string(&fin), i + 2));
        }
    }
    Some((chars_to_string(&t0), i + 1))
}

/// A document with at least one line, none of which the noise filter rejects,
/// always yields a title.
pub proof fn lemma_title_found_when_clean(d: Seq<Seq<char>>)
    requires
        d.len() > 0,
        forall|i: int| 0 <= i < d.len() ==> !is_title_noise(#[trigger] d[i]),
    ensures
        spec_extract_title(d) is Some,
{
    let p = title_candidate();
    assert(p(d[0]));
    assert(first_match(d, 0, p) == 0);
}

} // verus!
