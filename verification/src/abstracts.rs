//! The abstract stage.
//!
//! A state machine with two states: searching and inside the abstract. The
//! first line carrying an abstract keyword starts the section; its keyword
//! and separator are stripped. When the remainder has more than two words,
//! the anchor line carried the whole abstract and the remainder alone is it.
//! Otherwise (a bare "Abstract", or a fragment of at most two words, which is
//! dropped) the following lines are collected until an introduction or
//! keyword marker, or a bare "1" / blank / "Introduction" triple. When no
//! keyword is ever found, the first line longer than one hundred characters
//! that is not itself an introduction heading stands in for the abstract.

use vstd::prelude::*;

use crate::rules::{
    abstract_fallback_exec, abstract_keywords, abstract_start_exec, abstract_stop_exec,
    abstract_strip, abstract_strip_exec, is_abstract_fallback, is_abstract_start,
    is_abstract_stop,
};
use crate::norm::{collapse_double, collapse_double_chars};
use crate::text::{
    chars_eq, chars_to_string, fold_lower, has_prefix, has_prefix_exec, fold_lower_chars,
    join_chars, join_with, line_chars, str_chars, trim, trim_chars, word_count, count_words,
};

verus! {

/// The three-line pattern that ends the abstract: a bare "1", a blank line,
/// then a line opening with "Introduction".
pub open spec fn abstract_intro_break(d: Seq<Seq<char>>, i: int) -> bool {
    i + 2 < d.len() && trim(d[i]) == seq!['1'] && trim(d[i + 1]).len() == 0 && has_prefix(
        fold_lower(trim(d[i + 2])),
        "introduction"@,
    )
}

/// Tests the three-line break pattern at position `i`.
fn abstract_intro_break_exec(lines: &Vec<String>, i: usize) -> (r: bool)
    requires
        i < lines@.len(),
    ensures
        r == abstract_intro_break(lines.deep_view(), i as int),
{
    let n = lines.len();
    proof {
        assert(lines.deep_view().len() == lines@.len());
    }
    if n < 2 || i >= n - 2 {
        return false;
    }
    let t0 = trim_chars(&line_chars(lines, i));
    let one = str_chars("1");
    proof {
        reveal_strlit("1");
        assert("1"@ =~= seq!['1']);
    }
    if !chars_eq(&t0, &one) {
        return false;
    }
    let t1 = trim_chars(&line_chars(lines, i + 1));
    if t1.len() != 0 {
        return false;
    }
    let t2 = trim_chars(&line_chars(lines, i + 2));
    let l2 = fold_lower_chars(&t2);
    let intro = str_chars("introduction");
    has_prefix_exec(&l2, &intro)
}

/// The collected abstract lines and the fallback candidate, scanning from
/// position `i` with the given state. An anchor line whose stripped remainder
/// has more than two words is the whole abstract; otherwise the scan enters
/// the section and collects the following lines.
pub open spec fn abstract_scan(d: Seq<Seq<char>>, i: int, in_abs: bool, fb: Option<Seq<char>>) -> (
    Seq<Seq<char>>,
    Option<Seq<char>>,
)
    decreases d.len() - i
        when 0 <= i <= d.len()
{
    if i >= d.len() {
        (Seq::empty(), fb)
    } else {
        let t = trim(d[i]);
        if !in_abs && is_abstract_start(t) {
            let cleaned = abstract_strip(t);
            if word_count(cleaned) > 2 {
                (seq![cleaned], fb)
            } else {
                abstract_scan(d, i + 1, true, fb)
            }
        } else if in_abs {
            if abstract_intro_break(d, i) {
                (Seq::empty(), fb)
            } else if is_abstract_stop(t) {
                (Seq::empty(), fb)
            } else {
                let rest = abstract_scan(d, i + 1, true, fb);
                (seq![t] + rest.0, rest.1)
            }
        } else {
            let nfb = if fb is None && is_abstract_fallback(t) {
                Some(t)
            } else {
                fb
            };
            abstract_scan(d, i + 1, false, nfb)
        }
    }
}

/// The abstract: the collected lines joined by single spaces with double
/// spaces collapsed and the ends trimmed; the fallback line when nothing was
/// collected; empty when there is neither.
pub open spec fn spec_extract_abstract(d: Seq<Seq<char>>) -> Seq<char> {
    let scanned = abstract_scan(d, 0, false, None);
    if scanned.0.len() > 0 {
        trim(collapse_double(join_with(scanned.0, seq![' '])))
    } else {
        match scanned.1 {
            Some(f) => f,
            None => Seq::empty(),
        }
    }
}

/// The collected lines do not depend on the fallback candidate: it only
/// feeds the fallback result.
proof fn lemma_abstract_parts_fb(
    d: Seq<Seq<char>>,
    k: int,
    in_abs: bool,
    fb1: Option<Seq<char>>,
    fb2: Option<Seq<char>>,
)
    requires
        0 <= k <= d.len(),
    ensures
        abstract_scan(d, k, in_abs, fb1).0 == abstract_scan(d, k, in_abs, fb2).0,
    decreases d.len() - k,
{
    if k < d.len() {
        let t = trim(d[k]);
        if !in_abs && is_abstract_start(t) {
            lemma_abstract_parts_fb(d, k + 1, true, fb1, fb2);
        } else if in_abs {
            if !abstract_intro_break(d, k) && !is_abstract_stop(t) {
                lemma_abstract_parts_fb(d, k + 1, true, fb1, fb2);
            }
        } else {
            let nfb1 = if fb1 is None && is_abstract_fallback(t) {
                Some(t)
            } else {
                fb1
            };
            let nfb2 = if fb2 is None && is_abstract_fallback(t) {
                Some(t)
            } else {
                fb2
            };
            lemma_abstract_parts_fb(d, k + 1, false, nfb1, nfb2);
        }
    }
}

/// While no line opens the abstract, the searching state collects nothing.
proof fn lemma_abstract_search_walk(d: Seq<Seq<char>>, k: int, i: int, fb: Option<Seq<char>>)
    requires
        0 <= k <= i <= d.len(),
        forall|j: int| k <= j < i ==> !is_abstract_start(trim(#[trigger] d[j])),
    ensures
        abstract_scan(d, k, false, fb).0 == abstract_scan(d, i, false, None).0,
    decreases i - k,
{
    if k < i {
        let t = trim(d[k]);
        let nfb = if fb is None && is_abstract_fallback(t) {
            Some(t)
        } else {
            fb
        };
        lemma_abstract_search_walk(d, k + 1, i, nfb);
    } else {
        lemma_abstract_parts_fb(d, k, false, fb, None);
    }
}

/// A sequence without whitespace is a single word.
proof fn lemma_word_count_no_space(s: Seq<char>)
    requires
        s.len() > 0,
        forall|j: int| 0 <= j < s.len() ==> !crate::text::is_space(#[trigger] s[j]),
    ensures
        word_count(s) == 1,
    decreases s.len(),
{
    if s.len() > 1 {
        let u = s.drop_last();
        assert forall|j: int| 0 <= j < u.len() implies !crate::text::is_space(#[trigger] u[j]) by {
            assert(u[j] == s[j]);
        }
        lemma_word_count_no_space(u);
        assert(!crate::text::is_space(s[s.len() - 2]));
        assert(!crate::text::is_space(s.last()));
    } else {
        assert(!crate::text::is_space(s[0]));
        assert(word_count(s.drop_last()) == 0) by {
            assert(s.drop_last().len() == 0);
        }
    }
}

/// A line reading exactly "Abstract" (in any casing), when it is the first
/// line to open the abstract and is followed by a non-empty line that neither
/// stops the scan nor opens an introduction block, makes that following line
/// the first collected element of the abstract.
pub proof fn lemma_abstract_first_line(d: Seq<Seq<char>>, i: int)
    requires
        0 <= i,
        i + 1 < d.len(),
        fold_lower(trim(d[i])) == "abstract"@,
        forall|j: int| 0 <= j < i ==> !is_abstract_start(trim(#[trigger] d[j])),
        trim(d[i + 1]).len() > 0,
        !is_abstract_stop(trim(d[i + 1])),
        !abstract_intro_break(d, i + 1),
    ensures
        abstract_scan(d, 0, false, None).0.len() > 0,
        abstract_scan(d, 0, false, None).0[0] == trim(d[i + 1]),
{
    let t = trim(d[i]);
    let l = fold_lower(t);
    reveal_strlit("abstract");
    reveal_strlit("r\u{e9}sum\u{e9}");
    reveal_strlit("summary");
    reveal_strlit("executive summary");
    // The line opens the abstract via the first keyword.
    assert(is_abstract_start(t)) by {
        let kw = abstract_keywords()[0];
        assert(l == kw);
    }
    // Walk the searching state to line i.
    lemma_abstract_search_walk(d, 0, i, None);
    // The keyword line itself is not kept: stripping leaves the bare keyword,
    // a single word.
    let cleaned = abstract_strip(t);
    assert(l.len() == 8);
    assert(t.len() == 8);
    assert forall|kw: Seq<char>, sep: char| #[trigger]
        has_prefix(l, kw.push(sep)) && (kw == abstract_keywords()[0] || kw == abstract_keywords()[1]
            || kw == abstract_keywords()[2] || kw == abstract_keywords()[3]) implies false by {
        if kw.len() + 1 <= l.len() {
            assert(l.subrange(0, kw.len() + 1 as int)[0] == l[0]);
            assert(kw.push(sep)[0] == kw[0]);
        }
    }
    assert(cleaned == t) by {
        assert(!has_prefix(l, abstract_keywords()[0].push('\u{2014}')));
        assert(!has_prefix(l, abstract_keywords()[0].push(':')));
        assert(!has_prefix(l, abstract_keywords()[0].push('-')));
        assert(!has_prefix(l, abstract_keywords()[1].push('\u{2014}')));
        assert(!has_prefix(l, abstract_keywords()[1].push(':')));
        assert(!has_prefix(l, abstract_keywords()[1].push('-')));
        assert(!has_prefix(l, abstract_keywords()[2].push('\u{2014}')));
        assert(!has_prefix(l, abstract_keywords()[2].push(':')));
        assert(!has_prefix(l, abstract_keywords()[2].push('-')));
        assert(!has_prefix(l, abstract_keywords()[3].push('\u{2014}')));
        assert(!has_prefix(l, abstract_keywords()[3].push(':')));
        assert(!has_prefix(l, abstract_keywords()[3].push('-')));
    }
    assert(word_count(cleaned) == 1) by {
        assert forall|j: int| 0 <= j < t.len() implies !crate::text::is_space(#[trigger] t[j]) by {
            assert(l[j] == crate::text::fold_char(t[j]));
            if crate::text::is_space(t[j]) {
                assert(crate::text::fold_char(t[j]) == t[j]);
                assert(crate::text::is_space(l[j]));
            }
        }
        lemma_word_count_no_space(t);
    }
    // The scan therefore enters the abstract at line i + 1 and collects that
    // line first.
    assert(abstract_scan(d, i, false, None).0 == abstract_scan(d, i + 1, true, None).0);
    let t1 = trim(d[i + 1]);
    assert(abstract_scan(d, i + 1, true, None).0 == seq![t1] + abstract_scan(
        d,
        i + 2,
        true,
        None,
    ).0);
    assert(abstract_scan(d, 0, false, None).0[0] == t1);
}

/// Finds and cleans the abstract, falling back to the first long line when no
/// abstract keyword occurs in the document.
pub fn extract_abstract(lines: &Vec<String>) -> (r: String)
    ensures
        r@ == spec_extract_abstract(lines.deep_view()),
{
    let ghost d = lines.deep_view();
    let n = lines.len();
    proof {
        assert(d.len() == lines@.len());
    }
    let mut parts: Vec<Vec<char>> = Vec::new();
    let mut in_abs = false;
    let mut fallback: Option<Vec<char>> = None;
    let ghost mut gfb: Option<Seq<char>> = None;
    let mut i: usize = 0;
    proof {
        assert(parts.deep_view() =~= Seq::<Seq<char>>::empty());
        assert(Seq::<Seq<char>>::empty() + abstract_scan(d, 0, false, None).0 =~= abstract_scan(
            d,
            0,
            false,
            None,
        ).0);
    }
    while i < n
        invariant_except_break
            abstract_scan(d, 0, false, None).0 == parts.deep_view() + abstract_scan(
                d,
                i as int,
                in_abs,
                gfb,
            ).0,
            abstract_scan(d, 0, false, None).1 == abstract_scan(d, i as int, in_abs, gfb).1,
        invariant
            0 <= i <= n,
            n == d.len(),
            d == lines.deep_view(),
            n == lines@.len(),
            match (fallback, gfb) {
                (Some(f), Some(g)) => f@ == g,
                (None, None) => true,
                _ => false,
            },
        ensures
            abstract_scan(d, 0, false, None).0 == parts.deep_view(),
            abstract_scan(d, 0, false, None).1 == gfb,
            match (fallback, gfb) {
                (Some(f), Some(g)) => f@ == g,
                (None, None) => true,
                _ => false,
            },
        decreases n - i,
    {
        let lc = line_chars(lines, i);
        let t = trim_chars(&lc);
        let ghost ts = trim(d[i as int]);
        if !in_abs && abstract_start_exec(&t) {
            let cleaned = abstract_strip_exec(&t);
            let (wc, _) = count_words(&cleaned);
            if wc > 2 {
                // The anchor line carried the whole abstract.
                let ghost before = parts.deep_view();
                parts.push(cleaned);
                proof {
                    assert(abstract_scan(d, i as int, in_abs, gfb).0 =~= seq![abstract_strip(ts)]);
                    assert(abstract_scan(d, i as int, in_abs, gfb).1 == gfb);
                    assert(parts.deep_view() =~~= before.push(abstract_strip(ts)));
                    assert(before + seq![abstract_strip(ts)] =~= before.push(abstract_strip(ts)));
                }
                break;
            }
            in_abs = true;
            i += 1;
            continue;
        }
        if in_abs {
            if abstract_intro_break_exec(lines, i) {
                proof {
                    assert(abstract_scan(d, i as int, true, gfb).0 =~= Seq::<Seq<char>>::empty());
                    assert(parts.deep_view() + Seq::<Seq<char>>::empty() =~= parts.deep_view());
                }
                break;
            }
            if abstract_stop_exec(&t) {
                proof {
                    assert(abstract_scan(d, i as int, true, gfb).0 =~= Seq::<Seq<char>>::empty());
                    assert(parts.deep_view() + Seq::<Seq<char>>::empty() =~= parts.deep_view());
                }
                break;
            }
            let ghost before = parts.deep_view();
            parts.push(t);
            proof {
                assert(parts.deep_view() =~~= before.push(ts));
                assert(before.push(ts) + abstract_scan(d, i + 1 as int, true, gfb).0 =~= before + (
                seq![ts] + abstract_scan(d, i + 1 as int, true, gfb).0));
            }
            i += 1;
            continue;
        }
        if fallback.is_none() && abstract_fallback_exec(&t) {
            fallback = Some(t);
            proof {
                gfb = Some(ts);
            }
        }
        i += 1;
    }
    if parts.len() > 0 {
        proof {
            assert(parts.deep_view().len() == parts@.len());
        }
        let sep = str_chars(" ");
        proof {
            reveal_strlit(" ");
            assert(" "@ =~= seq![' ']);
        }
        let joined = join_chars(&parts, &sep);
        let collapsed = collapse_double_chars(&joined);
        let trimmed = trim_chars(&collapsed);
        chars_to_string(&trimmed)
    } else {
        proof {
            assert(parts.deep_view().len() == parts@.len());
            assert(parts.deep_view() =~= Seq::<Seq<char>>::empty());
        }
        match fallback {
            Some(f) => chars_to_string(&f),
            None => {
                let empty: Vec<char> = Vec::new();
                chars_to_string(&empty)
            },
        }
    }
}

} // verus!
