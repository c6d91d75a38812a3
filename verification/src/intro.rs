//! The introduction stage.
//!
//! The abstract stage reports no position, so this stage first re-locates the
//! abstract by searching for a line containing the abstract's first line, and
//! scans forward from there for an introduction heading. Lines are then
//! collected, skipping blanks, until a terminator: a fixed boilerplate
//! phrase, a bare section number followed by a blank line and a capitalized
//! heading, a numbered inline heading, a shouted title, or a paragraph-final
//! line (ending in a period, followed by a blank line), which is still
//! included. The returned offset is the cumulative character count, one
//! separator per line, of every line up to the scan's end.

use vstd::prelude::*;

use crate::norm::{collapse_double, collapse_double_chars};
use crate::rules::{
    capitalized_line_exec, intro_heading_exec, intro_stop_phrase, intro_stop_phrase_exec,
    is_capitalized_line, is_intro_heading, is_numbered_inline, is_section_number_only,
    is_upper_title, numbered_inline_exec, section_number_only_exec, upper_title_exec,
};
use crate::scan::{first_match, lemma_first_match, lemma_first_match_step};
use crate::text::{
    chars_to_string, contains_seq, contains_seq_exec, cum_len, cum_offset, join_chars, join_with,
    line_chars, str_chars, trim, trim_chars,
};

verus! {

/// The index of the first newline in `s`, or its length.
pub open spec fn first_newline(s: Seq<char>) -> int
    decreases s.len(),
{
    if s.len() == 0 {
        0
    } else if s[0] == '\n' {
        0
    } else {
        1 + first_newline(s.drop_first())
    }
}

proof fn lemma_first_newline_range(s: Seq<char>, a: int)
    requires
        0 <= a <= s.len(),
        forall|j: int| 0 <= j < a ==> s[j] != '\n',
        a < s.len() ==> s[a] == '\n',
    ensures
        first_newline(s) == a,
    decreases a,
{
    if a > 0 {
        lemma_first_newline_range(s.drop_first(), a - 1);
    }
}

/// The first line of a text: everything before the first newline.
pub open spec fn first_line_of(s: Seq<char>) -> Seq<char> {
    s.subrange(0, first_newline(s))
}

/// The rule by which a line is recognized as the introduction heading.
pub open spec fn intro_heading_p() -> spec_fn(Seq<char>) -> bool {
    |l: Seq<char>| is_intro_heading(l)
}

/// The index of the line where the abstract was re-located: the first line
/// containing the abstract's trimmed first line; zero when the abstract is
/// empty or no line contains it.
pub open spec fn spec_abstract_line_index(d: Seq<Seq<char>>, a: Seq<char>) -> int {
    if a.len() == 0 {
        0
    } else {
        let key = trim(first_line_of(a));
        let idx = first_match(d, 0, |l: Seq<char>| contains_seq(l, key));
        if idx == d.len() {
            0
        } else {
            idx
        }
    }
}

/// The three-line terminator: a bare section number, a blank line, then a
/// capitalized heading.
pub open spec fn intro_block_break(d: Seq<Seq<char>>, i: int) -> bool {
    i + 2 < d.len() && is_section_number_only(d[i]) && trim(d[i + 1]).len() == 0
        && is_capitalized_line(d[i + 2])
}

/// A paragraph-final line: it ends in a period and the next line is blank.
pub open spec fn intro_paragraph_end(d: Seq<Seq<char>>, i: int) -> bool {
    trim(d[i]).len() > 0 && trim(d[i]).last() == '.' && i + 1 < d.len() && trim(d[i + 1]).len()
        == 0
}

/// The lines collected inside the introduction from position `i` on, and the
/// index at which the scan ends.
pub open spec fn intro_scan(d: Seq<Seq<char>>, i: int) -> (Seq<Seq<char>>, int)
    decreases d.len() - i
        when 0 <= i <= d.len()
{
    if i >= d.len() {
        (Seq::empty(), d.len() as int)
    } else {
        let t = trim(d[i]);
        if t.len() == 0 {
            intro_scan(d, i + 1)
        } else if contains_seq(t, intro_stop_phrase()) {
            (Seq::empty(), i)
        } else if intro_block_break(d, i) {
            (Seq::empty(), i)
        } else if is_numbered_inline(d[i]) {
            (Seq::empty(), i)
        } else if is_upper_title(d[i]) {
            (Seq::empty(), i)
        } else if intro_paragraph_end(d, i) {
            (seq![t], i + 1)
        } else {
            let rest = intro_scan(d, i + 1);
            (seq![t] + rest.0, rest.1)
        }
    }
}

/// The introduction's text and the line index at which the next stage should
/// resume: the collected lines joined by single spaces, double spaces
/// collapsed, ends trimmed.
pub open spec fn spec_extract_introduction(d: Seq<Seq<char>>, a: Seq<char>) -> (Seq<char>, int) {
    let start = spec_abstract_line_index(d, a);
    let h = first_match(d, start, intro_heading_p());
    let scanned = if h == d.len() {
        (Seq::<Seq<char>>::empty(), d.len() as int)
    } else {
        intro_scan(d, h + 1)
    };
    (trim(collapse_double(join_with(scanned.0, seq![' ']))), scanned.1)
}

/// The introduction scan never begins before the line at which the abstract
/// was re-located: the heading is searched for at or after that line, so it
/// is found at or after it, and `spec_extract_introduction` collects lines
/// only past the heading.
pub proof fn lemma_intro_after_abstract(d: Seq<Seq<char>>, a: Seq<char>)
    ensures
        0 <= spec_abstract_line_index(d, a) <= d.len(),
        spec_abstract_line_index(d, a) <= first_match(
            d,
            spec_abstract_line_index(d, a),
            intro_heading_p(),
        ),
{
    let start = spec_abstract_line_index(d, a);
    if a.len() != 0 {
        let key = trim(first_line_of(a));
        lemma_first_match(d, 0, |l: Seq<char>| contains_seq(l, key));
    }
    lemma_first_match(d, start, intro_heading_p());
}

/// Extracts the introduction, scanning from the re-located end of the
/// abstract, and returns its text together with the cumulative character
/// offset (line lengths plus one separator each) of everything up to the
/// scan's end.
pub fn extract_introduction(lines: &Vec<String>, abstract_text: &str) -> (r: (String, u128))
    ensures
        r.0@ == spec_extract_introduction(lines.deep_view(), abstract_text@).0,
        r.1 == cum_len(
            lines.deep_view(),
            spec_extract_introduction(lines.deep_view(), abstract_text@).1,
            1,
        ),
{
    let ghost d = lines.deep_view();
    let n = lines.len();
    proof {
        assert(d.len() == lines@.len());
    }
    // Re-locate the abstract's first line.
    let a = str_chars(abstract_text);
    let mut start: usize = 0;
    if a.len() > 0 {
        let mut nl: usize = 0;
        while nl < a.len() && a[nl] != '\n'
            invariant
                0 <= nl <= a@.len(),
                a@ == abstract_text@,
                forall|j: int| 0 <= j < nl ==> a@[j] != '\n',
            decreases a@.len() - nl,
        {
            nl += 1;
        }
        proof {
            lemma_first_newline_range(a@, nl as int);
        }
        let first = crate::text::copy_range(&a, 0, nl);
        proof {
            assert(first@ =~= first_line_of(a@));
        }
        let key = trim_chars(&first);
        let ghost kp = |l: Seq<char>| contains_seq(l, trim(first_line_of(abstract_text@)));
        let mut i: usize = 0;
        while i < n
            invariant
                0 <= i <= n,
                n == d.len(),
                d == lines.deep_view(),
                n == lines@.len(),
                key@ == trim(first_line_of(abstract_text@)),
                kp == (|l: Seq<char>| contains_seq(l, trim(first_line_of(abstract_text@)))),
                first_match(d, 0, kp) == first_match(d, i as int, kp),
            ensures
                i as int == first_match(d, 0, kp),
                key@ == trim(first_line_of(abstract_text@)),
                kp == (|l: Seq<char>| contains_seq(l, trim(first_line_of(abstract_text@)))),
            decreases n - i,
        {
            let lc = line_chars(lines, i);
            if contains_seq_exec(&lc, &key) {
                proof {
                    assert(kp(d[i as int]));
                    assert(first_match(d, i as int, kp) == i as int);
                }
                break;
            }
            proof {
                assert(!kp(d[i as int]));
                lemma_first_match_step(d, i as int, kp);
            }
            i += 1;
        }
        if i < n {
            start = i;
        }
        proof {
            assert(start as int == spec_abstract_line_index(d, abstract_text@));
        }
    }
    proof {
        assert(start as int == spec_abstract_line_index(d, abstract_text@));
    }
    // Find the introduction heading.
    let ghost hp = intro_heading_p();
    let mut h: usize = start;
    while h < n
        invariant
            start <= h <= n,
            n == d.len(),
            d == lines.deep_view(),
            n == lines@.len(),
            hp == intro_heading_p(),
            first_match(d, start as int, hp) == first_match(d, h as int, hp),
        ensures
            h as int == first_match(d, start as int, hp),
        decreases n - h,
    {
        let lc = line_chars(lines, h);
        if intro_heading_exec(&lc) {
            proof {
                assert(hp(d[h as int]));
                assert(first_match(d, h as int, hp) == h as int);
            }
            break;
        }
        proof {
            assert(!hp(d[h as int]));
            lemma_first_match_step(d, h as int, hp);
        }
        h += 1;
    }
    let ghost scanned = spec_extract_introduction(d, abstract_text@);
    let mut parts: Vec<Vec<char>> = Vec::new();
    let mut e: usize = n;
    if h < n {
        // Collect the introduction's lines.
        let ghost from = h + 1 as int;
        let mut i: usize = h + 1;
        proof {
            assert(parts.deep_view() =~= Seq::<Seq<char>>::empty());
            assert(Seq::<Seq<char>>::empty() + intro_scan(d, from).0 =~= intro_scan(d, from).0);
        }
        while i < n
            invariant_except_break
                intro_scan(d, from).0 == parts.deep_view() + intro_scan(d, i as int).0,
                intro_scan(d, from).1 == intro_scan(d, i as int).1,
            invariant
                from <= i <= n,
                0 <= from <= n,
                n == d.len(),
                d == lines.deep_view(),
                n == lines@.len(),
            ensures
                intro_scan(d, from).0 == parts.deep_view(),
                i <= n,
                intro_scan(d, from).1 == i as int,
            decreases n - i,
        {
            let lc = line_chars(lines, i);
            let t = trim_chars(&lc);
            let ghost ts = trim(d[i as int]);
            if t.len() == 0 {
                i += 1;
                continue;
            }
            if intro_stop_phrase_exec(&t) {
                proof {
                    assert(parts.deep_view() + Seq::<Seq<char>>::empty() =~= parts.deep_view());
                }
                break;
            }
            let block_break = if n - i > 2 {
                let t1 = trim_chars(&line_chars(lines, i + 1));
                if t1.len() == 0 {
                    let l2 = line_chars(lines, i + 2);
                    section_number_only_exec(&lc) && capitalized_line_exec(&l2)
                } else {
                    false
                }
            } else {
                false
            };
            proof {
                assert(block_break == intro_block_break(d, i as int));
            }
            if block_break {
                proof {
                    assert(parts.deep_view() + Seq::<Seq<char>>::empty() =~= parts.deep_view());
                }
                break;
            }
            if numbered_inline_exec(&lc) {
                proof {
                    assert(parts.deep_view() + Seq::<Seq<char>>::empty() =~= parts.deep_view());
                }
                break;
            }
            if upper_title_exec(&lc) {
                proof {
                    assert(parts.deep_view() + Seq::<Seq<char>>::empty() =~= parts.deep_view());
                }
                break;
            }
            let para_end = if i + 1 < n && t[t.len() - 1] == '.' {
                let t1 = trim_chars(&line_chars(lines, i + 1));
                t1.len() == 0
            } else {
                false
            };
            proof {
                assert(t@.last() == t@[t@.len() - 1]);
                assert(para_end == intro_paragraph_end(d, i as int));
            }
            let ghost before = parts.deep_view();
            parts.push(t);
            proof {
                assert(parts.deep_view() =~~= before.push(ts));
            }
            if para_end {
                proof {
                    assert(intro_scan(d, i as int).0 =~= seq![ts]);
                    assert(before + seq![ts] =~= before.push(ts));
                }
                i += 1;
                break;
            }
            proof {
                assert(before.push(ts) + intro_scan(d, i + 1 as int).0 =~= before + (seq![ts]
                    + intro_scan(d, i + 1 as int).0));
            }
            i += 1;
        }
        proof {
            if i == n {
                assert(intro_scan(d, n as int).0 =~= Seq::<Seq<char>>::empty());
                assert(parts.deep_view() + Seq::<Seq<char>>::empty() =~= parts.deep_view());
            }
        }
        e = i;
    } else {
        proof {
            assert(parts.deep_view() =~= Seq::<Seq<char>>::empty());
        }
    }
    proof {
        assert(parts.deep_view() == scanned_parts(d, abstract_text@));
        assert(e as int == spec_extract_introduction(d, abstract_text@).1);
    }
    let sep = str_chars(" ");
    proof {
        reveal_strlit(" ");
        assert(" "@ =~= seq![' ']);
    }
    let joined = join_chars(&parts, &sep);
    let collapsed = collapse_double_chars(&joined);
    let trimmed = trim_chars(&collapsed);
    let text = chars_to_string(&trimmed);
    let offset = cum_offset(lines, e, true);
    (text, offset)
}

/// The lines that the introduction scan collects.
pub open spec fn scanned_parts(d: Seq<Seq<char>>, a: Seq<char>) -> Seq<Seq<char>> {
    let start = spec_abstract_line_index(d, a);
    let h = first_match(d, start, intro_heading_p());
    if h == d.len() {
        Seq::empty()
    } else {
        intro_scan(d, h + 1).0
    }
}

} // verus!
