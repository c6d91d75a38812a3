//! The one-pass title-and-abstract summarizer.
//!
//! A lighter sibling of the full pipeline: after column normalization it
//! takes up to three early lines as the title (stopping at an abstract
//! keyword, an email sign or a link) and collects the abstract from the first
//! line opening with "abstract" to the first section marker. It reports the
//! filename, title, abstract, the document's line count and the number of
//! abstract lines.

use vstd::prelude::*;

use crate::columns::{detect_column_cutoff, keep_left_column, spec_detect_cutoff,
    spec_keep_left_column,
};
use crate::norm::{collapse_double, collapse_double_chars, collapse_ws, collapse_ws_chars};
use crate::pipeline::{underscore_filename, underscored};
use crate::text::{
    chars_eq, chars_to_string, contains_char, contains_char_exec, contains_seq, contains_seq_exec,
    fold_lower, fold_lower_chars, has_prefix, has_prefix_exec, is_alpha, join_chars, join_with,
    line_chars, str_chars, trim, trim_chars,
};

verus! {

/// A title line stops the scan when it names the abstract.
pub open spec fn s2_title_abstract_stop(t: Seq<char>) -> bool {
    contains_seq(fold_lower(t), "abstract"@)
}

/// A title line stops the scan when it carries contact or link text.
pub open spec fn s2_title_contact_stop(t: Seq<char>) -> bool {
    contains_char(t, '@') || contains_seq(t, "http"@) || contains_seq(t, "www"@)
}

/// The early lines taken as the title: up to three non-blank lines among the
/// first fifteen, stopping at an abstract keyword or contact text; `k` counts
/// the lines already taken.
pub open spec fn s2_title_scan(d: Seq<Seq<char>>, i: int, k: int) -> Seq<Seq<char>>
    decreases d.len() - i
        when 0 <= i <= d.len()
{
    if i >= d.len() || i >= 15 {
        Seq::empty()
    } else {
        let t = trim(d[i]);
        if t.len() == 0 {
            s2_title_scan(d, i + 1, k)
        } else if s2_title_abstract_stop(t) {
            Seq::empty()
        } else if s2_title_contact_stop(t) {
            Seq::empty()
        } else if k >= 2 {
            seq![t]
        } else {
            seq![t] + s2_title_scan(d, i + 1, k + 1)
        }
    }
}

/// Characters stripped from the head of the line that opens the abstract:
/// the keyword's letters and the separators after it.
pub open spec fn is_s2_strip_char(c: char) -> bool {
    is_alpha(c) || c == ':' || c == '\u{2014}' || c == '-' || c == ' '
}

/// The line with its leading keyword-and-separator characters removed.
pub open spec fn s2_strip_front(s: Seq<char>) -> Seq<char>
    decreases s.len(),
{
    if s.len() > 0 && is_s2_strip_char(s[0]) {
        s2_strip_front(s.drop_first())
    } else {
        s
    }
}

proof fn lemma_s2_strip_suffix(s: Seq<char>, a: int)
    requires
        0 <= a <= s.len(),
        forall|j: int| 0 <= j < a ==> is_s2_strip_char(s[j]),
        a < s.len() ==> !is_s2_strip_char(s[a]),
    ensures
        s2_strip_front(s) == s.subrange(a, s.len() as int),
    decreases a,
{
    if a == 0 {
        assert(s.subrange(0, s.len() as int) =~= s);
    } else {
        lemma_s2_strip_suffix(s.drop_first(), a - 1);
        assert(s.drop_first().subrange(a - 1, s.drop_first().len() as int) =~= s.subrange(
            a,
            s.len() as int,
        ));
    }
}

/// What remains of the abstract's opening line once the keyword is stripped.
pub open spec fn s2_strip(t: Seq<char>) -> Seq<char> {
    trim(s2_strip_front(t))
}

fn s2_strip_exec(t: &Vec<char>) -> (r: Vec<char>)
    ensures
        r@ == s2_strip(t@),
{
    let len = t.len();
    let mut a: usize = 0;
    while a < len && s2_strip_char_exec(t[a])
        invariant
            0 <= a <= len,
            len == t@.len(),
            forall|j: int| 0 <= j < a ==> is_s2_strip_char(t@[j]),
        decreases len - a,
    {
        a += 1;
    }
    proof {
        lemma_s2_strip_suffix(t@, a as int);
    }
    let rest = crate::text::copy_range(t, a, len);
    proof {
        assert(rest@ =~= s2_strip_front(t@));
    }
    trim_chars(&rest)
}

fn s2_strip_char_exec(c: char) -> (r: bool)
    ensures
        r == is_s2_strip_char(c),
{
    crate::text::alpha_char(c) || c == ':' || c == '\u{2014}' || c == '-' || c == ' '
}

/// A line at which the abstract scan stops: a numbered or introduction
/// section marker, or any line opening with a capital I.
pub open spec fn s2_abs_stop(t: Seq<char>) -> bool {
    ||| has_prefix(t, "1 "@)
    ||| has_prefix(t, "1."@)
    ||| has_prefix(fold_lower(t), "introduction"@)
    ||| has_prefix(t, "I."@)
    ||| has_prefix(t, "I"@)
}

fn s2_abs_stop_exec(t: &Vec<char>) -> (r: bool)
    ensures
        r == s2_abs_stop(t@),
{
    let p1 = str_chars("1 ");
    if has_prefix_exec(t, &p1) {
        return true;
    }
    let p2 = str_chars("1.");
    if has_prefix_exec(t, &p2) {
        return true;
    }
    let l = fold_lower_chars(t);
    let p3 = str_chars("introduction");
    if has_prefix_exec(&l, &p3) {
        return true;
    }
    let p4 = str_chars("I.");
    if has_prefix_exec(t, &p4) {
        return true;
    }
    let p5 = str_chars("I");
    has_prefix_exec(t, &p5)
}

/// The collected abstract lines: `started` records that the opening keyword
/// was seen, `next_only` that the keyword stood alone and the very next
/// non-blank line is to be taken.
pub open spec fn s2_abs_scan(d: Seq<Seq<char>>, i: int, started: bool, next_only: bool) -> Seq<
    Seq<char>,
>
    decreases d.len() - i
        when 0 <= i <= d.len()
{
    if i >= d.len() {
        Seq::empty()
    } else {
        let t = trim(d[i]);
        if !started && has_prefix(fold_lower(t), "abstract"@) {
            if fold_lower(t) == "abstract"@ {
                s2_abs_scan(d, i + 1, true, true)
            } else {
                let cleaned = s2_strip(t);
                (if cleaned.len() > 0 {
                    seq![cleaned]
                } else {
                    Seq::empty()
                }) + s2_abs_scan(d, i + 1, true, false)
            }
        } else if next_only {
            if t.len() == 0 {
                s2_abs_scan(d, i + 1, started, false)
            } else {
                seq![t] + s2_abs_scan(d, i + 1, started, false)
            }
        } else if started {
            if s2_abs_stop(t) {
                Seq::empty()
            } else {
                seq![t] + s2_abs_scan(d, i + 1, started, false)
            }
        } else {
            s2_abs_scan(d, i + 1, false, false)
        }
    }
}

/// One left-to-right pass removing each "- " pair: de-hyphenation of words
/// broken across lines.
pub open spec fn remove_dash_space(s: Seq<char>) -> Seq<char>
    decreases s.len(),
{
    if s.len() >= 2 && s[0] == '-' && s[1] == ' ' {
        remove_dash_space(s.skip(2))
    } else if s.len() >= 1 {
        seq![s[0]] + remove_dash_space(s.drop_first())
    } else {
        Seq::empty()
    }
}

fn remove_dash_space_exec(v: &Vec<char>) -> (r: Vec<char>)
    ensures
        r@ == remove_dash_space(v@),
{
    let n = v.len();
    let mut out: Vec<char> = Vec::new();
    let mut i: usize = 0;
    proof {
        assert(v@.skip(0) =~= v@);
        assert(out@ + remove_dash_space(v@) =~= remove_dash_space(v@));
    }
    while i < n
        invariant
            0 <= i <= n,
            n == v@.len(),
            out@ + remove_dash_space(v@.skip(i as int)) == remove_dash_space(v@),
        decreases n - i,
    {
        proof {
            assert(v@.skip(i as int).drop_first() =~= v@.skip(i + 1 as int));
            if i + 2 <= n {
                assert(v@.skip(i as int).skip(2) =~= v@.skip(i + 2 as int));
                assert(v@.skip(i as int)[1] == v@[i + 1]);
            }
            assert(v@.skip(i as int)[0] == v@[i as int]);
        }
        if i + 1 < n && v[i] == '-' && v[i + 1] == ' ' {
            i += 2;
        } else {
            out.push(v[i]);
            i += 1;
        }
    }
    proof {
        assert(v@.skip(n as int) =~= Seq::<char>::empty());
        assert(out@ + Seq::<char>::empty() =~= out@);
    }
    out
}

/// Newlines replaced by spaces.
pub open spec fn newline_to_space(s: Seq<char>) -> Seq<char> {
    s.map_values(
        |c: char|
            if c == '\n' {
                ' '
            } else {
                c
            },
    )
}

fn newline_to_space_exec(v: &Vec<char>) -> (r: Vec<char>)
    ensures
        r@ == newline_to_space(v@),
{
    let n = v.len();
    let mut out: Vec<char> = Vec::new();
    let mut i: usize = 0;
    while i < n
        invariant
            0 <= i <= n,
            n == v@.len(),
            out@ == newline_to_space(v@.subrange(0, i as int)),
        decreases n - i,
    {
        if v[i] == '\n' {
            out.push(' ');
        } else {
            out.push(v[i]);
        }
        proof {
            assert(out@ =~= newline_to_space(v@.subrange(0, i + 1 as int)));
        }
        i += 1;
    }
    proof {
        assert(v@.subrange(0, n as int) =~= v@);
    }
    out
}

/// The column width applied before scanning: the detected cutoff, or the
/// largest representable width (no truncation) when the document is a single
/// column.
pub open spec fn s2_width(d: Seq<Seq<char>>) -> int {
    match spec_detect_cutoff(d) {
        None => usize::MAX as int,
        Some(p) => p,
    }
}

/// The summarizer's result: the underscored filename, the title, the cleaned
/// abstract, the number of lines, and the number of abstract lines.
pub open spec fn spec_extract_title_and_abstract(filename: Seq<char>, d: Seq<Seq<char>>) -> (
    Seq<char>,
    Seq<char>,
    Seq<char>,
    int,
    int,
) {
    let ld = spec_keep_left_column(d, s2_width(d));
    let tparts = s2_title_scan(ld, 0, 0);
    let title = trim(collapse_double(join_with(tparts, seq![' '])));
    let aparts = s2_abs_scan(ld, 0, false, false);
    let abs = collapse_ws(
        collapse_double(newline_to_space(remove_dash_space(join_with(aparts, seq![' '])))),
    );
    (underscored(filename), title, abs, d.len() as int, aparts.len() as int)
}

/// Summarizes a document in one pass: column-normalizes it, takes the early
/// lines as the title, collects the abstract, and reports the line counts.
pub fn extract_title_and_abstract(filename: &str, lines: &Vec<String>) -> (r: (
    String,
    String,
    String,
    usize,
    usize,
))
    ensures
        r.0@ == spec_extract_title_and_abstract(filename@, lines.deep_view()).0,
        r.1@ == spec_extract_title_and_abstract(filename@, lines.deep_view()).1,
        r.2@ == spec_extract_title_and_abstract(filename@, lines.deep_view()).2,
        r.3 as int == spec_extract_title_and_abstract(filename@, lines.deep_view()).3,
        r.4 as int == spec_extract_title_and_abstract(filename@, lines.deep_view()).4,
{
    let ghost d = lines.deep_view();
    proof {
        assert(d.len() == lines@.len());
    }
    let cutoff = detect_column_cutoff(lines);
    let kept = keep_left_column(lines, cutoff);
    let ghost ld = spec_keep_left_column(d, s2_width(d));
    proof {
        assert(kept.deep_view() =~= ld);
        assert(ld.len() == d.len());
    }
    let n = kept.len();
    proof {
        assert(kept.deep_view().len() == kept@.len());
    }
    // Title: up to three early lines.
    let mut tparts: Vec<Vec<char>> = Vec::new();
    let mut i: usize = 0;
    proof {
        assert(tparts.deep_view() =~= Seq::<Seq<char>>::empty());
        assert(Seq::<Seq<char>>::empty() + s2_title_scan(ld, 0, 0) =~= s2_title_scan(ld, 0, 0));
    }
    while i < n && i < 15
        invariant_except_break
            s2_title_scan(ld, 0, 0) == tparts.deep_view() + s2_title_scan(
                ld,
                i as int,
                tparts.deep_view().len() as int,
            ),
        invariant
            0 <= i <= n,
            n == ld.len(),
            n == kept@.len(),
            kept.deep_view() == ld,
        ensures
            s2_title_scan(ld, 0, 0) == tparts.deep_view(),
        decreases n - i,
    {
        let lc = line_chars(&kept, i);
        let t = trim_chars(&lc);
        let ghost ts = trim(ld[i as int]);
        if t.len() == 0 {
            i += 1;
            continue;
        }
        let l = fold_lower_chars(&t);
        let abs_kw = str_chars("abstract");
        if contains_seq_exec(&l, &abs_kw) {
            proof {
                assert(s2_title_scan(ld, i as int, tparts.deep_view().len() as int)
                    =~= Seq::<Seq<char>>::empty());
                assert(tparts.deep_view() + Seq::<Seq<char>>::empty() =~= tparts.deep_view());
            }
            break;
        }
        let http = str_chars("http");
        let www = str_chars("www");
        if contains_char_exec(&t, '@') || contains_seq_exec(&t, &http) || contains_seq_exec(
            &t,
            &www,
        ) {
            proof {
                assert(s2_title_scan(ld, i as int, tparts.deep_view().len() as int)
                    =~= Seq::<Seq<char>>::empty());
                assert(tparts.deep_view() + Seq::<Seq<char>>::empty() =~= tparts.deep_view());
            }
            break;
        }
        let ghost before = tparts.deep_view();
        tparts.push(t);
        proof {
            assert(tparts.deep_view() =~~= before.push(ts));
        }
        if tparts.len() >= 3 {
            proof {
                assert(s2_title_scan(ld, i as int, before.len() as int) =~= seq![ts]);
                assert(before + seq![ts] =~= before.push(ts));
            }
            break;
        }
        proof {
            assert(before.push(ts) + s2_title_scan(ld, i + 1 as int, before.len() + 1 as int) =~= before
                + (seq![ts] + s2_title_scan(ld, i + 1 as int, before.len() + 1 as int)));
        }
        i += 1;
    }
    let sep = str_chars(" ");
    proof {
        reveal_strlit(" ");
        assert(" "@ =~= seq![' ']);
    }
    let tjoined = join_chars(&tparts, &sep);
    let tcollapsed = collapse_double_chars(&tjoined);
    let ttrimmed = trim_chars(&tcollapsed);
    let title = chars_to_string(&ttrimmed);
    // Abstract: from the opening keyword to the first section marker.
    let mut aparts: Vec<Vec<char>> = Vec::new();
    let mut started = false;
    let mut next_only = false;
    let mut k: usize = 0;
    proof {
        assert(aparts.deep_view() =~= Seq::<Seq<char>>::empty());
        assert(Seq::<Seq<char>>::empty() + s2_abs_scan(ld, 0, false, false) =~= s2_abs_scan(
            ld,
            0,
            false,
            false,
        ));
    }
    while k < n
        invariant_except_break
            s2_abs_scan(ld, 0, false, false) == aparts.deep_view() + s2_abs_scan(
                ld,
                k as int,
                started,
                next_only,
            ),
        invariant
            0 <= k <= n,
            n == ld.len(),
            n == kept@.len(),
            kept.deep_view() == ld,
        ensures
            s2_abs_scan(ld, 0, false, false) == aparts.deep_view(),
        decreases n - k,
    {
        let lc = line_chars(&kept, k);
        let t = trim_chars(&lc);
        let ghost ts = trim(ld[k as int]);
        let l = fold_lower_chars(&t);
        let abs_kw = str_chars("abstract");
        if !started && has_prefix_exec(&l, &abs_kw) {
            if chars_eq(&l, &abs_kw) {
                started = true;
                next_only = true;
                k += 1;
                continue;
            }
            let cleaned = s2_strip_exec(&t);
            if cleaned.len() > 0 {
                let ghost before = aparts.deep_view();
                aparts.push(cleaned);
                proof {
                    assert(aparts.deep_view() =~~= before.push(s2_strip(ts)));
                    assert(before.push(s2_strip(ts)) + s2_abs_scan(ld, k + 1 as int, true, false)
                        =~= before + (seq![s2_strip(ts)] + s2_abs_scan(
                        ld,
                        k + 1 as int,
                        true,
                        false,
                    )));
                }
            } else {
                proof {
                    assert(Seq::<Seq<char>>::empty() + s2_abs_scan(ld, k + 1 as int, true, false)
                        =~= s2_abs_scan(ld, k + 1 as int, true, false));
                }
            }
            started = true;
            next_only = false;
            k += 1;
            continue;
        }
        if next_only {
            if t.len() == 0 {
                next_only = false;
                k += 1;
                continue;
            }
            let ghost before = aparts.deep_view();
            aparts.push(t);
            proof {
                assert(aparts.deep_view() =~~= before.push(ts));
                assert(before.push(ts) + s2_abs_scan(ld, k + 1 as int, started, false) =~= before
                    + (seq![ts] + s2_abs_scan(ld, k + 1 as int, started, false)));
            }
            next_only = false;
            k += 1;
            continue;
        }
        if started {
            if s2_abs_stop_exec(&t) {
                proof {
                    assert(s2_abs_scan(ld, k as int, started, next_only)
                        =~= Seq::<Seq<char>>::empty());
                    assert(aparts.deep_view() + Seq::<Seq<char>>::empty() =~= aparts.deep_view());
                }
                break;
            }
            let ghost before = aparts.deep_view();
            aparts.push(t);
            proof {
                assert(aparts.deep_view() =~~= before.push(ts));
                assert(before.push(ts) + s2_abs_scan(ld, k + 1 as int, started, false) =~= before
                    + (seq![ts] + s2_abs_scan(ld, k + 1 as int, started, false)));
            }
            k += 1;
            continue;
        }
        k += 1;
    }
    let ajoined = join_chars(&aparts, &sep);
    let dehyph = remove_dash_space_exec(&ajoined);
    let no_nl = newline_to_space_exec(&dehyph);
    let acollapsed = collapse_double_chars(&no_nl);
    let asqueezed = collapse_ws_chars(&acollapsed);
    let abstract_text = chars_to_string(&asqueezed);
    let abstract_line_count = aparts.len();
    proof {
        assert(aparts.deep_view().len() == aparts@.len());
        assert(tparts.deep_view().len() == tparts@.len());
    }
    let file_name = underscore_filename(filename);
    let total = lines.len();
    (file_name, title, abstract_text, total, abstract_line_count)
}

} // verus!
