//! Line normalization.
//!
//! `normalize_line` strips control characters and collapses whitespace runs:
//! a run of whitespace is replaced by a single space when it separates two
//! letters (so that words are not merged), and dropped otherwise. Leading and
//! trailing whitespace never survives. Normalization is idempotent, which is
//! proved in `lemma_normalize_idempotent`.

use vstd::prelude::*;

use crate::text::{
    alpha_char, chars_to_string, is_alpha, is_space, is_stripped_control, space_char, str_chars,
    stripped_control_char, trim, trim_chars,
};

verus! {

/// One pass over the line: `prev_alpha` records whether the last emitted
/// character was a letter, `seen_space` whether whitespace has been read since
/// then.
pub open spec fn norm_scan(s: Seq<char>, prev_alpha: bool, seen_space: bool) -> Seq<char>
    decreases s.len(),
{
    if s.len() == 0 {
        Seq::empty()
    } else if is_space(s[0]) {
        norm_scan(s.drop_first(), prev_alpha, true)
    } else if is_stripped_control(s[0]) {
        norm_scan(s.drop_first(), prev_alpha, seen_space)
    } else {
        let sep: Seq<char> = if prev_alpha && seen_space && is_alpha(s[0]) {
            seq![' ']
        } else {
            Seq::empty()
        };
        sep + seq![s[0]] + norm_scan(s.drop_first(), is_alpha(s[0]), false)
    }
}

/// The normalized form of a line: control characters removed, whitespace runs
/// collapsed to a single space between letters and dropped elsewhere.
pub open spec fn normalize_spec(s: Seq<char>) -> Seq<char> {
    norm_scan(s, false, false)
}

/// Normalizes a line before section-header matching.
pub fn normalize_line(line: &str) -> (r: String)
    ensures
        r@ == normalize_spec(line@),
{
    let v = str_chars(line);
    let r = normalize_chars(&v);
    chars_to_string(&r)
}

/// Normalizes a line of characters.
pub fn normalize_chars(v: &Vec<char>) -> (r: Vec<char>)
    ensures
        r@ == normalize_spec(v@),
{
    let n = v.len();
    let mut out: Vec<char> = Vec::new();
    let mut prev_alpha = false;
    let mut seen_space = false;
    let mut i: usize = 0;
    proof {
        assert(v@.skip(0) =~= v@);
        assert(out@ + norm_scan(v@, false, false) =~= norm_scan(v@, false, false));
    }
    while i < n
        invariant
            0 <= i <= n,
            n == v@.len(),
            out@ + norm_scan(v@.skip(i as int), prev_alpha, seen_space) == normalize_spec(v@),
        decreases n - i,
    {
        let c = v[i];
        proof {
            assert(v@.skip(i as int).drop_first() =~= v@.skip(i + 1 as int));
            assert(v@.skip(i as int)[0] == v@[i as int]);
        }
        if space_char(c) {
            seen_space = true;
        } else if stripped_control_char(c) {
        } else {
            if prev_alpha && seen_space && alpha_char(c) {
                out.push(' ');
            }
            out.push(c);
            prev_alpha = alpha_char(c);
            seen_space = false;
        }
        i += 1;
    }
    proof {
        assert(v@.skip(n as int) =~= Seq::<char>::empty());
        assert(out@ + Seq::<char>::empty() =~= out@);
    }
    out
}

/// Shape of normalized output: no control characters, every whitespace
/// character is a single space standing between two letters.
proof fn lemma_norm_shape(s: Seq<char>, prev_alpha: bool, seen_space: bool)
    ensures
        ({
            let r = norm_scan(s, prev_alpha, seen_space);
            &&& forall|i: int| 0 <= i < r.len() ==> !is_stripped_control(#[trigger] r[i])
            &&& forall|i: int|
                0 <= i < r.len() && is_space(#[trigger] r[i]) ==> {
                    &&& r[i] == ' '
                    &&& i + 1 < r.len() && is_alpha(r[i + 1])
                    &&& (i > 0 ==> is_alpha(r[i - 1]))
                    &&& (i == 0 ==> prev_alpha)
                }
        }),
    decreases s.len(),
{
    if s.len() == 0 {
        assert(norm_scan(s, prev_alpha, seen_space).len() == 0);
    } else if is_space(s[0]) {
        lemma_norm_shape(s.drop_first(), prev_alpha, true);
        assert(norm_scan(s, prev_alpha, seen_space) == norm_scan(s.drop_first(), prev_alpha, true));
    } else if is_stripped_control(s[0]) {
        lemma_norm_shape(s.drop_first(), prev_alpha, seen_space);
        assert(norm_scan(s, prev_alpha, seen_space) == norm_scan(
            s.drop_first(),
            prev_alpha,
            seen_space,
        ));
    } else {
        let c = s[0];
        let tail = norm_scan(s.drop_first(), is_alpha(c), false);
        lemma_norm_shape(s.drop_first(), is_alpha(c), false);
        let r = norm_scan(s, prev_alpha, seen_space);
        let sep: Seq<char> = if prev_alpha && seen_space && is_alpha(c) {
            seq![' ']
        } else {
            Seq::empty()
        };
        assert(r =~= sep + seq![c] + tail);
        assert forall|i: int| 0 <= i < r.len() implies !is_stripped_control(#[trigger] r[i]) by {
            let off = sep.len() + 1;
            if i >= off {
                assert(r[i] == tail[i - off]);
            } else if i == sep.len() {
                assert(r[i] == c);
            } else {
                assert(r[i] == ' ');
            }
        }
        assert forall|i: int| 0 <= i < r.len() && is_space(#[trigger] r[i]) implies {
            &&& r[i] == ' '
            &&& i + 1 < r.len() && is_alpha(r[i + 1])
            &&& (i > 0 ==> is_alpha(r[i - 1]))
            &&& (i == 0 ==> prev_alpha)
        } by {
            let off = sep.len() + 1;
            if i >= off {
                assert(r[i] == tail[i - off]);
                assert(is_space(tail[i - off]));
                if i - off == 0 {
                    assert(r[i - 1] == c);
                    assert(is_alpha(c));
                    assert(tail[1] == r[i + 1]);
                } else {
                    assert(tail[i - off - 1] == r[i - 1]);
                    assert(tail[i - off + 1] == r[i + 1]);
                }
            } else if i == sep.len() {
                assert(r[i] == c);
                assert(!is_space(c));
            } else {
                assert(sep.len() == 1 && i == 0);
                assert(is_alpha(c));
                assert(r[1] == c);
            }
        }
    }
}

/// A sequence already in normalized shape is left unchanged by another pass.
proof fn lemma_norm_fix(r: Seq<char>, prev_alpha: bool)
    requires
        forall|i: int| 0 <= i < r.len() ==> !is_stripped_control(#[trigger] r[i]),
        forall|i: int|
            0 <= i < r.len() && is_space(#[trigger] r[i]) ==> {
                &&& r[i] == ' '
                &&& i + 1 < r.len() && is_alpha(r[i + 1])
                &&& (i > 0 ==> is_alpha(r[i - 1]))
            },
        r.len() > 0 && is_space(r[0]) ==> prev_alpha,
    ensures
        norm_scan(r, prev_alpha, false) == r,
    decreases r.len(),
{
    if r.len() == 0 {
    } else if is_space(r[0]) {
        let r1 = r.drop_first();
        assert(is_alpha(r[1]));
        assert(r1[0] == r[1]);
        assert(norm_scan(r, prev_alpha, false) == norm_scan(r1, prev_alpha, true));
        let r2 = r1.drop_first();
        assert(norm_scan(r1, prev_alpha, true) == seq![' '] + seq![r1[0]] + norm_scan(
            r2,
            is_alpha(r1[0]),
            false,
        ));
        assert forall|i: int| 0 <= i < r2.len() && is_space(#[trigger] r2[i]) implies {
            &&& r2[i] == ' '
            &&& i + 1 < r2.len() && is_alpha(r2[i + 1])
            &&& (i > 0 ==> is_alpha(r2[i - 1]))
        } by {
            assert(r2[i] == r[i + 2]);
            assert(is_alpha(r[i + 3]));
            if i > 0 {
                assert(r2[i - 1] == r[i + 1]);
            }
        }
        assert(forall|i: int| 0 <= i < r2.len() ==> r2[i] == r[i + 2]);
        if r2.len() > 0 && is_space(r2[0]) {
            assert(is_alpha(r[1]));
        }
        lemma_norm_fix(r2, is_alpha(r1[0]));
        assert(seq![' '] + seq![r1[0]] + r2 =~= r);
    } else {
        let r1 = r.drop_first();
        assert(norm_scan(r, prev_alpha, false) == seq![r[0]] + norm_scan(r1, is_alpha(r[0]), false));
        assert forall|i: int| 0 <= i < r1.len() && is_space(#[trigger] r1[i]) implies {
            &&& r1[i] == ' '
            &&& i + 1 < r1.len() && is_alpha(r1[i + 1])
            &&& (i > 0 ==> is_alpha(r1[i - 1]))
        } by {
            assert(r1[i] == r[i + 1]);
            assert(is_alpha(r[i + 2]));
            if i > 0 {
                assert(r1[i - 1] == r[i]);
            }
        }
        assert(forall|i: int| 0 <= i < r1.len() ==> r1[i] == r[i + 1]);
        if r1.len() > 0 && is_space(r1[0]) {
            assert(is_alpha(r[0]));
        }
        lemma_norm_fix(r1, is_alpha(r[0]));
        assert(seq![r[0]] + r1 =~= r);
    }
}

/// Normalization is idempotent: a second pass over an already normalized line
/// changes nothing.
pub proof fn lemma_normalize_idempotent(s: Seq<char>)
    ensures
        normalize_spec(normalize_spec(s)) == normalize_spec(s),
{
    let r = normalize_spec(s);
    lemma_norm_shape(s, false, false);
    if r.len() > 0 && is_space(r[0]) {
        assert(false);
    }
    lemma_norm_fix(r, false);
}

/// One pass that rebuilds the line from its whitespace-separated words:
/// `started` records whether a word has been emitted, `pending` whether
/// whitespace has been read since.
pub open spec fn squeeze_scan(s: Seq<char>, started: bool, pending: bool) -> Seq<char>
    decreases s.len(),
{
    if s.len() == 0 {
        Seq::empty()
    } else if is_space(s[0]) {
        squeeze_scan(s.drop_first(), started, true)
    } else {
        let sep: Seq<char> = if started && pending {
            seq![' ']
        } else {
            Seq::empty()
        };
        sep + seq![s[0]] + squeeze_scan(s.drop_first(), true, false)
    }
}

/// The line with every whitespace run collapsed to one space and outer
/// whitespace dropped: its words joined by single spaces.
pub open spec fn collapse_ws(s: Seq<char>) -> Seq<char> {
    squeeze_scan(s, false, false)
}

/// Collapses whitespace runs to single spaces, dropping leading and trailing
/// whitespace.
pub fn collapse_ws_chars(v: &Vec<char>) -> (r: Vec<char>)
    ensures
        r@ == collapse_ws(v@),
{
    let n = v.len();
    let mut out: Vec<char> = Vec::new();
    let mut started = false;
    let mut pending = false;
    let mut i: usize = 0;
    proof {
        assert(v@.skip(0) =~= v@);
        assert(out@ + squeeze_scan(v@, false, false) =~= squeeze_scan(v@, false, false));
    }
    while i < n
        invariant
            0 <= i <= n,
            n == v@.len(),
            out@ + squeeze_scan(v@.skip(i as int), started, pending) == collapse_ws(v@),
        decreases n - i,
    {
        let c = v[i];
        proof {
            assert(v@.skip(i as int).drop_first() =~= v@.skip(i + 1 as int));
            assert(v@.skip(i as int)[0] == v@[i as int]);
        }
        if space_char(c) {
            pending = true;
        } else {
            if started && pending {
                out.push(' ');
            }
            out.push(c);
            started = true;
            pending = false;
        }
        i += 1;
    }
    proof {
        assert(v@.skip(n as int) =~= Seq::<char>::empty());
        assert(out@ + Seq::<char>::empty() =~= out@);
    }
    out
}

/// One left-to-right pass replacing each non-overlapping pair of spaces by a
/// single space.
pub open spec fn collapse_double(s: Seq<char>) -> Seq<char>
    decreases s.len(),
{
    if s.len() >= 2 && s[0] == ' ' && s[1] == ' ' {
        seq![' '] + collapse_double(s.skip(2))
    } else if s.len() >= 1 {
        seq![s[0]] + collapse_double(s.drop_first())
    } else {
        Seq::empty()
    }
}

/// Replaces each pair of spaces by a single space, left to right.
pub fn collapse_double_chars(v: &Vec<char>) -> (r: Vec<char>)
    ensures
        r@ == collapse_double(v@),
{
    let n = v.len();
    let mut out: Vec<char> = Vec::new();
    let mut i: usize = 0;
    proof {
        assert(v@.skip(0) =~= v@);
        assert(out@ + collapse_double(v@) =~= collapse_double(v@));
    }
    while i < n
        invariant
            0 <= i <= n,
            n == v@.len(),
            out@ + collapse_double(v@.skip(i as int)) == collapse_double(v@),
        decreases n - i,
    {
        proof {
            assert(v@.skip(i as int).drop_first() =~= v@.skip(i + 1 as int));
            if i + 2 <= n {
                assert(v@.skip(i as int).skip(2) =~= v@.skip(i + 2 as int));
                assert(v@.skip(i as int)[1] == v@[i + 1]);
            }
            assert(v@.skip(i as int)[0] == v@[i as int]);
        }
        if i + 1 < n && v[i] == ' ' && v[i + 1] == ' ' {
            out.push(' ');
            i += 2;
        } else {
            out.push(v[i]);
            i += 1;
        }
    }
    proof {
        assert(v@.skip(n as int) =~= Seq::<char>::empty());
        assert(out@ + Seq::<char>::empty() =~= out@);
    }
    out
}

/// Affiliation markers and footnote signs that are blanked out of author
/// strings.
pub open spec fn clean_char(c: char) -> char {
    if c == '1' || c == '2' || c == '\u{2020}' || c == '*' || c == '\u{2217}' || c == '\\' {
        ' '
    } else {
        c
    }
}

/// An author or affiliation string with footnote markers blanked, double
/// spaces collapsed and the ends trimmed.
pub open spec fn clean_spec(s: Seq<char>) -> Seq<char> {
    trim(collapse_double(s.map_values(|c: char| clean_char(c))))
}

/// Cleans an author or affiliation string of footnote markers.
pub fn clean_string(input: &str) -> (r: String)
    ensures
        r@ == clean_spec(input@),
{
    let v = str_chars(input);
    let n = v.len();
    let mut mapped: Vec<char> = Vec::new();
    let mut i: usize = 0;
    while i < n
        invariant
            0 <= i <= n,
            n == v@.len(),
            mapped@ == v@.subrange(0, i as int).map_values(|c: char| clean_char(c)),
        decreases n - i,
    {
        let c = v[i];
        if c == '1' || c == '2' || c == '\u{2020}' || c == '*' || c == '\u{2217}' || c == '\\' {
            mapped.push(' ');
        } else {
            mapped.push(c);
        }
        proof {
            assert(mapped@ =~= v@.subrange(0, i + 1 as int).map_values(|c: char| clean_char(c)));
        }
        i += 1;
    }
    proof {
        assert(v@.subrange(0, n as int) =~= v@);
    }
    let collapsed = collapse_double_chars(&mapped);
    let trimmed = trim_chars(&collapsed);
    chars_to_string(&trimmed)
}

} // verus!
