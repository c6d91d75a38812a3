//! The header grammar: generic matching machinery for the rule tables.
//!
//! Section headings arrive with unpredictable numbering, casing, punctuation
//! and even spaced-out letterforms ("R E F E R E N C E S"). Matching therefore
//! happens on a line's *letter skeleton*: its ASCII and Latin-1 letters folded
//! to lower case, with everything else dropped. A heading matches a keyword
//! when the skeleton of the line (or of the line with a leading section number
//! removed) starts with the keyword's skeleton. Stricter (equality) and looser
//! rules (word-boundary search, containment) are also stated here.

use vstd::prelude::*;

use crate::text::{
    alpha_char, digit_char, fold_char, fold_char_exec, has_prefix, is_alpha, is_digit,
    is_latin1_letter, is_space, latin1_letter_char, matches_at, matches_at_exec, space_char, trim,
    trim_chars,
};

verus! {

/// Characters kept by the letter skeleton: ASCII and Latin-1 letters
/// (accented letters survive, digits, punctuation and symbols do not).
pub open spec fn keeps_letter(c: char) -> bool {
    is_alpha(c) || is_latin1_letter(c)
}

/// The letter skeleton of a line: kept characters in order, folded to lower
/// case.
pub open spec fn letters_of(s: Seq<char>) -> Seq<char>
    decreases s.len(),
{
    if s.len() == 0 {
        Seq::empty()
    } else {
        letters_of(s.drop_last()) + if keeps_letter(s.last()) {
            seq![fold_char(s.last())]
        } else {
            Seq::empty()
        }
    }
}

/// Characters kept by the alphanumeric skeleton: ASCII and Latin-1 letters
/// and digits (punctuation and symbols are dropped).
pub open spec fn keeps_alnum(c: char) -> bool {
    is_alpha(c) || is_digit(c) || is_latin1_letter(c)
}

/// The alphanumeric skeleton of a line: letters (folded) and digits in
/// order, everything else dropped.
pub open spec fn alnum_of(s: Seq<char>) -> Seq<char>
    decreases s.len(),
{
    if s.len() == 0 {
        Seq::empty()
    } else {
        alnum_of(s.drop_last()) + if keeps_alnum(s.last()) {
            seq![fold_char(s.last())]
        } else {
            Seq::empty()
        }
    }
}

pub fn keeps_letter_exec(c: char) -> (r: bool)
    ensures
        r == keeps_letter(c),
{
    alpha_char(c) || latin1_letter_char(c)
}

pub fn keeps_alnum_exec(c: char) -> (r: bool)
    ensures
        r == keeps_alnum(c),
{
    alpha_char(c) || digit_char(c) || latin1_letter_char(c)
}

/// Computes the letter skeleton of a line.
pub fn letters_of_chars(v: &Vec<char>) -> (r: Vec<char>)
    ensures
        r@ == letters_of(v@),
{
    let n = v.len();
    let mut r: Vec<char> = Vec::new();
    let mut i: usize = 0;
    while i < n
        invariant
            0 <= i <= n,
            n == v@.len(),
            r@ == letters_of(v@.subrange(0, i as int)),
        decreases n - i,
    {
        if keeps_letter_exec(v[i]) {
            r.push(fold_char_exec(v[i]));
        }
        proof {
            let pre = v@.subrange(0, i + 1 as int);
            assert(pre.drop_last() =~= v@.subrange(0, i as int));
            assert(pre.last() == v@[i as int]);
            if keeps_letter(v@[i as int]) {
                assert(r@ =~= letters_of(pre.drop_last()) + seq![fold_char(pre.last())]);
            } else {
                assert(r@ =~= letters_of(pre.drop_last()) + Seq::<char>::empty());
            }
        }
        i += 1;
    }
    proof {
        assert(v@.subrange(0, n as int) =~= v@);
    }
    r
}

/// Computes the alphanumeric skeleton of a line.
pub fn alnum_of_chars(v: &Vec<char>) -> (r: Vec<char>)
    ensures
        r@ == alnum_of(v@),
{
    let n = v.len();
    let mut r: Vec<char> = Vec::new();
    let mut i: usize = 0;
    while i < n
        invariant
            0 <= i <= n,
            n == v@.len(),
            r@ == alnum_of(v@.subrange(0, i as int)),
        decreases n - i,
    {
        if keeps_alnum_exec(v[i]) {
            r.push(fold_char_exec(v[i]));
        }
        proof {
            let pre = v@.subrange(0, i + 1 as int);
            assert(pre.drop_last() =~= v@.subrange(0, i as int));
            assert(pre.last() == v@[i as int]);
            if keeps_alnum(v@[i as int]) {
                assert(r@ =~= alnum_of(pre.drop_last()) + seq![fold_char(pre.last())]);
            } else {
                assert(r@ =~= alnum_of(pre.drop_last()) + Seq::<char>::empty());
            }
        }
        i += 1;
    }
    proof {
        assert(v@.subrange(0, n as int) =~= v@);
    }
    r
}

/// A roman-numeral character, as allowed in section numbers.
pub open spec fn is_roman(c: char) -> bool {
    c == 'i' || c == 'v' || c == 'x' || c == 'l' || c == 'c' || c == 'I' || c == 'V' || c == 'X'
        || c == 'L' || c == 'C'
}

pub fn roman_char(c: char) -> (r: bool)
    ensures
        r == is_roman(c),
{
    c == 'i' || c == 'v' || c == 'x' || c == 'l' || c == 'c' || c == 'I' || c == 'V' || c == 'X'
        || c == 'L' || c == 'C'
}

/// The length of the longest prefix of digits.
pub open spec fn leading_digit_run(s: Seq<char>) -> int
    decreases s.len(),
{
    if s.len() > 0 && is_digit(s[0]) {
        1 + leading_digit_run(s.drop_first())
    } else {
        0
    }
}

/// The length of the longest prefix of roman-numeral characters.
pub open spec fn leading_roman_run(s: Seq<char>) -> int
    decreases s.len(),
{
    if s.len() > 0 && is_roman(s[0]) {
        1 + leading_roman_run(s.drop_first())
    } else {
        0
    }
}

proof fn lemma_digit_run_range(s: Seq<char>, a: int)
    requires
        0 <= a <= s.len(),
        forall|j: int| 0 <= j < a ==> is_digit(s[j]),
        a < s.len() ==> !is_digit(s[a]),
    ensures
        leading_digit_run(s) == a,
    decreases a,
{
    if a == 0 {
    } else {
        let t = s.drop_first();
        lemma_digit_run_range(t, a - 1);
    }
}

proof fn lemma_roman_run_range(s: Seq<char>, a: int)
    requires
        0 <= a <= s.len(),
        forall|j: int| 0 <= j < a ==> is_roman(s[j]),
        a < s.len() ==> !is_roman(s[a]),
    ensures
        leading_roman_run(s) == a,
    decreases a,
{
    if a == 0 {
    } else {
        let t = s.drop_first();
        lemma_roman_run_range(t, a - 1);
    }
}

/// Computes the leading digit run of a line.
pub fn digit_run_exec(v: &Vec<char>) -> (r: usize)
    ensures
        r == leading_digit_run(v@),
        r <= v@.len(),
{
    let n = v.len();
    let mut a: usize = 0;
    while a < n && digit_char(v[a])
        invariant
            0 <= a <= n,
            n == v@.len(),
            forall|j: int| 0 <= j < a ==> is_digit(v@[j]),
        decreases n - a,
    {
        a += 1;
    }
    proof {
        lemma_digit_run_range(v@, a as int);
    }
    a
}

/// Computes the leading roman-numeral run of a line.
pub fn roman_run_exec(v: &Vec<char>) -> (r: usize)
    ensures
        r == leading_roman_run(v@),
        r <= v@.len(),
{
    let n = v.len();
    let mut a: usize = 0;
    while a < n && roman_char(v[a])
        invariant
            0 <= a <= n,
            n == v@.len(),
            forall|j: int| 0 <= j < a ==> is_roman(v@[j]),
        decreases n - a,
    {
        a += 1;
    }
    proof {
        lemma_roman_run_range(v@, a as int);
    }
    a
}

/// A trimmed line with a leading section number removed: a run of digits or
/// roman numerals counts as a section number when it is followed by a period,
/// whitespace or the end of the line; an optional period after the run is
/// removed with it.
pub open spec fn strip_heading_number(t: Seq<char>) -> Seq<char> {
    let n = if t.len() > 0 && is_digit(t[0]) {
        leading_digit_run(t)
    } else {
        leading_roman_run(t)
    };
    if n >= 1 && (n == t.len() || t[n] == '.' || is_space(t[n])) {
        if n < t.len() && t[n] == '.' {
            t.skip(n + 1)
        } else {
            t.skip(n)
        }
    } else {
        t
    }
}

/// Removes a leading section number from a trimmed line.
pub fn strip_heading_number_exec(t: &Vec<char>) -> (r: Vec<char>)
    ensures
        r@ == strip_heading_number(t@),
{
    let len = t.len();
    let n = if len > 0 && digit_char(t[0]) {
        digit_run_exec(t)
    } else {
        roman_run_exec(t)
    };
    if n >= 1 && (n == len || t[n] == '.' || space_char(t[n])) {
        let from = if n < len && t[n] == '.' {
            n + 1
        } else {
            n
        };
        let mut r: Vec<char> = Vec::new();
        let mut i: usize = from;
        while i < len
            invariant
                from <= i <= len,
                len == t@.len(),
                r@ == t@.subrange(from as int, i as int),
            decreases len - i,
        {
            r.push(t[i]);
            proof {
                assert(r@ =~= t@.subrange(from as int, i + 1 as int));
            }
            i += 1;
        }
        proof {
            assert(t@.subrange(from as int, len as int) =~= t@.skip(from as int));
        }
        r
    } else {
        let mut r: Vec<char> = Vec::new();
        let mut i: usize = 0;
        while i < len
            invariant
                0 <= i <= len,
                len == t@.len(),
                r@ == t@.subrange(0, i as int),
            decreases len - i,
        {
            r.push(t[i]);
            proof {
                assert(r@ =~= t@.subrange(0, i + 1 as int));
            }
            i += 1;
        }
        proof {
            assert(t@.subrange(0, len as int) =~= t@);
        }
        r
    }
}

/// A word character for boundary checks: letters, digits and underscore.
pub open spec fn is_word_char(c: char) -> bool {
    is_alpha(c) || is_digit(c) || c == '_'
}

/// Whether `p` occurs in `s` at `i` with word boundaries on both sides.
pub open spec fn word_match_at(s: Seq<char>, p: Seq<char>, i: int) -> bool {
    &&& matches_at(s, p, i)
    &&& (i == 0 || !is_word_char(s[i - 1]))
    &&& (i + p.len() == s.len() || !is_word_char(s[i + p.len()]))
}

/// Whether `p` occurs anywhere in `s` as a whole word.
pub open spec fn word_match(s: Seq<char>, p: Seq<char>) -> bool {
    exists|i: int| word_match_at(s, p, i)
}

/// Searches `s` for `p` delimited by word boundaries.
pub fn word_match_exec(s: &Vec<char>, p: &Vec<char>) -> (r: bool)
    requires
        p@.len() >= 1,
    ensures
        r == word_match(s@, p@),
{
    let n = s.len();
    let m = p.len();
    if m > n {
        return false;
    }
    let last = n - m;
    let mut i: usize = 0;
    while i <= last
        invariant
            0 <= i <= last + 1,
            n == s@.len(),
            m == p@.len(),
            1 <= m <= n,
            last == n - m,
            forall|k: int| 0 <= k < i ==> !word_match_at(s@, p@, k),
        decreases last + 1 - i,
    {
        let hit = matches_at_exec(s, p, i);
        if hit {
            let left_ok = i == 0 || !{
                let c = s[i - 1];
                alpha_char(c) || digit_char(c) || c == '_'
            };
            let right_ok = i + m == n || !{
                let c = s[i + m];
                alpha_char(c) || digit_char(c) || c == '_'
            };
            if left_ok && right_ok {
                proof {
                    assert(word_match_at(s@, p@, i as int));
                }
                return true;
            }
        }
        i += 1;
    }
    false
}

/// Whether the letter skeleton of the trimmed line, or of the line with its
/// section number removed, starts with one of the keywords.
pub open spec fn heading_match(line: Seq<char>, kws: Seq<Seq<char>>) -> bool {
    let t = trim(line);
    exists|k: int|
        0 <= k < kws.len() && (has_prefix(letters_of(t), kws[k]) || has_prefix(
            letters_of(strip_heading_number(t)),
            kws[k],
        ))
}

/// Tests a line against a heading rule table.
pub fn heading_match_exec(line: &Vec<char>, kws: &Vec<Vec<char>>) -> (r: bool)
    ensures
        r == heading_match(line@, kws.deep_view()),
{
    let t = trim_chars(line);
    let whole = letters_of_chars(&t);
    let stripped_t = strip_heading_number_exec(&t);
    let stripped = letters_of_chars(&stripped_t);
    let n = kws.len();
    let ghost d = kws.deep_view();
    proof {
        assert(d.len() == kws@.len());
        assert forall|j: int| 0 <= j < d.len() implies #[trigger] d[j] == kws@[j]@ by {
            assert(d[j] =~= kws@[j]@);
        }
    }
    let mut k: usize = 0;
    while k < n
        invariant
            0 <= k <= n,
            n == kws@.len(),
            d == kws.deep_view(),
            d.len() == n,
            forall|j: int| 0 <= j < d.len() ==> #[trigger] d[j] == kws@[j]@,
            whole@ == letters_of(trim(line@)),
            stripped@ == letters_of(strip_heading_number(trim(line@))),
            forall|j: int|
                0 <= j < k ==> !(has_prefix(letters_of(trim(line@)), #[trigger] d[j]) || has_prefix(
                    letters_of(strip_heading_number(trim(line@))),
                    d[j],
                )),
        decreases n - k,
    {
        let kw = &kws[k];
        let hit = crate::text::has_prefix_exec(&whole, kw) || crate::text::has_prefix_exec(
            &stripped,
            kw,
        );
        if hit {
            proof {
                assert(d[k as int] == kws@[k as int]@);
                assert(has_prefix(letters_of(trim(line@)), d[k as int]) || has_prefix(
                    letters_of(strip_heading_number(trim(line@))),
                    d[k as int],
                ));
            }
            return true;
        }
        k += 1;
    }
    false
}

/// Whether the lower-cased line contains one of the keywords as a substring.
pub open spec fn contains_any(s: Seq<char>, kws: Seq<Seq<char>>) -> bool {
    exists|k: int| 0 <= k < kws.len() && crate::text::contains_seq(s, kws[k])
}

/// Tests a line against a containment rule table.
pub fn contains_any_exec(s: &Vec<char>, kws: &Vec<Vec<char>>) -> (r: bool)
    ensures
        r == contains_any(s@, kws.deep_view()),
{
    let n = kws.len();
    let ghost d = kws.deep_view();
    proof {
        assert forall|j: int| 0 <= j < d.len() implies #[trigger] d[j] == kws@[j]@ by {
            assert(d[j] =~= kws@[j]@);
        }
    }
    let mut k: usize = 0;
    while k < n
        invariant
            0 <= k <= n,
            n == kws@.len(),
            d == kws.deep_view(),
            d.len() == n,
            forall|j: int| 0 <= j < d.len() ==> #[trigger] d[j] == kws@[j]@,
            forall|j: int| 0 <= j < k ==> !crate::text::contains_seq(s@, #[trigger] d[j]),
        decreases n - k,
    {
        if crate::text::contains_seq_exec(s, &kws[k]) {
            proof {
                assert(d[k as int] == kws@[k as int]@);
                assert(crate::text::contains_seq(s@, d[k as int]));
            }
            return true;
        }
        k += 1;
    }
    false
}

/// Whether the line starts with one of the keywords.
pub open spec fn prefix_any(s: Seq<char>, kws: Seq<Seq<char>>) -> bool {
    exists|k: int| 0 <= k < kws.len() && has_prefix(s, kws[k])
}

/// Tests a line against a prefix rule table.
pub fn prefix_any_exec(s: &Vec<char>, kws: &Vec<Vec<char>>) -> (r: bool)
    ensures
        r == prefix_any(s@, kws.deep_view()),
{
    let n = kws.len();
    let ghost d = kws.deep_view();
    proof {
        assert forall|j: int| 0 <= j < d.len() implies #[trigger] d[j] == kws@[j]@ by {
            assert(d[j] =~= kws@[j]@);
        }
    }
    let mut k: usize = 0;
    while k < n
        invariant
            0 <= k <= n,
            n == kws@.len(),
            d == kws.deep_view(),
            d.len() == n,
            forall|j: int| 0 <= j < d.len() ==> #[trigger] d[j] == kws@[j]@,
            forall|j: int| 0 <= j < k ==> !has_prefix(s@, #[trigger] d[j]),
        decreases n - k,
    {
        if crate::text::has_prefix_exec(s, &kws[k]) {
            proof {
                assert(d[k as int] == kws@[k as int]@);
                assert(has_prefix(s@, d[k as int]));
            }
            return true;
        }
        k += 1;
    }
    false
}

/// Whether the line equals one of the keywords.
pub open spec fn eq_any(s: Seq<char>, kws: Seq<Seq<char>>) -> bool {
    exists|k: int| 0 <= k < kws.len() && s == kws[k]
}

/// Tests a line against an equality rule table.
pub fn eq_any_exec(s: &Vec<char>, kws: &Vec<Vec<char>>) -> (r: bool)
    ensures
        r == eq_any(s@, kws.deep_view()),
{
    let n = kws.len();
    let ghost d = kws.deep_view();
    proof {
        assert forall|j: int| 0 <= j < d.len() implies #[trigger] d[j] == kws@[j]@ by {
            assert(d[j] =~= kws@[j]@);
        }
    }
    let mut k: usize = 0;
    while k < n
        invariant
            0 <= k <= n,
            n == kws@.len(),
            d == kws.deep_view(),
            d.len() == n,
            forall|j: int| 0 <= j < d.len() ==> #[trigger] d[j] == kws@[j]@,
            forall|j: int| 0 <= j < k ==> s@ != #[trigger] d[j],
        decreases n - k,
    {
        if crate::text::chars_eq(s, &kws[k]) {
            proof {
                assert(s@ == d[k as int]);
            }
            return true;
        }
        k += 1;
    }
    false
}

/// Whether the lower-cased line contains one of the keywords as a whole word.
pub open spec fn word_any(s: Seq<char>, kws: Seq<Seq<char>>) -> bool {
    exists|k: int| 0 <= k < kws.len() && word_match(s, kws[k])
}

/// Tests a line against a word-boundary rule table.
pub fn word_any_exec(s: &Vec<char>, kws: &Vec<Vec<char>>) -> (r: bool)
    requires
        forall|k: int| 0 <= k < kws.deep_view().len() ==> #[trigger] kws.deep_view()[k].len() >= 1,
    ensures
        r == word_any(s@, kws.deep_view()),
{
    let n = kws.len();
    let ghost d = kws.deep_view();
    proof {
        assert forall|j: int| 0 <= j < d.len() implies #[trigger] d[j] == kws@[j]@ by {
            assert(d[j] =~= kws@[j]@);
        }
    }
    let mut k: usize = 0;
    while k < n
        invariant
            0 <= k <= n,
            n == kws@.len(),
            d == kws.deep_view(),
            d.len() == n,
            forall|j: int| 0 <= j < d.len() ==> #[trigger] d[j] == kws@[j]@,
            forall|j: int| 0 <= j < d.len() ==> #[trigger] d[j].len() >= 1,
            forall|j: int| 0 <= j < k ==> !word_match(s@, #[trigger] d[j]),
        decreases n - k,
    {
        proof {
            assert(d[k as int] == kws@[k as int]@);
            assert(d[k as int].len() >= 1);
        }
        if word_match_exec(s, &kws[k]) {
            proof {
                assert(word_match(s@, d[k as int]));
            }
            return true;
        }
        k += 1;
    }
    false
}

} // verus!
