//! The rule tables of every pipeline stage.
//!
//! Each stage's heuristics are a fixed table of keywords together with a
//! matching rule (containment, prefix, heading, word boundary or equality)
//! from `patterns`. Every executable matcher returns exactly what its spec
//! rule states.

use vstd::prelude::*;

use crate::patterns::{
    alnum_of, alnum_of_chars, contains_any, contains_any_exec, eq_any, eq_any_exec, heading_match,
    heading_match_exec, is_roman, leading_digit_run, leading_roman_run, letters_of,
    letters_of_chars, prefix_any, digit_run_exec, prefix_any_exec, roman_char, roman_run_exec,
    word_any, word_any_exec, word_match, word_match_exec,
};
use crate::text::{
    alpha_char, append_char, push_all, copy_range, contains_char, contains_char_exec, contains_seq, contains_seq_exec,
    digit_char, fold_lower, fold_lower_chars, has_prefix, has_prefix_exec, is_alpha, is_digit,
    is_lower, is_space, is_upper, space_char, str_chars, trim, trim_chars, trim_front, trim_front_chars, upper_char,
    upper_word_count, count_words, chars_eq,
};

verus! {

// ---------------------------------------------------------------------------
// Title stage
// ---------------------------------------------------------------------------
/// Boilerplate words that mark a journal header line, matched anywhere in the
/// lower-cased line.
pub open spec fn title_noise_words() -> Seq<Seq<char>> {
    seq![
        "journal"@,
        "volume"@,
        "submitted"@,
        "published"@,
        "copyright"@,
        "doi"@,
        "issn"@,
        "arxiv"@,
    ]
}

pub fn title_noise_table() -> (t: Vec<Vec<char>>)
    ensures
        t.deep_view() == title_noise_words(),
{
    let mut t: Vec<Vec<char>> = Vec::new();
    t.push(str_chars("journal"));
    t.push(str_chars("volume"));
    t.push(str_chars("submitted"));
    t.push(str_chars("published"));
    t.push(str_chars("copyright"));
    t.push(str_chars("doi"));
    t.push(str_chars("issn"));
    t.push(str_chars("arxiv"));
    proof {
        assert forall|j: int| 0 <= j < t.deep_view().len() implies #[trigger] t.deep_view()[j]
            == t@[j]@ by {
            assert(t.deep_view()[j] =~= t@[j]@);
        }
        assert(t.deep_view() =~= title_noise_words());
    }
    t
}

/// A date-like prefix: two digits, a slash, two digits.
pub open spec fn starts_date_slash(t: Seq<char>) -> bool {
    t.len() >= 5 && is_digit(t[0]) && is_digit(t[1]) && t[2] == '/' && is_digit(t[3]) && is_digit(
        t[4],
    )
}

/// A line holding only digits, slashes, semicolons and whitespace: a page
/// number or date line.
pub open spec fn all_numeric_punct(t: Seq<char>) -> bool {
    forall|j: int|
        0 <= j < t.len() ==> is_digit(#[trigger] t[j]) || t[j] == '/' || t[j] == ';' || is_space(
            t[j],
        )
}

/// A line the title stage skips: blank, journal boilerplate, date-like, an
/// email address, or digits and punctuation only.
pub open spec fn is_title_noise(line: Seq<char>) -> bool {
    let t = trim(line);
    ||| t.len() == 0
    ||| contains_any(fold_lower(t), title_noise_words())
    ||| starts_date_slash(t)
    ||| contains_char(t, '@')
    ||| all_numeric_punct(t)
}

/// Tests whether the title stage skips this line as noise.
pub fn title_noise_exec(line: &Vec<char>) -> (r: bool)
    ensures
        r == is_title_noise(line@),
{
    let t = trim_chars(line);
    if t.len() == 0 {
        return true;
    }
    let lower = fold_lower_chars(&t);
    let table = title_noise_table();
    if contains_any_exec(&lower, &table) {
        return true;
    }
    if t.len() >= 5 && digit_char(t[0]) && digit_char(t[1]) && t[2] == '/' && digit_char(t[3])
        && digit_char(t[4]) {
        return true;
    }
    if contains_char_exec(&t, '@') {
        return true;
    }
    all_numeric_punct_exec(&t)
}

/// Tests whether a trimmed line holds only digits, slashes, semicolons and
/// whitespace.
pub fn all_numeric_punct_exec(t: &Vec<char>) -> (r: bool)
    ensures
        r == all_numeric_punct(t@),
{
    let n = t.len();
    let mut j: usize = 0;
    while j < n
        invariant
            0 <= j <= n,
            n == t@.len(),
            forall|k: int|
                0 <= k < j ==> is_digit(#[trigger] t@[k]) || t@[k] == '/' || t@[k] == ';'
                    || is_space(t@[k]),
        decreases n - j,
    {
        let c = t[j];
        if !(digit_char(c) || c == '/' || c == ';' || space_char(c)) {
            return false;
        }
        j += 1;
    }
    true
}

/// A follow-on line that looks like an author list rather than a wrapped
/// title: a comma, the word "and", a university, or an email sign.
pub open spec fn is_author_like(t: Seq<char>) -> bool {
    ||| contains_char(t, ',')
    ||| contains_seq(t, " and "@)
    ||| contains_seq(fold_lower(t), "university"@)
    ||| contains_char(t, '@')
}

/// Tests whether a trimmed line looks like an author list.
pub fn author_like_exec(t: &Vec<char>) -> (r: bool)
    ensures
        r == is_author_like(t@),
{
    if contains_char_exec(t, ',') {
        return true;
    }
    let and_word = str_chars(" and ");
    if contains_seq_exec(t, &and_word) {
        return true;
    }
    let lower = fold_lower_chars(t);
    let uni = str_chars("university");
    if contains_seq_exec(&lower, &uni) {
        return true;
    }
    contains_char_exec(t, '@')
}

// ---------------------------------------------------------------------------
// Author stage
// ---------------------------------------------------------------------------
/// A line at which the author scan stops: running text or a section start.
pub open spec fn is_authors_stop(t: Seq<char>) -> bool {
    let l = fold_lower(t);
    contains_seq(l, "abstract"@) || contains_seq(l, "introduction"@) || has_prefix(l, "1 "@)
}

/// Tests whether the author scan stops at this trimmed line.
pub fn authors_stop_exec(t: &Vec<char>) -> (r: bool)
    ensures
        r == is_authors_stop(t@),
{
    let l = fold_lower_chars(t);
    let a = str_chars("abstract");
    if contains_seq_exec(&l, &a) {
        return true;
    }
    let b = str_chars("introduction");
    if contains_seq_exec(&l, &b) {
        return true;
    }
    let c = str_chars("1 ");
    has_prefix_exec(&l, &c)
}

/// A line that reads as body prose: it starts with a lower-case letter, has
/// no email sign, and fewer than two capitalized words.
pub open spec fn is_likely_prose(t: Seq<char>) -> bool {
    t.len() > 0 && is_lower(t[0]) && !contains_char(t, '@') && upper_word_count(t) < 2
}

/// Tests whether a trimmed line reads as body prose.
pub fn likely_prose_exec(t: &Vec<char>) -> (r: bool)
    ensures
        r == is_likely_prose(t@),
{
    if t.len() == 0 {
        return false;
    }
    let c = t[0];
    let starts_lower = {
        let u = c as u32;
        97 <= u && u <= 122
    };
    if !starts_lower {
        return false;
    }
    if contains_char_exec(t, '@') {
        return false;
    }
    let (_, uppers) = count_words(t);
    uppers < 2
}

// ---------------------------------------------------------------------------
// Abstract stage
// ---------------------------------------------------------------------------
/// The keywords that open an abstract.
pub open spec fn abstract_keywords() -> Seq<Seq<char>> {
    seq!["abstract"@, "r\u{e9}sum\u{e9}"@, "summary"@, "executive summary"@]
}

pub fn abstract_keyword_table() -> (t: Vec<Vec<char>>)
    ensures
        t.deep_view() == abstract_keywords(),
{
    let mut t: Vec<Vec<char>> = Vec::new();
    t.push(str_chars("abstract"));
    t.push(str_chars("r\u{e9}sum\u{e9}"));
    t.push(str_chars("summary"));
    t.push(str_chars("executive summary"));
    proof {
        assert forall|j: int| 0 <= j < t.deep_view().len() implies #[trigger] t.deep_view()[j]
            == t@[j]@ by {
            assert(t.deep_view()[j] =~= t@[j]@);
        }
        assert(t.deep_view() =~= abstract_keywords());
    }
    t
}

/// A line that opens the abstract: a keyword alone, or a keyword followed by
/// an em dash or a colon.
pub open spec fn is_abstract_start(t: Seq<char>) -> bool {
    exists|k: int|
        0 <= k < abstract_keywords().len() && {
            let kw = #[trigger] abstract_keywords()[k];
            let l = fold_lower(t);
            l == kw || has_prefix(l, kw.push('\u{2014}')) || has_prefix(l, kw.push(':'))
        }
}

/// Tests whether a trimmed line opens the abstract.
pub fn abstract_start_exec(t: &Vec<char>) -> (r: bool)
    ensures
        r == is_abstract_start(t@),
{
    let l = fold_lower_chars(t);
    let table = abstract_keyword_table();
    let ghost d = table.deep_view();
    let n = table.len();
    proof {
        assert forall|j: int| 0 <= j < d.len() implies #[trigger] d[j] == table@[j]@ by {
            assert(d[j] =~= table@[j]@);
        }
    }
    let mut k: usize = 0;
    while k < n
        invariant
            0 <= k <= n,
            n == table@.len(),
            d == table.deep_view(),
            d == abstract_keywords(),
            d.len() == n,
            forall|j: int| 0 <= j < d.len() ==> #[trigger] d[j] == table@[j]@,
            l@ == fold_lower(t@),
            forall|j: int|
                0 <= j < k ==> !{
                    let kw = #[trigger] d[j];
                    let low = fold_lower(t@);
                    low == kw || has_prefix(low, kw.push('\u{2014}')) || has_prefix(
                        low,
                        kw.push(':'),
                    )
                },
        decreases n - k,
    {
        let kw = &table[k];
        let dash = append_char(kw, '\u{2014}');
        let colon = append_char(kw, ':');
        proof {
            assert(dash@ == d[k as int].push('\u{2014}'));
            assert(colon@ == d[k as int].push(':'));
        }
        if chars_eq(&l, kw) || has_prefix_exec(&l, &dash) || has_prefix_exec(&l, &colon) {
            return true;
        }
        k += 1;
    }
    false
}

/// A keyword with a following separator (em dash, colon or hyphen) removed
/// from the head of the line, with the remainder's leading whitespace
/// dropped; a line that does not open with the keyword is unchanged.
pub open spec fn strip_abstract_kw(c: Seq<char>, kw: Seq<char>) -> Seq<char> {
    if has_prefix(fold_lower(c), kw.push('\u{2014}')) || has_prefix(fold_lower(c), kw.push(':'))
        || has_prefix(fold_lower(c), kw.push('-')) {
        trim_front(c.skip(kw.len() + 1 as int))
    } else {
        c
    }
}

/// The abstract's first line with each opening keyword and its separator
/// removed, in table order.
pub open spec fn abstract_strip(t: Seq<char>) -> Seq<char> {
    strip_abstract_kw(
        strip_abstract_kw(
            strip_abstract_kw(strip_abstract_kw(t, abstract_keywords()[0]), abstract_keywords()[1]),
            abstract_keywords()[2],
        ),
        abstract_keywords()[3],
    )
}

/// Removes one keyword-and-separator prefix from the line.
fn strip_abstract_kw_exec(c: Vec<char>, kw: &Vec<char>) -> (r: Vec<char>)
    ensures
        r@ == strip_abstract_kw(c@, kw@),
{
    let l = fold_lower_chars(&c);
    let dash = append_char(kw, '\u{2014}');
    let colon = append_char(kw, ':');
    let hyphen = append_char(kw, '-');
    proof {
        assert(l@.len() == c@.len());
    }
    if has_prefix_exec(&l, &dash) || has_prefix_exec(&l, &colon) || has_prefix_exec(&l, &hyphen) {
        let n = c.len();
        proof {
            assert(dash@.len() == kw@.len() + 1);
            assert(kw@.len() + 1 <= c@.len());
        }
        let from = kw.len() + 1;
        let mut rest: Vec<char> = Vec::new();
        let mut i: usize = from;
        while i < n
            invariant
                from <= i <= n,
                n == c@.len(),
                rest@ == c@.subrange(from as int, i as int),
            decreases n - i,
        {
            rest.push(c[i]);
            proof {
                assert(rest@ =~= c@.subrange(from as int, i + 1 as int));
            }
            i += 1;
        }
        proof {
            assert(c@.subrange(from as int, n as int) =~= c@.skip(from as int));
        }
        trim_front_chars(&rest)
    } else {
        c
    }
}

/// Removes every opening abstract keyword from the line, in table order.
pub fn abstract_strip_exec(t: &Vec<char>) -> (r: Vec<char>)
    ensures
        r@ == abstract_strip(t@),
{
    let kw0 = str_chars("abstract");
    let kw1 = str_chars("r\u{e9}sum\u{e9}");
    let kw2 = str_chars("summary");
    let kw3 = str_chars("executive summary");
    let mut start: Vec<char> = Vec::new();
    push_all(&mut start, t);
    proof {
        assert(start@ =~= t@);
    }
    let c0 = strip_abstract_kw_exec(start, &kw0);
    let c1 = strip_abstract_kw_exec(c0, &kw1);
    let c2 = strip_abstract_kw_exec(c1, &kw2);
    strip_abstract_kw_exec(c2, &kw3)
}

/// The section markers that end the abstract.
pub open spec fn abstract_stop_words() -> Seq<Seq<char>> {
    seq![
        "introduction"@,
        "keywords"@,
        "index terms"@,
        "1."@,
        "i."@,
        "1 introduction"@,
        "1. introduction"@,
    ]
}

pub fn abstract_stop_table() -> (t: Vec<Vec<char>>)
    ensures
        t.deep_view() == abstract_stop_words(),
{
    let mut t: Vec<Vec<char>> = Vec::new();
    t.push(str_chars("introduction"));
    t.push(str_chars("keywords"));
    t.push(str_chars("index terms"));
    t.push(str_chars("1."));
    t.push(str_chars("i."));
    t.push(str_chars("1 introduction"));
    t.push(str_chars("1. introduction"));
    proof {
        assert forall|j: int| 0 <= j < t.deep_view().len() implies #[trigger] t.deep_view()[j]
            == t@[j]@ by {
            assert(t.deep_view()[j] =~= t@[j]@);
        }
        assert(t.deep_view() =~= abstract_stop_words());
    }
    t
}

/// A line at which the abstract scan stops.
pub open spec fn is_abstract_stop(t: Seq<char>) -> bool {
    prefix_any(fold_lower(t), abstract_stop_words())
}

/// Tests whether a trimmed line ends the abstract.
pub fn abstract_stop_exec(t: &Vec<char>) -> (r: bool)
    ensures
        r == is_abstract_stop(t@),
{
    let l = fold_lower_chars(t);
    let table = abstract_stop_table();
    prefix_any_exec(&l, &table)
}

/// A fallback abstract candidate: a long unbroken line that is not itself an
/// introduction heading.
pub open spec fn is_abstract_fallback(t: Seq<char>) -> bool {
    t.len() > 100 && !contains_seq(fold_lower(t), "introduction"@)
}

/// Tests whether a trimmed line can serve as the fallback abstract.
pub fn abstract_fallback_exec(t: &Vec<char>) -> (r: bool)
    ensures
        r == is_abstract_fallback(t@),
{
    if t.len() <= 100 {
        return false;
    }
    let l = fold_lower_chars(t);
    let intro = str_chars("introduction");
    !contains_seq_exec(&l, &intro)
}

// ---------------------------------------------------------------------------
// Introduction stage
// ---------------------------------------------------------------------------
/// Characters removed from the head of a candidate introduction heading:
/// digits, periods and the letter I in either case (a garbled roman numeral).
pub open spec fn is_intro_prefix_char(c: char) -> bool {
    is_digit(c) || c == '.' || c == 'I' || c == 'i'
}

/// The line with its leading numbering characters removed.
pub open spec fn strip_intro_chars(s: Seq<char>) -> Seq<char>
    decreases s.len(),
{
    if s.len() > 0 && is_intro_prefix_char(s[0]) {
        strip_intro_chars(s.drop_first())
    } else {
        s
    }
}

proof fn lemma_strip_intro_suffix(s: Seq<char>, a: int)
    requires
        0 <= a <= s.len(),
        forall|j: int| 0 <= j < a ==> is_intro_prefix_char(s[j]),
        a < s.len() ==> !is_intro_prefix_char(s[a]),
    ensures
        strip_intro_chars(s) == s.subrange(a, s.len() as int),
    decreases a,
{
    if a == 0 {
        assert(s.subrange(0, s.len() as int) =~= s);
    } else {
        let t = s.drop_first();
        lemma_strip_intro_suffix(t, a - 1);
        assert(t.subrange(a - 1, t.len() as int) =~= s.subrange(a, s.len() as int));
    }
}

/// The line with its whitespace removed.
pub open spec fn remove_ws(s: Seq<char>) -> Seq<char>
    decreases s.len(),
{
    if s.len() == 0 {
        Seq::empty()
    } else {
        remove_ws(s.drop_last()) + if is_space(s.last()) {
            Seq::<char>::empty()
        } else {
            seq![s.last()]
        }
    }
}

/// Removes the whitespace of a line.
pub fn remove_ws_chars(v: &Vec<char>) -> (r: Vec<char>)
    ensures
        r@ == remove_ws(v@),
{
    let n = v.len();
    let mut r: Vec<char> = Vec::new();
    let mut i: usize = 0;
    while i < n
        invariant
            0 <= i <= n,
            n == v@.len(),
            r@ == remove_ws(v@.subrange(0, i as int)),
        decreases n - i,
    {
        if !space_char(v[i]) {
            r.push(v[i]);
        }
        proof {
            let pre = v@.subrange(0, i + 1 as int);
            assert(pre.drop_last() =~= v@.subrange(0, i as int));
            assert(pre.last() == v@[i as int]);
            if is_space(v@[i as int]) {
                assert(r@ =~= remove_ws(pre.drop_last()) + Seq::<char>::empty());
            } else {
                assert(r@ =~= remove_ws(pre.drop_last()) + seq![pre.last()]);
            }
        }
        i += 1;
    }
    proof {
        assert(v@.subrange(0, n as int) =~= v@);
    }
    r
}

/// An introduction heading: the trimmed line, with leading numbering removed
/// and whitespace dropped, contains "introduction" when lower-cased, or is
/// exactly the garbled form "ntroduction".
pub open spec fn is_intro_heading(line: Seq<char>) -> bool {
    let u = fold_lower(remove_ws(strip_intro_chars(trim(line))));
    contains_seq(u, "introduction"@) || u == "ntroduction"@
}

pub fn intro_prefix_char_exec(c: char) -> (r: bool)
    ensures
        r == is_intro_prefix_char(c),
{
    digit_char(c) || c == '.' || c == 'I' || c == 'i'
}

/// Tests whether a line starts the introduction.
pub fn intro_heading_exec(line: &Vec<char>) -> (r: bool)
    ensures
        r == is_intro_heading(line@),
{
    let t = trim_chars(line);
    let len = t.len();
    let mut a: usize = 0;
    while a < len && intro_prefix_char_exec(t[a])
        invariant
            0 <= a <= len,
            len == t@.len(),
            forall|j: int| 0 <= j < a ==> is_intro_prefix_char(t@[j]),
        decreases len - a,
    {
        a += 1;
    }
    proof {
        lemma_strip_intro_suffix(t@, a as int);
    }
    let stripped = copy_range(&t, a, len);
    proof {
        assert(stripped@ =~= strip_intro_chars(t@));
    }
    let no_ws = remove_ws_chars(&stripped);
    let u = fold_lower_chars(&no_ws);
    let intro = str_chars("introduction");
    if contains_seq_exec(&u, &intro) {
        return true;
    }
    let garbled = str_chars("ntroduction");
    chars_eq(&u, &garbled)
}

/// The boilerplate sentence that unconditionally ends the introduction.
pub open spec fn intro_stop_phrase() -> Seq<char> {
    "A noisy-channel model for sentence"@
}

/// Tests whether a trimmed line carries the introduction stop phrase.
pub fn intro_stop_phrase_exec(t: &Vec<char>) -> (r: bool)
    ensures
        r == contains_seq(t@, intro_stop_phrase()),
{
    let phrase = str_chars("A noisy-channel model for sentence");
    contains_seq_exec(t, &phrase)
}

/// A line holding nothing but a section number: digits only or roman-numeral
/// characters only.
pub open spec fn is_section_number_only(line: Seq<char>) -> bool {
    let t = trim(line);
    t.len() > 0 && ((forall|j: int| 0 <= j < t.len() ==> is_digit(#[trigger] t[j])) || (forall|
        j: int,
    | 0 <= j < t.len() ==> is_roman(#[trigger] t[j])))
}

fn all_digits_exec(t: &Vec<char>) -> (r: bool)
    ensures
        r == forall|j: int| 0 <= j < t@.len() ==> is_digit(#[trigger] t@[j]),
{
    let n = t.len();
    let mut j: usize = 0;
    while j < n
        invariant
            0 <= j <= n,
            n == t@.len(),
            forall|k: int| 0 <= k < j ==> is_digit(#[trigger] t@[k]),
        decreases n - j,
    {
        if !digit_char(t[j]) {
            return false;
        }
        j += 1;
    }
    true
}

fn all_romans_exec(t: &Vec<char>) -> (r: bool)
    ensures
        r == forall|j: int| 0 <= j < t@.len() ==> is_roman(#[trigger] t@[j]),
{
    let n = t.len();
    let mut j: usize = 0;
    while j < n
        invariant
            0 <= j <= n,
            n == t@.len(),
            forall|k: int| 0 <= k < j ==> is_roman(#[trigger] t@[k]),
        decreases n - j,
    {
        if !roman_char(t[j]) {
            return false;
        }
        j += 1;
    }
    true
}

/// Tests whether a line holds nothing but a section number.
pub fn section_number_only_exec(line: &Vec<char>) -> (r: bool)
    ensures
        r == is_section_number_only(line@),
{
    let t = trim_chars(line);
    if t.len() == 0 {
        return false;
    }
    all_digits_exec(&t) || all_romans_exec(&t)
}

/// A capitalized heading line: an upper-case letter followed by at least
/// three letters, whitespace or hyphens and nothing else.
pub open spec fn is_capitalized_line(line: Seq<char>) -> bool {
    let t = trim(line);
    t.len() >= 4 && is_upper(t[0]) && forall|j: int|
        1 <= j < t.len() ==> is_alpha(#[trigger] t[j]) || is_space(t[j]) || t[j] == '-'
}

/// Tests whether a line is a capitalized heading.
pub fn capitalized_line_exec(line: &Vec<char>) -> (r: bool)
    ensures
        r == is_capitalized_line(line@),
{
    let t = trim_chars(line);
    let n = t.len();
    if n < 4 {
        return false;
    }
    if !upper_char(t[0]) {
        return false;
    }
    let mut j: usize = 1;
    while j < n
        invariant
            1 <= j <= n,
            n == t@.len(),
            t@ == trim(line@),
            forall|k: int| 1 <= k < j ==> is_alpha(#[trigger] t@[k]) || is_space(t@[k]) || t@[k] == '-',
        decreases n - j,
    {
        let c = t[j];
        if !(alpha_char(c) || space_char(c) || c == '-') {
            return false;
        }
        j += 1;
    }
    true
}

/// A numbered section heading on one line: a section number, an optional
/// period, whitespace, then a letter and at least one further character.
pub open spec fn is_numbered_inline(line: Seq<char>) -> bool {
    let t = trim(line);
    let n = if t.len() > 0 && is_digit(t[0]) {
        leading_digit_run(t)
    } else {
        leading_roman_run(t)
    };
    n >= 1 && {
        let rest = if n < t.len() && t[n] == '.' {
            t.skip(n + 1)
        } else {
            t.skip(n)
        };
        rest.len() > 0 && is_space(rest[0]) && {
            let w = trim_front(rest);
            w.len() >= 2 && is_alpha(w[0])
        }
    }
}

/// Tests whether a line is a numbered inline section heading.
pub fn numbered_inline_exec(line: &Vec<char>) -> (r: bool)
    ensures
        r == is_numbered_inline(line@),
{
    let t = trim_chars(line);
    let len = t.len();
    let n = if len > 0 && digit_char(t[0]) {
        digit_run_exec(&t)
    } else {
        roman_run_exec(&t)
    };
    if n < 1 {
        return false;
    }
    let from = if n < len && t[n] == '.' {
        n + 1
    } else {
        n
    };
    let rest = copy_range(&t, from, len);
    proof {
        assert(rest@ =~= t@.skip(from as int));
    }
    if rest.len() == 0 || !space_char(rest[0]) {
        return false;
    }
    let w = trim_front_chars(&rest);
    w.len() >= 2 && alpha_char(w[0])
}

/// The number of upper-case letters in a line.
pub open spec fn upper_count(s: Seq<char>) -> int
    decreases s.len(),
{
    if s.len() == 0 {
        0
    } else {
        upper_count(s.drop_last()) + if is_upper(s.last()) {
            1int
        } else {
            0int
        }
    }
}

/// A shouted section title: more than five non-whitespace characters, over
/// eighty percent of them upper-case letters.
pub open spec fn is_upper_title(line: Seq<char>) -> bool {
    let c = remove_ws(trim(line));
    c.len() > 5 && 5 * upper_count(c) > 4 * c.len()
}

/// Tests whether a line is a shouted section title.
pub fn upper_title_exec(line: &Vec<char>) -> (r: bool)
    ensures
        r == is_upper_title(line@),
{
    let t = trim_chars(line);
    let c = remove_ws_chars(&t);
    let n = c.len();
    if n <= 5 {
        return false;
    }
    let mut count: usize = 0;
    let mut i: usize = 0;
    while i < n
        invariant
            0 <= i <= n,
            n == c@.len(),
            count == upper_count(c@.subrange(0, i as int)),
            count <= i,
        decreases n - i,
    {
        if upper_char(c[i]) {
            count += 1;
        }
        proof {
            let pre = c@.subrange(0, i + 1 as int);
            assert(pre.drop_last() =~= c@.subrange(0, i as int));
            assert(pre.last() == c@[i as int]);
        }
        i += 1;
    }
    proof {
        assert(c@.subrange(0, n as int) =~= c@);
    }
    5 * (count as u128) > 4 * (n as u128)
}

// ---------------------------------------------------------------------------
// Body stage
// ---------------------------------------------------------------------------
/// The headings that end the body: the terminal sections of an article, as
/// letter skeletons.
pub open spec fn body_terminal_words() -> Seq<Seq<char>> {
    seq![
        "discussion"@,
        "experiments"@,
        "conclusion"@,
        "conclusions"@,
        "concludingremarks"@,
        "futurework"@,
        "acknowledgment"@,
        "acknowledgement"@,
        "references"@,
        "bibliography"@,
    ]
}

pub fn body_terminal_table() -> (t: Vec<Vec<char>>)
    ensures
        t.deep_view() == body_terminal_words(),
{
    let mut t: Vec<Vec<char>> = Vec::new();
    t.push(str_chars("discussion"));
    t.push(str_chars("experiments"));
    t.push(str_chars("conclusion"));
    t.push(str_chars("conclusions"));
    t.push(str_chars("concludingremarks"));
    t.push(str_chars("futurework"));
    t.push(str_chars("acknowledgment"));
    t.push(str_chars("acknowledgement"));
    t.push(str_chars("references"));
    t.push(str_chars("bibliography"));
    proof {
        assert forall|j: int| 0 <= j < t.deep_view().len() implies #[trigger] t.deep_view()[j]
            == t@[j]@ by {
            assert(t.deep_view()[j] =~= t@[j]@);
        }
        assert(t.deep_view() =~= body_terminal_words());
    }
    t
}

/// A line whose heading matches a terminal section of the article.
pub open spec fn is_terminal_line(line: Seq<char>) -> bool {
    heading_match(line, body_terminal_words())
}

/// Tests whether a line opens a terminal section.
pub fn terminal_line_exec(line: &Vec<char>) -> (r: bool)
    ensures
        r == is_terminal_line(line@),
{
    let table = body_terminal_table();
    heading_match_exec(line, &table)
}

// ---------------------------------------------------------------------------
// Conclusion stage
// ---------------------------------------------------------------------------
/// The headings that open a conclusion.
pub open spec fn conclusion_start_words() -> Seq<Seq<char>> {
    seq!["conclusion"@, "conclusions"@, "concludingremarks"@, "futurework"@]
}

pub fn conclusion_start_table() -> (t: Vec<Vec<char>>)
    ensures
        t.deep_view() == conclusion_start_words(),
{
    let mut t: Vec<Vec<char>> = Vec::new();
    t.push(str_chars("conclusion"));
    t.push(str_chars("conclusions"));
    t.push(str_chars("concludingremarks"));
    t.push(str_chars("futurework"));
    proof {
        assert forall|j: int| 0 <= j < t.deep_view().len() implies #[trigger] t.deep_view()[j]
            == t@[j]@ by {
            assert(t.deep_view()[j] =~= t@[j]@);
        }
        assert(t.deep_view() =~= conclusion_start_words());
    }
    t
}

/// The headings that end a conclusion.
pub open spec fn conclusion_end_words() -> Seq<Seq<char>> {
    seq!["references"@, "bibliography"@, "acknowledgment"@, "acknowledgement"@]
}

pub fn conclusion_end_table() -> (t: Vec<Vec<char>>)
    ensures
        t.deep_view() == conclusion_end_words(),
{
    let mut t: Vec<Vec<char>> = Vec::new();
    t.push(str_chars("references"));
    t.push(str_chars("bibliography"));
    t.push(str_chars("acknowledgment"));
    t.push(str_chars("acknowledgement"));
    proof {
        assert forall|j: int| 0 <= j < t.deep_view().len() implies #[trigger] t.deep_view()[j]
            == t@[j]@ by {
            assert(t.deep_view()[j] =~= t@[j]@);
        }
        assert(t.deep_view() =~= conclusion_end_words());
    }
    t
}

/// A line that opens the conclusion.
pub open spec fn is_conclusion_start(line: Seq<char>) -> bool {
    heading_match(line, conclusion_start_words())
}

/// Tests whether a line opens the conclusion.
pub fn conclusion_start_exec(line: &Vec<char>) -> (r: bool)
    ensures
        r == is_conclusion_start(line@),
{
    let table = conclusion_start_table();
    heading_match_exec(line, &table)
}

/// A line that ends the conclusion.
pub open spec fn is_conclusion_end(line: Seq<char>) -> bool {
    heading_match(line, conclusion_end_words())
}

/// Tests whether a line ends the conclusion.
pub fn conclusion_end_exec(line: &Vec<char>) -> (r: bool)
    ensures
        r == is_conclusion_end(line@),
{
    let table = conclusion_end_table();
    heading_match_exec(line, &table)
}

// ---------------------------------------------------------------------------
// Discussion stage
// ---------------------------------------------------------------------------
/// The headings that open a discussion, as letter skeletons. Matched by
/// equality, never by prefix, so running text that merely begins with the
/// word does not open the section.
pub open spec fn discussion_heading_words() -> Seq<Seq<char>> {
    seq![
        "discussion"@,
        "resultsanddiscussion"@,
        "discussionandconclusion"@,
        "discussionandfuturework"@,
    ]
}

pub fn discussion_heading_table() -> (t: Vec<Vec<char>>)
    ensures
        t.deep_view() == discussion_heading_words(),
{
    let mut t: Vec<Vec<char>> = Vec::new();
    t.push(str_chars("discussion"));
    t.push(str_chars("resultsanddiscussion"));
    t.push(str_chars("discussionandconclusion"));
    t.push(str_chars("discussionandfuturework"));
    proof {
        assert forall|j: int| 0 <= j < t.deep_view().len() implies #[trigger] t.deep_view()[j]
            == t@[j]@ by {
            assert(t.deep_view()[j] =~= t@[j]@);
        }
        assert(t.deep_view() =~= discussion_heading_words());
    }
    t
}

/// A line that opens the discussion: the word "discussion" with word
/// boundaries anywhere in the lower-cased line, or a line whose letter
/// skeleton is exactly one of the discussion headings (the spaced-out
/// letterform case).
pub open spec fn is_discussion_start(line: Seq<char>) -> bool {
    word_match(fold_lower(trim(line)), "discussion"@) || eq_any(
        letters_of(trim(line)),
        discussion_heading_words(),
    )
}

/// Tests whether a line opens the discussion.
pub fn discussion_start_exec(line: &Vec<char>) -> (r: bool)
    ensures
        r == is_discussion_start(line@),
{
    let t = trim_chars(line);
    let l = fold_lower_chars(&t);
    let word = str_chars("discussion");
    proof {
        reveal_strlit("discussion");
    }
    if word_match_exec(&l, &word) {
        return true;
    }
    let skel = letters_of_chars(&t);
    let table = discussion_heading_table();
    eq_any_exec(&skel, &table)
}

/// The phrases that end a discussion, matched with word boundaries in the
/// lower-cased line.
pub open spec fn discussion_end_phrases() -> Seq<Seq<char>> {
    seq![
        "conclusion"@,
        "conclusions"@,
        "concluding remarks"@,
        "future work"@,
        "references"@,
        "bibliography"@,
        "acknowledgment"@,
        "acknowledgement"@,
    ]
}

pub fn discussion_end_phrase_table() -> (t: Vec<Vec<char>>)
    ensures
        t.deep_view() == discussion_end_phrases(),
        forall|k: int| 0 <= k < t.deep_view().len() ==> #[trigger] t.deep_view()[k].len() >= 1,
{
    let mut t: Vec<Vec<char>> = Vec::new();
    t.push(str_chars("conclusion"));
    t.push(str_chars("conclusions"));
    t.push(str_chars("concluding remarks"));
    t.push(str_chars("future work"));
    t.push(str_chars("references"));
    t.push(str_chars("bibliography"));
    t.push(str_chars("acknowledgment"));
    t.push(str_chars("acknowledgement"));
    proof {
        reveal_strlit("conclusion");
        reveal_strlit("conclusions");
        reveal_strlit("concluding remarks");
        reveal_strlit("future work");
        reveal_strlit("references");
        reveal_strlit("bibliography");
        reveal_strlit("acknowledgment");
        reveal_strlit("acknowledgement");
        assert forall|j: int| 0 <= j < t.deep_view().len() implies #[trigger] t.deep_view()[j]
            == t@[j]@ by {
            assert(t.deep_view()[j] =~= t@[j]@);
        }
        assert(t.deep_view() =~= discussion_end_phrases());
    }
    t
}

/// The headings that end a discussion, as letter skeletons; matched by
/// equality only.
pub open spec fn discussion_end_heading_words() -> Seq<Seq<char>> {
    seq![
        "conclusion"@,
        "concludingremarks"@,
        "futurework"@,
        "references"@,
        "bibliography"@,
        "acknowledgment"@,
        "acknowledgement"@,
    ]
}

pub fn discussion_end_heading_table() -> (t: Vec<Vec<char>>)
    ensures
        t.deep_view() == discussion_end_heading_words(),
{
    let mut t: Vec<Vec<char>> = Vec::new();
    t.push(str_chars("conclusion"));
    t.push(str_chars("concludingremarks"));
    t.push(str_chars("futurework"));
    t.push(str_chars("references"));
    t.push(str_chars("bibliography"));
    t.push(str_chars("acknowledgment"));
    t.push(str_chars("acknowledgement"));
    proof {
        assert forall|j: int| 0 <= j < t.deep_view().len() implies #[trigger] t.deep_view()[j]
            == t@[j]@ by {
            assert(t.deep_view()[j] =~= t@[j]@);
        }
        assert(t.deep_view() =~= discussion_end_heading_words());
    }
    t
}

/// A line that ends the discussion: a terminal phrase with word boundaries in
/// the lower-cased line, or a line whose letter skeleton is exactly one of
/// the terminal headings (the spaced-out letterform case).
pub open spec fn is_discussion_end(line: Seq<char>) -> bool {
    word_any(fold_lower(trim(line)), discussion_end_phrases()) || eq_any(
        letters_of(trim(line)),
        discussion_end_heading_words(),
    )
}

/// Tests whether a line ends the discussion.
pub fn discussion_end_exec(line: &Vec<char>) -> (r: bool)
    ensures
        r == is_discussion_end(line@),
{
    let t = trim_chars(line);
    let l = fold_lower_chars(&t);
    let phrases = discussion_end_phrase_table();
    if word_any_exec(&l, &phrases) {
        return true;
    }
    let skel = letters_of_chars(&t);
    let table = discussion_end_heading_table();
    eq_any_exec(&skel, &table)
}

// ---------------------------------------------------------------------------
// Bibliography stage
// ---------------------------------------------------------------------------
/// The words that open the bibliography, as alphanumeric skeletons.
pub open spec fn biblio_words() -> Seq<Seq<char>> {
    seq!["references"@, "r\u{e9}f\u{e9}rences"@, "bibliography"@]
}

pub fn biblio_table() -> (t: Vec<Vec<char>>)
    ensures
        t.deep_view() == biblio_words(),
{
    let mut t: Vec<Vec<char>> = Vec::new();
    t.push(str_chars("references"));
    t.push(str_chars("r\u{e9}f\u{e9}rences"));
    t.push(str_chars("bibliography"));
    proof {
        assert forall|j: int| 0 <= j < t.deep_view().len() implies #[trigger] t.deep_view()[j]
            == t@[j]@ by {
            assert(t.deep_view()[j] =~= t@[j]@);
        }
        assert(t.deep_view() =~= biblio_words());
    }
    t
}

/// A line that opens the bibliography: its alphanumeric skeleton is exactly
/// one of the bibliography words, so spaced-out letterforms and stray
/// punctuation are tolerated.
pub open spec fn is_biblio_header(line: Seq<char>) -> bool {
    eq_any(alnum_of(line), biblio_words())
}

/// Tests whether a line opens the bibliography.
pub fn biblio_header_exec(line: &Vec<char>) -> (r: bool)
    ensures
        r == is_biblio_header(line@),
{
    let skel = alnum_of_chars(line);
    let table = biblio_table();
    eq_any_exec(&skel, &table)
}

} // verus!
