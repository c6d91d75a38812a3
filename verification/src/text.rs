//! Character classes and elementary line operations.
//!
//! The library works on lines as vectors of `char`; a line's mathematical
//! model is its `Seq<char>`. The character classes used by the heuristics
//! (whitespace, letters, digits, control characters) are the ASCII classes,
//! stated here once and shared by every stage; case folding also covers the
//! Latin-1 letters, so accented headers keep their casing rules.

use vstd::prelude::*;

verus! {

/// ASCII whitespace: space, tab, line feed, carriage return, vertical tab,
/// form feed.
pub open spec fn is_space(c: char) -> bool {
    c == ' ' || c == '\t' || c == '\n' || c == '\r' || c == '\u{b}' || c == '\u{c}'
}

pub fn space_char(c: char) -> (r: bool)
    ensures
        r == is_space(c),
{
    c == ' ' || c == '\t' || c == '\n' || c == '\r' || c == '\u{b}' || c == '\u{c}'
}

/// The sequence `s` with leading whitespace removed.
pub open spec fn trim_front(s: Seq<char>) -> Seq<char>
    decreases s.len(),
{
    if s.len() > 0 && is_space(s[0]) {
        trim_front(s.drop_first())
    } else {
        s
    }
}

/// The sequence `s` with trailing whitespace removed.
pub open spec fn trim_back(s: Seq<char>) -> Seq<char>
    decreases s.len(),
{
    if s.len() > 0 && is_space(s.last()) {
        trim_back(s.drop_last())
    } else {
        s
    }
}

/// The sequence `s` with leading and trailing whitespace removed.
pub open spec fn trim(s: Seq<char>) -> Seq<char> {
    trim_back(trim_front(s))
}

proof fn lemma_trim_front_is_suffix(s: Seq<char>, a: int)
    requires
        0 <= a <= s.len(),
        forall|j: int| 0 <= j < a ==> is_space(s[j]),
        a < s.len() ==> !is_space(s[a]),
    ensures
        trim_front(s) == s.subrange(a, s.len() as int),
    decreases a,
{
    if a == 0 {
        if s.len() > 0 && is_space(s[0]) {
            assert(false);
        }
        assert(s.subrange(0, s.len() as int) =~= s);
    } else {
        let t = s.drop_first();
        assert(trim_front(s) == trim_front(t));
        lemma_trim_front_is_suffix(t, a - 1);
        assert(t.subrange(a - 1, t.len() as int) =~= s.subrange(a, s.len() as int));
    }
}

proof fn lemma_trim_back_is_prefix(s: Seq<char>, b: int)
    requires
        0 <= b <= s.len(),
        forall|j: int| b <= j < s.len() ==> is_space(s[j]),
        b > 0 ==> !is_space(s[b - 1]),
    ensures
        trim_back(s) == s.subrange(0, b),
    decreases s.len() - b,
{
    if b == s.len() {
        if s.len() > 0 && is_space(s.last()) {
            assert(false);
        }
        assert(s.subrange(0, s.len() as int) =~= s);
    } else {
        let t = s.drop_last();
        assert(trim_back(s) == trim_back(t));
        lemma_trim_back_is_prefix(t, b);
        assert(t.subrange(0, b) =~= s.subrange(0, b));
    }
}

/// ASCII upper-case letter.
pub open spec fn is_upper(c: char) -> bool {
    65 <= c as u32 && c as u32 <= 90
}

/// ASCII lower-case letter.
pub open spec fn is_lower(c: char) -> bool {
    97 <= c as u32 && c as u32 <= 122
}

/// ASCII letter.
pub open spec fn is_alpha(c: char) -> bool {
    is_upper(c) || is_lower(c)
}

/// ASCII decimal digit.
pub open spec fn is_digit(c: char) -> bool {
    48 <= c as u32 && c as u32 <= 57
}

/// Latin-1 upper-case letter (A grave through Thorn, excluding the
/// multiplication sign); its lower-case form lies thirty-two code points up.
pub open spec fn is_latin1_upper(c: char) -> bool {
    192 <= c as u32 && c as u32 <= 222 && c as u32 != 215
}

/// Latin-1 letter (accented letters in either case, excluding the
/// multiplication and division signs).
pub open spec fn is_latin1_letter(c: char) -> bool {
    192 <= c as u32 && c as u32 <= 255 && c as u32 != 215 && c as u32 != 247
}

pub fn latin1_letter_char(c: char) -> (r: bool)
    ensures
        r == is_latin1_letter(c),
{
    let u = c as u32;
    192 <= u && u <= 255 && u != 215 && u != 247
}

/// Control character that is not whitespace; such characters are stripped by
/// the line normalizer.
pub open spec fn is_stripped_control(c: char) -> bool {
    ((c as u32) < 32 || c as u32 == 127) && !is_space(c)
}

pub fn upper_char(c: char) -> (r: bool)
    ensures
        r == is_upper(c),
{
    let u = c as u32;
    65 <= u && u <= 90
}

pub fn lower_char(c: char) -> (r: bool)
    ensures
        r == is_lower(c),
{
    let u = c as u32;
    97 <= u && u <= 122
}

pub fn alpha_char(c: char) -> (r: bool)
    ensures
        r == is_alpha(c),
{
    upper_char(c) || lower_char(c)
}

pub fn digit_char(c: char) -> (r: bool)
    ensures
        r == is_digit(c),
{
    let u = c as u32;
    48 <= u && u <= 57
}

pub fn stripped_control_char(c: char) -> (r: bool)
    ensures
        r == is_stripped_control(c),
{
    let u = c as u32;
    (u < 32 || u == 127) && !space_char(c)
}

/// The character with an ASCII or Latin-1 upper-case letter folded to lower
/// case; any other character is unchanged.
pub open spec fn fold_char(c: char) -> char {
    if is_upper(c) || is_latin1_upper(c) {
        (c as u32 + 32) as char
    } else {
        c
    }
}

pub fn fold_char_exec(c: char) -> (r: char)
    ensures
        r == fold_char(c),
{
    let u = c as u32;
    if (65 <= u && u <= 90) || (192 <= u && u <= 222 && u != 215) {
        ((u + 32) as u8) as char
    } else {
        c
    }
}

/// The sequence with every ASCII or Latin-1 upper-case letter folded to lower
/// case.
pub open spec fn fold_lower(s: Seq<char>) -> Seq<char> {
    s.map_values(|c: char| fold_char(c))
}

/// Lower-cases a line.
pub fn fold_lower_chars(v: &Vec<char>) -> (r: Vec<char>)
    ensures
        r@ == fold_lower(v@),
{
    let mut r: Vec<char> = Vec::new();
    let mut i: usize = 0;
    while i < v.len()
        invariant
            0 <= i <= v@.len(),
            r@ == fold_lower(v@.subrange(0, i as int)),
        decreases v@.len() - i,
    {
        r.push(fold_char_exec(v[i]));
        proof {
            assert(r@ =~= fold_lower(v@.subrange(0, i + 1 as int)));
        }
        i += 1;
    }
    proof {
        assert(v@.subrange(0, v@.len() as int) =~= v@);
    }
    r
}

/// The characters of a string slice, as a vector.
pub fn str_chars(s: &str) -> (v: Vec<char>)
    ensures
        v@ == s@,
{
    let n = s.unicode_len();
    let mut v: Vec<char> = Vec::new();
    let mut i: usize = 0;
    while i < n
        invariant
            0 <= i <= n,
            n == s@.len(),
            v@ == s@.subrange(0, i as int),
        decreases n - i,
    {
        v.push(s.get_char(i));
        proof {
            assert(v@ =~= s@.subrange(0, i + 1 as int));
        }
        i += 1;
    }
    proof {
        assert(s@.subrange(0, n as int) =~= s@);
    }
    v
}

/// The characters of one line of a document.
pub fn line_chars(lines: &Vec<String>, i: usize) -> (v: Vec<char>)
    requires
        i < lines@.len(),
    ensures
        v@ == lines.deep_view()[i as int],
{
    let v = str_chars(lines[i].as_str());
    proof {
        assert(lines.deep_view()[i as int] == lines@[i as int]@);
    }
    v
}

/// Relies on `Iterator::collect` for `String`: the collected string holds
/// exactly the iterated characters, in order.
#[verifier::external_body]
pub fn chars_to_string(v: &Vec<char>) -> (s: String)
    ensures
        s@ == v@,
{
    v.iter().collect()
}

/// Whether `p` occurs in `s` starting at position `i`.
pub open spec fn matches_at(s: Seq<char>, p: Seq<char>, i: int) -> bool {
    0 <= i && i + p.len() <= s.len() && s.subrange(i, i + p.len()) == p
}

/// Whether `p` occurs anywhere in `s`.
pub open spec fn contains_seq(s: Seq<char>, p: Seq<char>) -> bool {
    exists|i: int| matches_at(s, p, i)
}

/// Tests whether `p` occurs in `s` at position `i`.
pub fn matches_at_exec(s: &Vec<char>, p: &Vec<char>, i: usize) -> (r: bool)
    requires
        i + p@.len() <= s@.len(),
    ensures
        r == matches_at(s@, p@, i as int),
{
    let n = s.len();
    let m = p.len();
    let mut j: usize = 0;
    while j < m
        invariant
            0 <= j <= m,
            m == p@.len(),
            n == s@.len(),
            i + m <= n,
            forall|k: int| 0 <= k < j ==> s@[i + k] == p@[k],
        decreases m - j,
    {
        if s[i + j] != p[j] {
            assert(s@.subrange(i as int, i + p@.len()) != p@) by {
                assert(s@.subrange(i as int, i + p@.len())[j as int] == s@[i + j]);
            }
            return false;
        }
        j += 1;
    }
    proof {
        assert(s@.subrange(i as int, i + p@.len()) =~= p@);
    }
    true
}

/// Tests whether `p` occurs anywhere in `s`.
pub fn contains_seq_exec(s: &Vec<char>, p: &Vec<char>) -> (r: bool)
    ensures
        r == contains_seq(s@, p@),
{
    if p.len() > s.len() {
        return false;
    }
    if p.len() == 0 {
        proof {
            assert(matches_at(s@, p@, 0)) by {
                assert(s@.subrange(0, 0) =~= p@);
            }
        }
        return true;
    }
    let n = s.len();
    let last = n - p.len();
    let mut i: usize = 0;
    while i <= last
        invariant
            0 <= i <= last + 1,
            n == s@.len(),
            last == s@.len() - p@.len(),
            1 <= p@.len() <= s@.len(),
            forall|k: int| 0 <= k < i ==> !matches_at(s@, p@, k),
        decreases last + 1 - i,
    {
        if matches_at_exec(s, p, i) {
            return true;
        }
        i += 1;
    }
    false
}

/// Whether `p` is a prefix of `s`.
pub open spec fn has_prefix(s: Seq<char>, p: Seq<char>) -> bool {
    matches_at(s, p, 0)
}

/// Tests whether `p` is a prefix of `s`.
pub fn has_prefix_exec(s: &Vec<char>, p: &Vec<char>) -> (r: bool)
    ensures
        r == has_prefix(s@, p@),
{
    if p.len() > s.len() {
        return false;
    }
    matches_at_exec(s, p, 0)
}

/// Whether the character `c` occurs in `s`.
pub open spec fn contains_char(s: Seq<char>, c: char) -> bool {
    exists|i: int| 0 <= i < s.len() && s[i] == c
}

/// Tests whether the character `c` occurs in `s`.
pub fn contains_char_exec(s: &Vec<char>, c: char) -> (r: bool)
    ensures
        r == contains_char(s@, c),
{
    let mut i: usize = 0;
    while i < s.len()
        invariant
            0 <= i <= s@.len(),
            forall|k: int| 0 <= k < i ==> s@[k] != c,
        decreases s@.len() - i,
    {
        if s[i] == c {
            return true;
        }
        i += 1;
    }
    false
}

/// Two lines are equal as character sequences.
pub fn chars_eq(a: &Vec<char>, b: &Vec<char>) -> (r: bool)
    ensures
        r == (a@ == b@),
{
    if a.len() != b.len() {
        return false;
    }
    let mut i: usize = 0;
    while i < a.len()
        invariant
            0 <= i <= a@.len(),
            a@.len() == b@.len(),
            forall|k: int| 0 <= k < i ==> a@[k] == b@[k],
        decreases a@.len() - i,
    {
        if a[i] != b[i] {
            return false;
        }
        i += 1;
    }
    proof {
        assert(a@ =~= b@);
    }
    true
}

/// Trims whitespace from both ends of a line.
pub fn trim_chars(v: &Vec<char>) -> (r: Vec<char>)
    ensures
        r@ == trim(v@),
{
    let n = v.len();
    let mut a: usize = 0;
    while a < n && space_char(v[a])
        invariant
            0 <= a <= n,
            n == v@.len(),
            forall|j: int| 0 <= j < a ==> is_space(v@[j]),
        decreases n - a,
    {
        a += 1;
    }
    proof {
        lemma_trim_front_is_suffix(v@, a as int);
    }
    let mut b: usize = n;
    while b > a && space_char(v[b - 1])
        invariant
            a <= b <= n,
            n == v@.len(),
            a < n ==> !is_space(v@[a as int]),
            forall|j: int| b <= j < n ==> is_space(v@[j]),
        decreases b,
    {
        b -= 1;
    }
    let mut r: Vec<char> = Vec::new();
    let mut i: usize = a;
    while i < b
        invariant
            a <= i <= b <= n,
            n == v@.len(),
            r@ == v@.subrange(a as int, i as int),
        decreases b - i,
    {
        r.push(v[i]);
        proof {
            assert(r@ =~= v@.subrange(a as int, i + 1 as int));
        }
        i += 1;
    }
    proof {
        let f = v@.subrange(a as int, n as int);
        lemma_trim_back_is_prefix(f, b - a);
        assert(f.subrange(0, b - a) =~= v@.subrange(a as int, b as int));
    }
    r
}

/// Trims whitespace from the front of a line.
pub fn trim_front_chars(v: &Vec<char>) -> (r: Vec<char>)
    ensures
        r@ == trim_front(v@),
{
    let n = v.len();
    let mut a: usize = 0;
    while a < n && space_char(v[a])
        invariant
            0 <= a <= n,
            n == v@.len(),
            forall|j: int| 0 <= j < a ==> is_space(v@[j]),
        decreases n - a,
    {
        a += 1;
    }
    proof {
        lemma_trim_front_is_suffix(v@, a as int);
    }
    let mut r: Vec<char> = Vec::new();
    let mut i: usize = a;
    while i < n
        invariant
            a <= i <= n,
            n == v@.len(),
            r@ == v@.subrange(a as int, i as int),
        decreases n - i,
    {
        r.push(v[i]);
        proof {
            assert(r@ =~= v@.subrange(a as int, i + 1 as int));
        }
        i += 1;
    }
    r
}

/// Trims whitespace from the end of a line.
pub fn trim_back_chars(v: &Vec<char>) -> (r: Vec<char>)
    ensures
        r@ == trim_back(v@),
{
    let n = v.len();
    let mut b: usize = n;
    while b > 0 && space_char(v[b - 1])
        invariant
            0 <= b <= n,
            n == v@.len(),
            forall|j: int| b <= j < n ==> is_space(v@[j]),
        decreases b,
    {
        b -= 1;
    }
    proof {
        lemma_trim_back_is_prefix(v@, b as int);
    }
    let mut r: Vec<char> = Vec::new();
    let mut i: usize = 0;
    while i < b
        invariant
            0 <= i <= b <= n,
            n == v@.len(),
            r@ == v@.subrange(0, i as int),
        decreases b - i,
    {
        r.push(v[i]);
        proof {
            assert(r@ =~= v@.subrange(0, i + 1 as int));
        }
        i += 1;
    }
    r
}

/// The characters of `v` from `from` (inclusive) to `to` (exclusive).
pub fn copy_range(v: &Vec<char>, from: usize, to: usize) -> (r: Vec<char>)
    requires
        from <= to <= v@.len(),
    ensures
        r@ == v@.subrange(from as int, to as int),
{
    let mut r: Vec<char> = Vec::new();
    let mut i: usize = from;
    while i < to
        invariant
            from <= i <= to <= v@.len(),
            r@ == v@.subrange(from as int, i as int),
        decreases to - i,
    {
        r.push(v[i]);
        proof {
            assert(r@ =~= v@.subrange(from as int, i + 1 as int));
        }
        i += 1;
    }
    r
}

/// A copy of `base` with one character appended.
pub fn append_char(base: &Vec<char>, c: char) -> (r: Vec<char>)
    ensures
        r@ == base@.push(c),
{
    let mut r: Vec<char> = Vec::new();
    push_all(&mut r, base);
    r.push(c);
    proof {
        assert(r@ =~= base@.push(c));
    }
    r
}

/// Appends all characters of `src` to `dst`.
pub fn push_all(dst: &mut Vec<char>, src: &Vec<char>)
    ensures
        final(dst)@ == old(dst)@ + src@,
{
    let mut i: usize = 0;
    while i < src.len()
        invariant
            0 <= i <= src@.len(),
            dst@ == old(dst)@ + src@.subrange(0, i as int),
        decreases src@.len() - i,
    {
        dst.push(src[i]);
        proof {
            assert(old(dst)@ + src@.subrange(0, i + 1 as int) =~= (old(dst)@ + src@.subrange(
                0,
                i as int,
            )).push(src@[i as int]));
        }
        i += 1;
    }
    proof {
        assert(src@.subrange(0, src@.len() as int) =~= src@);
    }
}

/// The parts joined by the separator `sep`.
pub open spec fn join_with(parts: Seq<Seq<char>>, sep: Seq<char>) -> Seq<char>
    decreases parts.len(),
{
    if parts.len() == 0 {
        Seq::empty()
    } else if parts.len() == 1 {
        parts[0]
    } else {
        join_with(parts.drop_last(), sep) + sep + parts.last()
    }
}

/// Joins the parts with the separator `sep`.
pub fn join_chars(parts: &Vec<Vec<char>>, sep: &Vec<char>) -> (r: Vec<char>)
    ensures
        r@ == join_with(parts.deep_view(), sep@),
{
    let mut r: Vec<char> = Vec::new();
    let mut i: usize = 0;
    while i < parts.len()
        invariant
            0 <= i <= parts@.len(),
            parts.deep_view().len() == parts@.len(),
            forall|k: int| 0 <= k < parts@.len() ==> parts.deep_view()[k] == parts@[k]@,
            r@ == join_with(parts.deep_view().subrange(0, i as int), sep@),
        decreases parts@.len() - i,
    {
        if i > 0 {
            push_all(&mut r, sep);
        }
        push_all(&mut r, &parts[i]);
        proof {
            let d = parts.deep_view();
            let pre = d.subrange(0, i + 1 as int);
            assert(pre.drop_last() =~= d.subrange(0, i as int));
            if i > 0 {
                assert(r@ == join_with(pre.drop_last(), sep@) + sep@ + pre.last());
            } else {
                assert(pre.len() == 1);
                assert(r@ =~= pre[0]);
            }
        }
        i += 1;
    }
    proof {
        assert(parts.deep_view().subrange(0, parts@.len() as int) =~= parts.deep_view());
    }
    r
}

/// The number of whitespace-separated words in `s`, counted at the position
/// where each word starts.
pub open spec fn word_count(s: Seq<char>) -> int
    decreases s.len(),
{
    if s.len() == 0 {
        0
    } else {
        word_count(s.drop_last()) + if !is_space(s.last()) && (s.len() == 1 || is_space(
            s[s.len() - 2],
        )) {
            1int
        } else {
            0int
        }
    }
}

/// The number of whitespace-separated words in `s` that start with an ASCII
/// upper-case letter.
pub open spec fn upper_word_count(s: Seq<char>) -> int
    decreases s.len(),
{
    if s.len() == 0 {
        0
    } else {
        upper_word_count(s.drop_last()) + if is_upper(s.last()) && (s.len() == 1 || is_space(
            s[s.len() - 2],
        )) {
            1int
        } else {
            0int
        }
    }
}

/// Counts the whitespace-separated words of a line, and those among them that
/// start with an upper-case letter.
pub fn count_words(v: &Vec<char>) -> (r: (usize, usize))
    ensures
        r.0 == word_count(v@),
        r.1 == upper_word_count(v@),
{
    let mut words: usize = 0;
    let mut uppers: usize = 0;
    let mut i: usize = 0;
    while i < v.len()
        invariant
            0 <= i <= v@.len(),
            words == word_count(v@.subrange(0, i as int)),
            uppers == upper_word_count(v@.subrange(0, i as int)),
            words <= i,
            uppers <= i,
        decreases v@.len() - i,
    {
        let at_start = !space_char(v[i]) && (i == 0 || space_char(v[i - 1]));
        if at_start {
            words += 1;
        }
        if at_start && upper_char(v[i]) {
            uppers += 1;
        }
        proof {
            let pre = v@.subrange(0, i + 1 as int);
            assert(pre.drop_last() =~= v@.subrange(0, i as int));
            assert(pre.last() == v@[i as int]);
            if i > 0 {
                assert(pre[pre.len() - 2] == v@[i - 1]);
            }
        }
        i += 1;
    }
    proof {
        assert(v@.subrange(0, v@.len() as int) =~= v@);
    }
    (words, uppers)
}

/// The cumulative character offset of the first `k` lines of the document,
/// counting each line's length plus `extra` (one for a line separator, zero
/// for none).
pub open spec fn cum_len(d: Seq<Seq<char>>, k: int, extra: int) -> int
    decreases k,
{
    if k <= 0 {
        0
    } else {
        cum_len(d, k - 1, extra) + d[k - 1].len() + extra
    }
}

/// The cumulative character offset of the first `k` lines, with a separator
/// counted after every line.
pub fn cum_offset(lines: &Vec<String>, k: usize, count_separator: bool) -> (r: u128)
    requires
        k <= lines@.len(),
    ensures
        r == cum_len(lines.deep_view(), k as int, if count_separator { 1int } else { 0int }),
{
    let ghost extra: int = if count_separator {
        1int
    } else {
        0int
    };
    let n = lines.len();
    let mut acc: u128 = 0;
    let mut i: usize = 0;
    while i < k
        invariant
            0 <= i <= k <= n,
            n == lines@.len(),
            lines.deep_view().len() == lines@.len(),
            forall|j: int|
                0 <= j < lines@.len() ==> #[trigger] lines.deep_view()[j] == lines@[j]@,
            extra == if count_separator {
                1int
            } else {
                0int
            },
            acc == cum_len(lines.deep_view(), i as int, extra),
            acc <= (i as int) * 0x1_0000_0000_0000_0001,
        decreases k - i,
    {
        let len = lines[i].as_str().unicode_len();
        proof {
            assert(lines.deep_view()[i as int] == lines@[i as int]@);
            assert(cum_len(lines.deep_view(), i + 1 as int, extra) == cum_len(
                lines.deep_view(),
                i as int,
                extra,
            ) + lines.deep_view()[i as int].len() + extra);
            assert(len as int <= 0xffff_ffff_ffff_ffff);
            assert(acc + len + 1 <= (i as int + 1) * 0x1_0000_0000_0000_0001);
        }
        let add: u128 = if count_separator {
            1
        } else {
            0
        };
        acc = acc + (len as u128) + add;
        i += 1;
    }
    acc
}

/// The character giving the decimal digit `d`.
pub open spec fn dec_digit(d: int) -> char {
    (48 + d) as char
}

/// The decimal rendering of the non-negative integer `n`, most significant
/// digit first, with no leading zeros (zero itself renders as "0").
pub open spec fn dec_chars(n: int) -> Seq<char>
    decreases n,
{
    if n < 10 {
        seq![dec_digit(n)]
    } else {
        dec_chars(n / 10) + seq![dec_digit(n % 10)]
    }
}

/// Renders a number in decimal.
pub fn render_dec(n: u128) -> (v: Vec<char>)
    ensures
        v@ == dec_chars(n as int),
    decreases n,
{
    if n < 10 {
        let c = ((48 + (n as u8)) as u8) as char;
        let mut v: Vec<char> = Vec::new();
        v.push(c);
        proof {
            assert(v@ =~= seq![dec_digit(n as int)]);
        }
        v
    } else {
        let mut v = render_dec(n / 10);
        let d = (n % 10) as u8;
        v.push((48 + d) as char);
        proof {
            assert(v@ =~= dec_chars(n as int / 10) + seq![dec_digit(n as int % 10)]);
        }
        v
    }
}

} // verus!
