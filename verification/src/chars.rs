//! Character classes and small text routines shared by the tokenizer, the
//! grammar rules and the message builders.

use vstd::prelude::*;

verus! {

/// `String::push` of the standard library. Taken on trust, not proved: the
/// call appends `ch` to the end of the string and leaves what stood before
/// it as it was, which is what the documentation of `String::push` says.
pub assume_specification[ String::push ](s: &mut String, ch: char)
    ensures
        final(s)@ == old(s)@.push(ch),
;

/// A decimal digit, `0` to `9`.
pub open spec fn digit_char(c: char) -> bool {
    '0' <= c && c <= '9'
}

/// A character that may open a word: an ASCII letter, or one of `-`, `*`,
/// `'`, `/` and `.`.
pub open spec fn word_start_char(c: char) -> bool {
    ('A' <= c && c <= 'Z') || ('a' <= c && c <= 'z') || c == '-' || c == '*' || c == '\'' || c
        == '/' || c == '.'
}

/// A character that may stand inside a word: a word opener or a digit.
pub open spec fn name_char(c: char) -> bool {
    digit_char(c) || word_start_char(c)
}

/// White space in the sense of Unicode's `White_Space` property.
pub open spec fn blank_char(c: char) -> bool {
    ('\u{9}' <= c && c <= '\u{D}') || c == ' ' || c == '\u{85}' || c == '\u{A0}' || c
        == '\u{1680}' || ('\u{2000}' <= c && c <= '\u{200A}') || c == '\u{2028}' || c
        == '\u{2029}' || c == '\u{202F}' || c == '\u{205F}' || c == '\u{3000}'
}

/// Whether `c` is a decimal digit.
pub fn is_digit(c: &char) -> (r: bool)
    ensures
        r == digit_char(*c),
{
    *c >= '0' && *c <= '9'
}

/// Whether `c` may stand inside a word.
pub fn is_namechar(c: &char) -> (r: bool)
    ensures
        r == name_char(*c),
{
    // Digits may stand inside a name, although they never open one.
    if is_digit(c) {
        return true;
    }
    let c: char = *c;
    (c >= 'A' && c <= 'Z') || (c >= 'a' && c <= 'z') || c == '-' || c == '*' || c == '\'' || c
        == '/' || c == '.'
}

/// Whether `c` may open a word.
pub fn is_word_start(c: &char) -> (r: bool)
    ensures
        r == word_start_char(*c),
{
    is_namechar(c) && !is_digit(c)
}

/// Whether `c` is white space.
pub fn is_blank(c: &char) -> (r: bool)
    ensures
        r == blank_char(*c),
{
    let c: char = *c;
    (c >= '\u{9}' && c <= '\u{D}') || c == ' ' || c == '\u{85}' || c == '\u{A0}' || c
        == '\u{1680}' || (c >= '\u{2000}' && c <= '\u{200A}') || c == '\u{2028}' || c
        == '\u{2029}' || c == '\u{202F}' || c == '\u{205F}' || c == '\u{3000}'
}

/// The characters of a string slice, in order.
pub fn to_chars(s: &str) -> (v: Vec<char>)
    ensures
        v@ == s@,
{
    let mut v: Vec<char> = Vec::new();
    for c in it: s.chars()
        invariant
            v@ == it.seq().take(it.index()),
            it.seq() == s@,
    {
        v.push(c);
    }
    v
}

/// The string made of `v[from..to]`.
pub fn string_of(v: &Vec<char>, from: usize, to: usize) -> (r: String)
    requires
        from <= to <= v.len(),
    ensures
        r@ == v@.subrange(from as int, to as int),
{
    let mut r = String::new();
    let mut i: usize = from;
    while i < to
        invariant
            from <= i <= to <= v.len(),
            r@ == v@.subrange(from as int, i as int),
        decreases to - i,
    {
        r.push(v[i]);
        i += 1;
    }
    r
}

/// Appends the characters of `s` to `out`.
pub fn push_chars(out: &mut Vec<char>, s: &str)
    ensures
        final(out)@ == old(out)@ + s@,
{
    for c in it: s.chars()
        invariant
            out@ == old(out)@ + it.seq().take(it.index()),
            it.seq() == s@,
    {
        out.push(c);
    }
}

/// `s` without its leading white space.
pub open spec fn trim_start(s: Seq<char>) -> Seq<char>
    decreases s.len(),
{
    if s.len() > 0 && blank_char(s[0]) {
        trim_start(s.drop_first())
    } else {
        s
    }
}

/// `s` without its trailing white space.
pub open spec fn trim_end(s: Seq<char>) -> Seq<char>
    decreases s.len(),
{
    if s.len() > 0 && blank_char(s.last()) {
        trim_end(s.drop_last())
    } else {
        s
    }
}

/// `s` without leading and trailing white space.
pub open spec fn trim(s: Seq<char>) -> Seq<char> {
    trim_end(trim_start(s))
}

/// Trimming at the end leaves a prefix, and one that does not end in white
/// space.
pub proof fn lemma_trim_end(s: Seq<char>)
    ensures
        trim_end(s).len() <= s.len(),
        trim_end(s) == s.take(trim_end(s).len() as int),
        trim_end(s).len() > 0 ==> !blank_char(trim_end(s).last()),
    decreases s.len(),
{
    if s.len() > 0 && blank_char(s.last()) {
        lemma_trim_end(s.drop_last());
        assert(s.drop_last().take(trim_end(s).len() as int) == s.take(trim_end(s).len() as int));
    } else {
        assert(s.take(s.len() as int) == s);
    }
}

/// Trimming at the start leaves a suffix, and one that does not start with
/// white space.
pub proof fn lemma_trim_start(s: Seq<char>)
    ensures
        trim_start(s).len() <= s.len(),
        trim_start(s) == s.skip(s.len() - trim_start(s).len()),
        trim_start(s).len() > 0 ==> !blank_char(trim_start(s)[0]),
    decreases s.len(),
{
    if s.len() > 0 && blank_char(s[0]) {
        lemma_trim_start(s.drop_first());
        assert(s.drop_first().skip(s.len() - 1 - trim_start(s).len()) == s.skip(
            s.len() - trim_start(s).len(),
        ));
    } else {
        assert(s.skip(0) == s);
    }
}

/// What is left of a trimmed text neither starts nor ends with white space,
/// and is a piece of the text.
pub proof fn lemma_trim_is_trimmed(s: Seq<char>)
    ensures
        trim(s).len() > 0 ==> !blank_char(trim(s)[0]) && !blank_char(trim(s).last()),
        exists|from: int, to: int|
            0 <= from <= to <= s.len() && trim(s) == #[trigger] s.subrange(from, to),
{
    let t = trim_start(s);
    lemma_trim_start(s);
    lemma_trim_end(t);
    let from = s.len() - t.len();
    let to = from + trim(s).len();
    assert(trim(s) == s.subrange(from, to));
    if trim(s).len() > 0 {
        assert(trim(s)[0] == t[0]);
    }
}

/// Every character of `s` is white space.
pub open spec fn all_blank(s: Seq<char>) -> bool {
    forall|i: int| 0 <= i < s.len() ==> blank_char(#[trigger] s[i])
}

/// The bounds `(a, b)` of `v[from..to]` once trimmed: `v[a..b]` is
/// `trim(v[from..to])`.
pub fn trim_bounds(v: &Vec<char>, from: usize, to: usize) -> (r: (usize, usize))
    requires
        from <= to <= v.len(),
    ensures
        from <= r.0 <= r.1 <= to,
        v@.subrange(r.0 as int, r.1 as int) == trim(v@.subrange(from as int, to as int)),
{
    let mut a: usize = from;
    while a < to && is_blank(&v[a])
        invariant
            from <= a <= to <= v.len(),
            trim_start(v@.subrange(from as int, to as int)) == trim_start(
                v@.subrange(a as int, to as int),
            ),
        decreases to - a,
    {
        assert(v@.subrange(a as int, to as int).drop_first() == v@.subrange(
            a as int + 1,
            to as int,
        ));
        a += 1;
    }
    let mut b: usize = to;
    while b > a && is_blank(&v[b - 1])
        invariant
            a <= b <= to <= v.len(),
            trim_end(v@.subrange(a as int, to as int)) == trim_end(
                v@.subrange(a as int, b as int),
            ),
        decreases b - a,
    {
        assert(v@.subrange(a as int, b as int).drop_last() == v@.subrange(
            a as int,
            b as int - 1,
        ));
        b -= 1;
    }
    (a, b)
}

} // verus!
