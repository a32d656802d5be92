//! Characters and plain string operations.

use vstd::prelude::*;
use vstd::string::*;

verus! {

/// The characters that have Unicode's `White_Space` property.
pub open spec fn is_space(c: char) -> bool {
    ||| '\u{9}' <= c && c <= '\u{d}'
    ||| c == '\u{20}'
    ||| c == '\u{85}'
    ||| c == '\u{a0}'
    ||| c == '\u{1680}'
    ||| '\u{2000}' <= c && c <= '\u{200a}'
    ||| c == '\u{2028}'
    ||| c == '\u{2029}'
    ||| c == '\u{202f}'
    ||| c == '\u{205f}'
    ||| c == '\u{3000}'
}

/// Nothing but white space.
pub open spec fn is_blank(s: Seq<char>) -> bool {
    forall|i: int| 0 <= i < s.len() ==> is_space(#[trigger] s[i])
}

/// `s` without the white space that it starts with.
pub open spec fn skip_space(s: Seq<char>) -> Seq<char>
    decreases s.len(),
{
    if s.len() > 0 && is_space(s[0]) {
        skip_space(s.skip(1))
    } else {
        s
    }
}

/// `s` without the white space that it ends with.
pub open spec fn drop_space(s: Seq<char>) -> Seq<char>
    decreases s.len(),
{
    if s.len() > 0 && is_space(s.last()) {
        drop_space(s.drop_last())
    } else {
        s
    }
}

/// `s` without the line feed that it ends with, if it does.
pub open spec fn drop_feed(s: Seq<char>) -> Seq<char> {
    if s.len() > 0 && s.last() == '\n' {
        s.drop_last()
    } else {
        s
    }
}

/// `p` stands in `s` at position `i`.
pub open spec fn at(s: Seq<char>, i: int, p: Seq<char>) -> bool {
    0 <= i && i + p.len() <= s.len() && s.subrange(i, i + p.len()) == p
}

/// Whether a character has the `White_Space` property.
pub fn is_whitespace(c: char) -> (b: bool)
    ensures
        b == is_space(c),
{
    ('\u{9}' <= c && c <= '\u{d}') || c == '\u{20}' || c == '\u{85}' || c == '\u{a0}' || c
        == '\u{1680}' || ('\u{2000}' <= c && c <= '\u{200a}') || c == '\u{2028}' || c == '\u{2029}'
        || c == '\u{202f}' || c == '\u{205f}' || c == '\u{3000}'
}

/// What `char::is_alphanumeric` returns.
pub uninterp spec fn char_is_alphanumeric(c: char) -> bool;

/// An ASCII letter or digit.
pub open spec fn is_ascii_alphanumeric(c: char) -> bool {
    ('a' <= c && c <= 'z') || ('A' <= c && c <= 'Z') || ('0' <= c && c <= '9')
}

/// `char::is_alphanumeric`: the result depends on the character alone. Among the
/// ASCII characters it is the letters and the digits; of the others nothing but
/// the name is stated, the property being a table of Unicode.
pub assume_specification[ char::is_alphanumeric ](c: char) -> (b: bool)
    ensures
        b == char_is_alphanumeric(c),
        c <= '\u{7f}' ==> b == is_ascii_alphanumeric(c),
;

/// `String::push`: appends the character.
pub assume_specification[ String::push ](s: &mut String, c: char)
    ensures
        final(s)@ == old(s)@.push(c),
;

/// A character that can be part of an identifier.
pub open spec fn ident_char(c: char) -> bool {
    char_is_alphanumeric(c) || c == '_'
}

/// Whether a character can be part of an identifier.
pub fn is_ident_char(c: char) -> (b: bool)
    ensures
        b == ident_char(c),
        c <= '\u{7f}' ==> b == (is_ascii_alphanumeric(c) || c == '_'),
{
    c.is_alphanumeric() || c == '_'
}

/// The character before position `i`, or a space at the start.
pub open spec fn char_before(s: Seq<char>, i: int) -> char {
    if i == 0 {
        ' '
    } else {
        s[i - 1]
    }
}

/// The char before `i`, or a space when at the start of the line.
pub fn prev_char(chars: &[char], i: usize) -> (c: char)
    requires
        i <= chars@.len(),
    ensures
        c == char_before(chars@, i as int),
{
    if i == 0 {
        ' '
    } else {
        chars[i - 1]
    }
}

/// The characters of a string, in order.
pub fn chars_of(s: &str) -> (v: Vec<char>)
    ensures
        v@ == s@,
{
    let mut v: Vec<char> = Vec::new();
    for c in it: s.chars()
        invariant
            v@ == it.seq().take(it.index()),
            it.seq() == s@,
    {
        v.push(c);
    }
    v
}

/// The string without the white space that it starts with.
pub fn trim_start<'b>(s: &'b str) -> (r: &'b str)
    ensures
        r@ == skip_space(s@),
{
    let chars = chars_of(s);
    let n = chars.len();
    let mut k: usize = 0;
    proof {
        assert(s@.skip(0) == s@);
    }
    while k < n && is_whitespace(chars[k])
        invariant
            n == chars.len(),
            chars@ == s@,
            k <= n,
            skip_space(s@) == skip_space(s@.skip(k as int)),
        decreases n - k,
    {
        proof {
            assert(s@.skip(k as int).skip(1) == s@.skip(k + 1));
        }
        k = k + 1;
    }
    proof {
        assert(s@.skip(k as int) == s@.subrange(k as int, n as int));
    }
    s.substring_char(k, n)
}

/// The string without the white space that it ends with.
pub fn trim_end<'b>(s: &'b str) -> (r: &'b str)
    ensures
        r@ == drop_space(s@),
{
    let chars = chars_of(s);
    let mut k: usize = chars.len();
    proof {
        assert(s@.take(k as int) == s@);
    }
    while k > 0 && is_whitespace(chars[k - 1])
        invariant
            chars@ == s@,
            k <= chars@.len(),
            drop_space(s@) == drop_space(s@.take(k as int)),
        decreases k,
    {
        proof {
            assert(s@.take(k as int).drop_last() == s@.take(k - 1));
        }
        k = k - 1;
    }
    proof {
        assert(s@.take(k as int) == s@.subrange(0, k as int));
    }
    s.substring_char(0, k)
}

/// The string without the line feed that it ends with, if it does.
pub fn trim_feed<'b>(s: &'b str) -> (r: &'b str)
    ensures
        r@ == drop_feed(s@),
{
    let n = s.unicode_len();
    if n > 0 && s.get_char(n - 1) == '\n' {
        s.substring_char(0, n - 1)
    } else {
        s
    }
}

/// Whether two strings have the same characters.
pub(crate) fn same_text(a: &str, b: &str) -> (r: bool)
    ensures
        r == (a@ == b@),
{
    a.to_owned() == b.to_owned()
}

/// Whether `s` starts with `p`.
pub(crate) fn starts_with(s: &str, p: &str) -> (r: bool)
    ensures
        r == p@.is_prefix_of(s@),
{
    let n = p.unicode_len();
    n <= s.unicode_len() && same_text(s.substring_char(0, n), p)
}

/// Whether a string is nothing but white space.
pub(crate) fn is_blank_text(s: &str) -> (r: bool)
    ensures
        r == is_blank(s@),
{
    let chars = chars_of(s);
    let mut i: usize = 0;
    while i < chars.len()
        invariant
            chars@ == s@,
            i <= chars@.len(),
            forall|k: int| 0 <= k < i ==> is_space(#[trigger] s@[k]),
        decreases chars.len() - i,
    {
        if !is_whitespace(chars[i]) {
            return false;
        }
        i = i + 1;
    }
    true
}

/// Three strings in a row.
pub(crate) fn join(a: &str, b: &str, c: &str) -> (r: String)
    ensures
        r@ == a@ + b@ + c@,
{
    let mut r = a.to_owned();
    r.append(b);
    r.append(c);
    r
}

} // verus!
