//! Comments and literals within one line of Rust source.
//!
//! A line is cut into tokens: comments, string and char literals, and single
//! characters of code. Stripping keeps every token that is not a comment. A block comment
//! or a string literal that a line leaves open goes on in the next line.

use crate::text::{char_before, chars_of, ident_char, is_ident_char, prev_char};
use vstd::prelude::*;

verus! {

/// What a line starts inside of, as the lines before it have left it.
#[derive(Clone, Copy, PartialEq, Eq, Structural, Debug)]
pub enum Inside {
    /// Nothing that goes on from line to line.
    Code,
    /// A block comment.
    Comment,
    /// A string literal.
    Text,
    /// A raw string literal with this number of hashes.
    RawText(usize),
    /// What is read as a block comment in a raw string literal with this number of hashes.
    RawComment(usize),
}

/// Whether a line is read as code from its start. The lines of a raw string are.
pub open spec fn reads_code(inside: Inside) -> bool {
    inside is Code || inside is RawText
}

/// Whether a line is read as a block comment from its start.
pub open spec fn reads_comment(inside: Inside) -> bool {
    inside is Comment || inside is RawComment
}

/// What a token is.
pub enum Kind {
    /// From `//` to the end of the line.
    LineComment,
    /// From `/*`, or from the start of a line that an earlier line left inside a
    /// comment, to `*/` or to the end of the line.
    BlockComment,
    /// `r"..."`, `r#"..."#`, `br"..."` and so on.
    RawString,
    /// A string literal, or what is left of one that an earlier line left open, or a
    /// char literal that starts with a backslash.
    Quoted,
    /// A char literal of one plain character, such as `'x'`.
    CharLiteral,
    /// Any other single character.
    Code,
}

/// The part of a line from `start` up to but not including `end`.
pub struct Token {
    pub kind: Kind,
    pub start: int,
    pub end: int,
    /// What the line goes on inside of after this token.
    pub after: Inside,
}

/// The characters `a` and `b` stand at `i` and `i + 1`.
pub open spec fn pair_at(s: Seq<char>, i: int, a: char, b: char) -> bool {
    i + 1 < s.len() && s[i] == a && s[i + 1] == b
}

/// The position, or the end of the line where there is none.
pub open spec fn or_end(s: Seq<char>, close: Option<int>) -> int {
    match close {
        Some(end) => end,
        None => s.len() as int,
    }
}

/// The position after the first `*/` at or after `i`.
pub open spec fn block_close(s: Seq<char>, i: int) -> Option<int>
    decreases s.len() - i,
{
    if i + 1 >= s.len() {
        None
    } else if pair_at(s, i, '*', '/') {
        Some(i + 2)
    } else {
        block_close(s, i + 1)
    }
}

/// The position after the closing `quote` of a literal whose content goes on at `i`;
/// a backslash hides the character after it.
pub open spec fn quoted_close(s: Seq<char>, i: int, quote: char) -> Option<int>
    decreases s.len() - i,
{
    if i >= s.len() {
        None
    } else if s[i] == '\\' && i + 1 < s.len() {
        quoted_close(s, i + 2, quote)
    } else if s[i] == quote {
        Some(i + 1)
    } else {
        quoted_close(s, i + 1, quote)
    }
}

/// The end of the run of `#` that starts at `i`.
pub open spec fn hashes_end(s: Seq<char>, i: int) -> int
    decreases s.len() - i,
{
    if i < s.len() && s[i] == '#' {
        hashes_end(s, i + 1)
    } else {
        i
    }
}

/// The `n` characters from `i` on are all `#`.
pub open spec fn hashes_at(s: Seq<char>, i: int, n: int) -> bool {
    i + n <= s.len() && forall|h: int| i <= h < i + n ==> #[trigger] s[h] == '#'
}

/// The position after the `"` and the `n` hashes that close a raw string whose
/// content goes on at `i`.
pub open spec fn raw_close(s: Seq<char>, i: int, n: int) -> Option<int>
    decreases s.len() - i,
{
    if i >= s.len() {
        None
    } else if s[i] == '"' && hashes_at(s, i + 1, n) {
        Some(i + 1 + n)
    } else {
        raw_close(s, i + 1, n)
    }
}

/// The position of the `r` of a raw string literal that starts at `i`.
pub open spec fn raw_mark(s: Seq<char>, i: int) -> int {
    if s[i] == 'b' {
        i + 1
    } else {
        i
    }
}

/// The position of the opening `"` of the raw string literal that starts at `i`.
pub open spec fn raw_quote(s: Seq<char>, i: int) -> int {
    hashes_end(s, raw_mark(s, i) + 1)
}

/// The number of hashes of the raw string literal that starts at `i`.
pub open spec fn raw_hashes(s: Seq<char>, i: int) -> int {
    raw_quote(s, i) - (raw_mark(s, i) + 1)
}

/// Whether a raw string literal starts at `i`.
pub open spec fn raw_starts(s: Seq<char>, i: int) -> bool {
    let r = raw_mark(s, i);
    let q = raw_quote(s, i);
    r < s.len() && s[r] == 'r' && q < s.len() && s[q] == '"'
}

/// The position after the raw string literal that starts at `i`, if it ends on the line.
pub open spec fn raw_string_close(s: Seq<char>, i: int) -> Option<int> {
    raw_close(s, raw_quote(s, i) + 1, raw_hashes(s, i))
}

/// The end of the raw string literal that starts at `i`, if one does. The end of the line
/// also ends it.
pub open spec fn raw_string_end(s: Seq<char>, i: int) -> Option<int> {
    if raw_starts(s, i) {
        Some(or_end(s, raw_string_close(s, i)))
    } else {
        None
    }
}

/// What the token at `i` is; `inside` says what `i` is inside of.
pub open spec fn token_kind(s: Seq<char>, i: int, inside: Inside) -> Kind {
    if reads_comment(inside) {
        Kind::BlockComment
    } else if inside is Text {
        Kind::Quoted
    } else if pair_at(s, i, '/', '*') {
        Kind::BlockComment
    } else if pair_at(s, i, '/', '/') {
        Kind::LineComment
    } else if (s[i] == 'r' || s[i] == 'b') && !ident_char(char_before(s, i)) && raw_starts(s, i) {
        Kind::RawString
    } else if s[i] == '"' || (s[i] == '\'' && i + 1 < s.len() && s[i + 1] == '\\') {
        Kind::Quoted
    } else if s[i] == '\'' && i + 2 < s.len() && s[i + 2] == '\'' {
        Kind::CharLiteral
    } else {
        Kind::Code
    }
}

/// The position after the block comment at `i`, if it ends on the line.
pub open spec fn comment_close(s: Seq<char>, i: int, inside: Inside) -> Option<int> {
    if reads_comment(inside) {
        block_close(s, i)
    } else {
        block_close(s, i + 2)
    }
}

/// The position after the quoted literal at `i`, if it ends on the line.
pub open spec fn literal_close(s: Seq<char>, i: int, inside: Inside) -> Option<int> {
    if inside is Text {
        quoted_close(s, i, '"')
    } else {
        quoted_close(s, i + 1, s[i])
    }
}

/// The token at `i`. What is left open at the end of the line goes on behind it, except a
/// char literal.
pub open spec fn next_token(s: Seq<char>, i: int, inside: Inside) -> Token {
    let kind = token_kind(s, i, inside);
    let (end, after) = match kind {
        Kind::LineComment => (s.len() as int, Inside::Code),
        Kind::BlockComment => {
            let close = comment_close(s, i, inside);
            (
                or_end(s, close),
                if close is None {
                    Inside::Comment
                } else {
                    Inside::Code
                },
            )
        },
        Kind::RawString => {
            let close = raw_string_close(s, i);
            (
                or_end(s, close),
                if close is None {
                    Inside::RawText(raw_hashes(s, i) as usize)
                } else {
                    Inside::Code
                },
            )
        },
        Kind::Quoted => {
            let close = literal_close(s, i, inside);
            (
                or_end(s, close),
                if close is None && (inside is Text || s[i] == '"') {
                    Inside::Text
                } else {
                    Inside::Code
                },
            )
        },
        Kind::CharLiteral => (i + 3, Inside::Code),
        Kind::Code => (i + 1, Inside::Code),
    };
    Token { kind, start: i, end, after }
}

/// The tokens from `i` to the end of the line.
pub open spec fn tokens(s: Seq<char>, i: int, inside: Inside) -> Seq<Token>
    decreases s.len() - i,
{
    if 0 <= i < s.len() {
        proof {
            lemma_token_bounds(s, i, inside);
        }
        let t = next_token(s, i, inside);
        seq![t] + tokens(s, t.end, t.after)
    } else {
        Seq::empty()
    }
}

/// What stripping leaves of a token.
pub open spec fn kept(s: Seq<char>, t: Token) -> Seq<char> {
    if t.kind is LineComment || t.kind is BlockComment {
        Seq::empty()
    } else {
        s.subrange(t.start, t.end)
    }
}

/// What stripping leaves of a run of tokens.
pub open spec fn all_kept(s: Seq<char>, ts: Seq<Token>) -> Seq<char>
    decreases ts.len(),
{
    if ts.len() == 0 {
        Seq::empty()
    } else {
        kept(s, ts[0]) + all_kept(s, ts.skip(1))
    }
}

/// The line without its comments; `inside` says what it starts inside of.
pub open spec fn stripped(s: Seq<char>, inside: Inside) -> Seq<char> {
    all_kept(s, tokens(s, 0, inside))
}

/// What a run of tokens that starts inside of `inside` ends inside of.
pub open spec fn inside_after(ts: Seq<Token>, inside: Inside) -> Inside {
    if ts.len() == 0 {
        inside
    } else {
        ts.last().after
    }
}

/// What the line after `s` starts inside of, where `s` starts inside a raw string with `n`
/// hashes and is read up to its end as `after`. A block comment goes on as it was read. A
/// quote opens no string for the next line, unless it stands behind the end of the raw
/// string.
pub open spec fn raw_leaves_inside(s: Seq<char>, n: usize, after: Inside) -> Inside {
    match raw_close(s, 0, n as int) {
        Some(end) => {
            let behind = inside_after(tokens(s, end, Inside::Code), Inside::Code);
            if reads_comment(after) {
                Inside::Comment
            } else if reads_comment(behind) {
                Inside::Code
            } else {
                behind
            }
        },
        None => if reads_comment(after) {
            Inside::RawComment(n)
        } else {
            Inside::RawText(n)
        },
    }
}

/// What the line after `s` starts inside of.
pub open spec fn leaves_inside(s: Seq<char>, inside: Inside) -> Inside {
    let after = inside_after(tokens(s, 0, inside), inside);
    match inside {
        Inside::RawText(n) => raw_leaves_inside(s, n, after),
        Inside::RawComment(n) => raw_leaves_inside(s, n, after),
        _ => after,
    }
}

proof fn lemma_block_close(s: Seq<char>, i: int)
    ensures
        block_close(s, i) matches Some(j) ==> i + 2 <= j <= s.len(),
    decreases s.len() - i,
{
    if i + 1 < s.len() && !pair_at(s, i, '*', '/') {
        lemma_block_close(s, i + 1);
    }
}

/// The end of a quoted literal lies on the line.
pub proof fn lemma_quoted_close(s: Seq<char>, i: int, quote: char)
    ensures
        quoted_close(s, i, quote) matches Some(j) ==> i < j <= s.len(),
    decreases s.len() - i,
{
    if i >= s.len() {
    } else if s[i] == '\\' && i + 1 < s.len() {
        lemma_quoted_close(s, i + 2, quote);
    } else if s[i] != quote {
        lemma_quoted_close(s, i + 1, quote);
    }
}

proof fn lemma_hashes_end(s: Seq<char>, i: int)
    ensures
        i <= hashes_end(s, i),
        i <= s.len() ==> hashes_end(s, i) <= s.len(),
    decreases s.len() - i,
{
    if i < s.len() && s[i] == '#' {
        lemma_hashes_end(s, i + 1);
    }
}

proof fn lemma_raw_close(s: Seq<char>, i: int, n: int)
    requires
        n >= 0,
    ensures
        raw_close(s, i, n) matches Some(j) ==> i < j <= s.len(),
    decreases s.len() - i,
{
    if i < s.len() && !(s[i] == '"' && hashes_at(s, i + 1, n)) {
        lemma_raw_close(s, i + 1, n);
    }
}

proof fn lemma_raw_string(s: Seq<char>, i: int)
    requires
        0 <= i < s.len(),
    ensures
        i < raw_quote(s, i),
        raw_hashes(s, i) >= 0,
        raw_string_close(s, i) matches Some(e) ==> i < e <= s.len(),
{
    lemma_hashes_end(s, raw_mark(s, i) + 1);
    lemma_raw_close(s, raw_quote(s, i) + 1, raw_hashes(s, i));
}

/// A token is not empty and does not go past the end of the line.
pub proof fn lemma_token_bounds(s: Seq<char>, i: int, inside: Inside)
    requires
        0 <= i < s.len(),
    ensures
        i < next_token(s, i, inside).end <= s.len(),
{
    lemma_block_close(s, i);
    lemma_block_close(s, i + 2);
    lemma_quoted_close(s, i, '"');
    lemma_quoted_close(s, i + 1, s[i]);
    lemma_raw_string(s, i);
}

/// One step of stripping: the first token, and what follows it.
proof fn lemma_tokens_step(s: Seq<char>, i: int, inside: Inside)
    requires
        0 <= i < s.len(),
    ensures
        ({
            let t = next_token(s, i, inside);
            let ts = tokens(s, i, inside);
            let rest = tokens(s, t.end, t.after);
            &&& ts == seq![t] + rest
            &&& all_kept(s, ts) == kept(s, t) + all_kept(s, rest)
            &&& inside_after(ts, inside) == inside_after(rest, t.after)
        }),
{
    let t = next_token(s, i, inside);
    let rest = tokens(s, t.end, t.after);
    assert((seq![t] + rest).skip(1) == rest);
}

/// The position after the first `*/` at or after `from`, if there is one.
fn find_block_close(chars: &[char], from: usize) -> (r: Option<usize>)
    requires
        from <= chars@.len(),
    ensures
        r is Some <==> block_close(chars@, from as int) is Some,
        r matches Some(j) ==> block_close(chars@, from as int) == Some(j as int),
{
    let n = chars.len();
    let mut i: usize = from;
    while i < n && n - i >= 2
        invariant
            n == chars@.len(),
            from <= i <= n,
            block_close(chars@, from as int) == block_close(chars@, i as int),
        decreases n - i,
    {
        if chars[i] == '*' && chars[i + 1] == '/' {
            return Some(i + 2);
        }
        i = i + 1;
    }
    None
}

/// The position after the closing `quote` of a literal whose content goes on at `from`,
/// if there is one.
fn find_quoted_close(chars: &[char], from: usize, quote: char) -> (r: Option<usize>)
    requires
        from <= chars@.len(),
    ensures
        r is Some <==> quoted_close(chars@, from as int, quote) is Some,
        r matches Some(j) ==> quoted_close(chars@, from as int, quote) == Some(j as int) && j
            <= chars@.len(),
{
    let n = chars.len();
    let mut i: usize = from;
    while i < n
        invariant
            n == chars@.len(),
            from <= i <= n,
            quoted_close(chars@, from as int, quote) == quoted_close(chars@, i as int, quote),
        decreases n - i,
    {
        if chars[i] == '\\' && n - i >= 2 {
            i = i + 2;
        } else if chars[i] == quote {
            return Some(i + 1);
        } else {
            i = i + 1;
        }
    }
    None
}

/// Whether the `count` characters from `from` on are all `#`.
fn has_hashes(chars: &[char], from: usize, count: usize) -> (b: bool)
    requires
        from <= chars@.len(),
    ensures
        b == hashes_at(chars@, from as int, count as int),
{
    if count > chars.len() - from {
        return false;
    }
    let to: usize = from + count;
    let mut h: usize = from;
    while h < to
        invariant
            from <= h <= to <= chars@.len(),
            to == from + count,
            forall|k: int| from <= k < h ==> #[trigger] chars@[k] == '#',
        decreases to - h,
    {
        if chars[h] != '#' {
            return false;
        }
        h = h + 1;
    }
    true
}

/// The position after the `"` and the hashes that close a raw string whose content goes on
/// at `from`, if they are there.
fn find_raw_close(chars: &[char], from: usize, hashes: usize) -> (r: Option<usize>)
    requires
        from <= chars@.len(),
    ensures
        r is Some <==> raw_close(chars@, from as int, hashes as int) is Some,
        r matches Some(j) ==> raw_close(chars@, from as int, hashes as int) == Some(j as int) && j
            <= chars@.len(),
{
    let n = chars.len();
    let mut k: usize = from;
    while k < n
        invariant
            n == chars@.len(),
            from <= k <= n,
            raw_close(chars@, from as int, hashes as int) == raw_close(
                chars@,
                k as int,
                hashes as int,
            ),
        decreases n - k,
    {
        if chars[k] == '"' && has_hashes(chars, k + 1, hashes) {
            return Some(k + 1 + hashes);
        }
        k = k + 1;
    }
    None
}

/// The number of hashes of the raw string literal that starts at `start`, if one does, and
/// the position after it, if it ends on the line.
fn find_raw_string(chars: &[char], start: usize) -> (r: Option<(usize, Option<usize>)>)
    requires
        start < chars@.len(),
    ensures
        r is Some <==> raw_starts(chars@, start as int),
        r matches Some((hashes, close)) ==> {
            &&& hashes == raw_hashes(chars@, start as int)
            &&& close is Some <==> raw_string_close(chars@, start as int) is Some
            &&& close matches Some(end) ==> raw_string_close(chars@, start as int) == Some(
                end as int,
            )
        },
{
    let n = chars.len();
    let mut i: usize = start;
    if chars[i] == 'b' {
        i = i + 1;
    }
    if i >= n || chars[i] != 'r' {
        return None;
    }
    let mut j: usize = i + 1;
    while j < n && chars[j] == '#'
        invariant
            n == chars@.len(),
            i + 1 <= j <= n,
            hashes_end(chars@, i + 1) == hashes_end(chars@, j as int),
        decreases n - j,
    {
        j = j + 1;
    }
    if j >= n || chars[j] != '"' {
        return None;
    }
    let hashes: usize = j - (i + 1);
    Some((hashes, find_raw_close(chars, j + 1, hashes)))
}

/// The position, or the end of the line where there is none.
fn position_or_end(chars: &[char], close: Option<usize>) -> (end: usize)
    ensures
        end == (match close {
            Some(j) => j as int,
            None => chars@.len() as int,
        }),
{
    match close {
        Some(j) => j,
        None => chars.len(),
    }
}

/// Appends the characters from `from` up to but not including `to`.
fn push_range(chars: &[char], from: usize, to: usize, out: &mut String)
    requires
        from <= to <= chars@.len(),
    ensures
        final(out)@ == old(out)@ + chars@.subrange(from as int, to as int),
{
    let mut k: usize = from;
    proof {
        assert(chars@.subrange(from as int, from as int) == Seq::<char>::empty());
    }
    while k < to
        invariant
            from <= k <= to <= chars@.len(),
            out@ == old(out)@ + chars@.subrange(from as int, k as int),
        decreases to - k,
    {
        out.push(chars[k]);
        proof {
            assert(chars@.subrange(from as int, k + 1) == chars@.subrange(
                from as int,
                k as int,
            ).push(chars@[k as int]));
        }
        k = k + 1;
    }
}

/// If a raw string literal (`r"..."`, `r#"..."#`, `br"..."`, ...) starts at
/// `start`, copies it verbatim into `out` and returns the index just past it.
/// Returns `None` when there is no raw string at `start` (e.g. a raw identifier
/// `r#ident`, or a plain `r`/`b` in code).
///
/// A raw string that does not end on this line is copied up to the end of the line.
pub fn copy_raw_string(chars: &[char], start: usize, out: &mut String) -> (r: Option<usize>)
    requires
        start < chars@.len(),
    ensures
        match raw_string_end(chars@, start as int) {
            Some(end) => {
                &&& r == Some(end as usize)
                &&& start < end <= chars@.len()
                &&& final(out)@ == old(out)@ + chars@.subrange(start as int, end)
            },
            None => r is None && final(out)@ == old(out)@,
        },
{
    match find_raw_string(chars, start) {
        Some((_, close)) => {
            proof {
                lemma_raw_string(chars@, start as int);
            }
            let end = position_or_end(chars, close);
            push_range(chars, start, end, out);
            Some(end)
        },
        None => None,
    }
}

/// Appends what stripping leaves of a line from `from` on, where it is inside of `inside`,
/// and returns what it ends inside of.
fn strip_from(chars: &[char], from: usize, inside: Inside, out: &mut String) -> (after: Inside)
    requires
        from <= chars@.len(),
    ensures
        final(out)@ == old(out)@ + all_kept(chars@, tokens(chars@, from as int, inside)),
        after == inside_after(tokens(chars@, from as int, inside), inside),
{
    let n = chars.len();
    let ghost all = tokens(chars@, from as int, inside);
    let mut i: usize = from;
    let mut now = inside;
    while i < n
        invariant
            n == chars@.len(),
            i <= n,
            all == tokens(chars@, from as int, inside),
            old(out)@ + all_kept(chars@, all) == out@ + all_kept(
                chars@,
                tokens(chars@, i as int, now),
            ),
            inside_after(all, inside) == inside_after(tokens(chars@, i as int, now), now),
        decreases n - i,
    {
        proof {
            lemma_token_bounds(chars@, i as int, now);
            lemma_tokens_step(chars@, i as int, now);
            lemma_raw_string(chars@, i as int);
        }
        let c = chars[i];
        let in_comment = matches!(now, Inside::Comment | Inside::RawComment(_));
        let in_text = matches!(now, Inside::Text);
        if in_comment || (!in_text && c == '/' && n - i >= 2 && chars[i + 1] == '*') {
            let body: usize = if in_comment {
                i
            } else {
                i + 2
            };
            match find_block_close(chars, body) {
                Some(end) => {
                    now = Inside::Code;
                    i = end;
                },
                None => {
                    now = Inside::Comment;
                    i = n;
                },
            }
            continue ;
        }
        // Line comment: the rest of the line is dropped.
        if !in_text && c == '/' && n - i >= 2 && chars[i + 1] == '/' {
            now = Inside::Code;
            i = n;
            continue ;
        }
        // Raw string: r"...", r#"..."#, br"...", etc.
        if !in_text && (c == 'r' || c == 'b') && !is_ident_char(prev_char(chars, i)) {
            if let Some((hashes, close)) = find_raw_string(chars, i) {
                now = match close {
                    Some(_) => Inside::Code,
                    None => Inside::RawText(hashes),
                };
                let end = position_or_end(chars, close);
                push_range(chars, i, end, out);
                i = end;
                continue ;
            }
        }
        // A string literal, a char literal, or one character of code. A quote that
        // opens no char literal is that of a lifetime or label ('a, 'static).
        let end: usize;
        if in_text || c == '"' || (c == '\'' && n - i >= 2 && chars[i + 1] == '\\') {
            let close = if in_text {
                find_quoted_close(chars, i, '"')
            } else {
                find_quoted_close(chars, i + 1, c)
            };
            now = if close.is_none() && (in_text || c == '"') {
                Inside::Text
            } else {
                Inside::Code
            };
            end = position_or_end(chars, close);
        } else {
            now = Inside::Code;
            end = if c == '\'' && n - i >= 3 && chars[i + 2] == '\'' {
                i + 3
            } else {
                i + 1
            };
        }
        push_range(chars, i, end, out);
        i = end;
    }
    now
}

/// Removes `//` line comments and `/* */` block comments from one line, while
/// preserving string, char, byte-string and raw-string literals. `inside` carries
/// from line to line what is left open: a block comment or a string literal.
///
/// Limitation: a raw string that spans several lines is not tracked as one. Its lines are
/// stripped one by one, like lines of code, and what is read as a block comment in it goes
/// on from line to line. Only its end is looked for, so that its quotes open no string.
pub fn strip_line(line: &str, inside: &mut Inside) -> (out: String)
    ensures
        out@ == stripped(line@, *old(inside)),
        *final(inside) == leaves_inside(line@, *old(inside)),
{
    let chars = chars_of(line);
    let mut out = String::new();
    let after = strip_from(chars.as_slice(), 0, *inside, &mut out);
    *inside = match *inside {
        Inside::RawText(hashes) => leave_raw(chars.as_slice(), hashes, after),
        Inside::RawComment(hashes) => leave_raw(chars.as_slice(), hashes, after),
        _ => after,
    };
    out
}

/// What the next line starts inside of, where this one starts inside a raw string and is
/// read up to its end as `after`.
fn leave_raw(chars: &[char], hashes: usize, after: Inside) -> (r: Inside)
    ensures
        r == raw_leaves_inside(chars@, hashes, after),
{
    let in_comment = matches!(after, Inside::Comment | Inside::RawComment(_));
    match find_raw_close(chars, 0, hashes) {
        Some(end) => {
            let mut rest = String::new();
            let behind = strip_from(chars, end, Inside::Code, &mut rest);
            if in_comment {
                Inside::Comment
            } else if matches!(behind, Inside::Comment | Inside::RawComment(_)) {
                Inside::Code
            } else {
                behind
            }
        },
        None => if in_comment {
            Inside::RawComment(hashes)
        } else {
            Inside::RawText(hashes)
        },
    }
}

/// What token `k` starts inside of.
pub open spec fn inside_before(ts: Seq<Token>, k: int, inside: Inside) -> Inside {
    if k == 0 {
        inside
    } else {
        ts[k - 1].after
    }
}

/// Token `k` is not empty, starts where the one before it ends (the first one at `i`),
/// and is the token that stands there.
pub open spec fn in_place(s: Seq<char>, ts: Seq<Token>, i: int, inside: Inside, k: int) -> bool {
    &&& ts[k].start == (if k == 0 {
        i
    } else {
        ts[k - 1].end
    })
    &&& ts[k] == next_token(s, ts[k].start, inside_before(ts, k, inside))
    &&& ts[k].start < ts[k].end <= s.len()
}

/// The tokens follow each other from `i` to the end of the line without a gap.
pub open spec fn covers(s: Seq<char>, ts: Seq<Token>, i: int, inside: Inside) -> bool {
    &&& i < s.len() <==> ts.len() > 0
    &&& ts.len() > 0 ==> ts.last().end == s.len()
    &&& forall|k: int| 0 <= k < ts.len() ==> #[trigger] in_place(s, ts, i, inside, k)
}

proof fn lemma_cover(s: Seq<char>, i: int, inside: Inside)
    requires
        0 <= i <= s.len(),
    ensures
        covers(s, tokens(s, i, inside), i, inside),
    decreases s.len() - i,
{
    if i < s.len() {
        let t = next_token(s, i, inside);
        let ts = tokens(s, i, inside);
        let rest = tokens(s, t.end, t.after);
        lemma_token_bounds(s, i, inside);
        lemma_tokens_step(s, i, inside);
        lemma_cover(s, t.end, t.after);
        assert forall|k: int| 0 <= k < ts.len() implies #[trigger] in_place(
            s,
            ts,
            i,
            inside,
            k,
        ) by {
            if k > 0 {
                assert(in_place(s, rest, t.end, t.after, k - 1));
                assert(ts[k] == rest[k - 1]);
            }
        }
    }
}

/// The tokens of a line cover it: they are not empty, the first starts where the line
/// does, each starts where the one before it ends, and the last ends where the line
/// ends. So every character belongs to exactly one token.
pub proof fn law_tokens_cover_the_line(s: Seq<char>, inside: Inside)
    ensures
        covers(s, tokens(s, 0, inside), 0, inside),
{
    lemma_cover(s, 0, inside);
}

/// A line comment reaches to the end of the line: no token follows it.
pub proof fn law_line_comment_is_last(s: Seq<char>, inside: Inside, k: int)
    requires
        0 <= k < tokens(s, 0, inside).len(),
        tokens(s, 0, inside)[k].kind is LineComment,
    ensures
        k == tokens(s, 0, inside).len() - 1,
{
    let ts = tokens(s, 0, inside);
    lemma_cover(s, 0, inside);
    assert(in_place(s, ts, 0, inside, k));
    if k + 1 < ts.len() {
        assert(in_place(s, ts, 0, inside, k + 1));
    }
}

proof fn lemma_all_kept_split(s: Seq<char>, ts: Seq<Token>, k: int)
    requires
        0 <= k < ts.len(),
    ensures
        all_kept(s, ts) == all_kept(s, ts.take(k)) + kept(s, ts[k]) + all_kept(s, ts.skip(k + 1)),
    decreases k,
{
    if k == 0 {
        assert(ts.take(0) == Seq::<Token>::empty());
        assert(all_kept(s, ts) == Seq::<char>::empty() + kept(s, ts[0]) + all_kept(s, ts.skip(1)));
    } else {
        lemma_all_kept_split(s, ts.skip(1), k - 1);
        assert(ts.skip(1).take(k - 1) == ts.take(k).skip(1));
        assert(ts.skip(1).skip(k) == ts.skip(k + 1));
        assert(ts.take(k)[0] == ts[0]);
        assert(all_kept(s, ts) == all_kept(s, ts.take(k)) + kept(s, ts[k]) + all_kept(
            s,
            ts.skip(k + 1),
        ));
    }
}

/// Literals and code survive: a token that is no comment stands in the stripped line
/// verbatim, between what is kept of the tokens before it and of those after it.
pub proof fn law_literals_and_code_survive(s: Seq<char>, inside: Inside, k: int)
    requires
        0 <= k < tokens(s, 0, inside).len(),
        !(tokens(s, 0, inside)[k].kind is LineComment),
        !(tokens(s, 0, inside)[k].kind is BlockComment),
    ensures
        ({
            let ts = tokens(s, 0, inside);
            stripped(s, inside) == all_kept(s, ts.take(k)) + s.subrange(ts[k].start, ts[k].end)
                + all_kept(s, ts.skip(k + 1))
        }),
{
    lemma_all_kept_split(s, tokens(s, 0, inside), k);
}

/// Comments vanish: a comment adds nothing to the stripped line.
pub proof fn law_comments_vanish(s: Seq<char>, inside: Inside, k: int)
    requires
        0 <= k < tokens(s, 0, inside).len(),
        tokens(s, 0, inside)[k].kind is LineComment || tokens(s, 0, inside)[k].kind is BlockComment,
    ensures
        ({
            let ts = tokens(s, 0, inside);
            stripped(s, inside) == all_kept(s, ts.take(k)) + all_kept(s, ts.skip(k + 1))
        }),
{
    let ts = tokens(s, 0, inside);
    lemma_all_kept_split(s, ts, k);
    assert(all_kept(s, ts.take(k)) + Seq::<char>::empty() == all_kept(s, ts.take(k)));
}

proof fn lemma_no_opener(s: Seq<char>, i: int, inside: Inside)
    requires
        0 <= i <= s.len(),
        !reads_comment(inside),
        forall|j: int| i <= j < s.len() ==> !(#[trigger] pair_at(s, j, '/', '/')),
        forall|j: int| i <= j < s.len() ==> !(#[trigger] pair_at(s, j, '/', '*')),
    ensures
        all_kept(s, tokens(s, i, inside)) == s.skip(i),
        !reads_comment(inside_after(tokens(s, i, inside), inside)),
    decreases s.len() - i,
{
    if i < s.len() {
        let t = next_token(s, i, inside);
        lemma_token_bounds(s, i, inside);
        lemma_tokens_step(s, i, inside);
        assert(!pair_at(s, i, '/', '/') && !pair_at(s, i, '/', '*'));
        lemma_no_opener(s, t.end, t.after);
        assert(s.skip(i) == s.subrange(i, t.end) + s.skip(t.end));
    } else {
        assert(s.skip(i) == Seq::<char>::empty());
    }
}

/// A line outside block comments in which neither `//` nor `/*` occurs is unchanged, and
/// the next line is outside block comments too.
pub proof fn law_line_without_comment_is_unchanged(s: Seq<char>, inside: Inside)
    requires
        !reads_comment(inside),
        forall|i: int| 0 <= i < s.len() ==> !(#[trigger] pair_at(s, i, '/', '/')),
        forall|i: int| 0 <= i < s.len() ==> !(#[trigger] pair_at(s, i, '/', '*')),
    ensures
        stripped(s, inside) == s,
        !reads_comment(leaves_inside(s, inside)),
{
    lemma_no_opener(s, 0, inside);
    assert(s.skip(0) == s);
}

/// Code in which there is no quote and no slash is kept verbatim, and the line comment
/// behind it is dropped.
pub proof fn law_trailing_comment_is_dropped(code: Seq<char>, comment: Seq<char>)
    requires
        forall|i: int|
            0 <= i < code.len() ==> #[trigger] code[i] != '/' && code[i] != '"' && code[i] != '\'',
    ensures
        stripped(code + seq!['/', '/'] + comment, Inside::Code) == code,
        leaves_inside(code + seq!['/', '/'] + comment, Inside::Code) is Code,
{
    let s = code + seq!['/', '/'] + comment;
    lemma_trailing_comment(code, s, 0);
    assert(s.subrange(0, code.len() as int) == code);
}

proof fn lemma_trailing_comment(code: Seq<char>, s: Seq<char>, i: int)
    requires
        0 <= i <= code.len(),
        code.is_prefix_of(s),
        pair_at(s, code.len() as int, '/', '/'),
        forall|j: int|
            0 <= j < code.len() ==> #[trigger] code[j] != '/' && code[j] != '"' && code[j] != '\'',
    ensures
        all_kept(s, tokens(s, i, Inside::Code)) == s.subrange(i, code.len() as int),
        inside_after(tokens(s, i, Inside::Code), Inside::Code) is Code,
    decreases code.len() - i,
{
    let n = code.len() as int;
    let t = next_token(s, i, Inside::Code);
    lemma_token_bounds(s, i, Inside::Code);
    lemma_tokens_step(s, i, Inside::Code);
    if i < n {
        assert(s[i] == code[i]);
        let r = raw_mark(s, i);
        if r < n {
            lemma_hashes_stop(code, s, r + 1);
        }
        assert(!raw_starts(s, i)) by {
            if r < n {
                let q = raw_quote(s, i);
                if q < n {
                    assert(s[q] == code[q]);
                }
            }
        }
        lemma_trailing_comment(code, s, i + 1);
        assert(s.subrange(i, n) == s.subrange(i, i + 1) + s.subrange(i + 1, n));
    } else {
        assert(s.subrange(i, n) == Seq::<char>::empty());
        assert(tokens(s, t.end, t.after) == Seq::<Token>::empty());
    }
}

proof fn lemma_hashes_stop(code: Seq<char>, s: Seq<char>, i: int)
    requires
        0 <= i <= code.len() < s.len(),
        s[code.len() as int] != '#',
    ensures
        i <= hashes_end(s, i) <= code.len(),
    decreases code.len() - i,
{
    if i < code.len() && s[i] == '#' {
        lemma_hashes_stop(code, s, i + 1);
    }
}

/// A line inside a block comment that does not close it is dropped whole, and the next
/// line is inside the comment too.
pub proof fn law_unclosed_block_swallows_the_line(s: Seq<char>)
    requires
        block_close(s, 0) is None,
    ensures
        stripped(s, Inside::Comment) == Seq::<char>::empty(),
        leaves_inside(s, Inside::Comment) is Comment,
{
    if s.len() > 0 {
        let t = next_token(s, 0, Inside::Comment);
        lemma_tokens_step(s, 0, Inside::Comment);
        assert(tokens(s, t.end, t.after) == Seq::<Token>::empty());
    }
}

/// A block comment ends at the first `*/`: what follows it is stripped as a line outside
/// comments is.
pub proof fn law_block_ends_at_its_close(s: Seq<char>)
    requires
        block_close(s, 0) is Some,
    ensures
        ({
            let rest = tokens(s, block_close(s, 0)->0, Inside::Code);
            &&& stripped(s, Inside::Comment) == all_kept(s, rest)
            &&& leaves_inside(s, Inside::Comment) == inside_after(rest, Inside::Code)
        }),
{
    lemma_block_close(s, 0);
    lemma_tokens_step(s, 0, Inside::Comment);
}

/// A line inside a string literal that does not close it is kept whole, and the next line
/// is inside the literal too.
pub proof fn law_open_string_keeps_the_line(s: Seq<char>)
    requires
        quoted_close(s, 0, '"') is None,
    ensures
        stripped(s, Inside::Text) == s,
        leaves_inside(s, Inside::Text) is Text,
{
    if s.len() > 0 {
        let t = next_token(s, 0, Inside::Text);
        lemma_tokens_step(s, 0, Inside::Text);
        assert(tokens(s, t.end, t.after) == Seq::<Token>::empty());
        assert(s.subrange(0, s.len() as int) == s);
    }
}

/// A string literal that an earlier line left open is kept up to its closing quote: what
/// follows that is stripped as a line outside literals is.
pub proof fn law_string_ends_at_its_close(s: Seq<char>)
    requires
        quoted_close(s, 0, '"') is Some,
    ensures
        ({
            let end = quoted_close(s, 0, '"')->0;
            let rest = tokens(s, end, Inside::Code);
            &&& stripped(s, Inside::Text) == s.take(end) + all_kept(s, rest)
            &&& leaves_inside(s, Inside::Text) == inside_after(rest, Inside::Code)
        }),
{
    lemma_quoted_close(s, 0, '"');
    lemma_tokens_step(s, 0, Inside::Text);
}

/// The lines of a raw string that spans several lines are stripped like lines of code, and
/// those that are read as a block comment in it like lines of a block comment.
pub proof fn law_raw_text_is_stripped_like_code(s: Seq<char>, hashes: usize)
    ensures
        stripped(s, Inside::RawText(hashes)) == stripped(s, Inside::Code),
        stripped(s, Inside::RawComment(hashes)) == stripped(s, Inside::Comment),
{
    if s.len() > 0 {
        lemma_tokens_step(s, 0, Inside::RawText(hashes));
        lemma_tokens_step(s, 0, Inside::Code);
        lemma_tokens_step(s, 0, Inside::RawComment(hashes));
        lemma_tokens_step(s, 0, Inside::Comment);
    }
}

/// Whether a line leaves a block comment open is decided by the tokens of that line alone,
/// and by whether it starts in a block comment: in a raw string as elsewhere.
pub proof fn law_block_comments_go_on_as_read(s: Seq<char>, inside: Inside)
    ensures
        reads_comment(leaves_inside(s, inside)) == reads_comment(
            inside_after(tokens(s, 0, inside), inside),
        ),
        reads_code(inside) ==> reads_comment(leaves_inside(s, inside)) == reads_comment(
            leaves_inside(s, Inside::Code),
        ),
        reads_comment(inside) ==> reads_comment(leaves_inside(s, inside)) == reads_comment(
            leaves_inside(s, Inside::Comment),
        ),
{
    if s.len() > 0 {
        lemma_tokens_step(s, 0, inside);
        lemma_tokens_step(s, 0, Inside::Code);
        lemma_tokens_step(s, 0, Inside::Comment);
    }
}

/// Before the end of a raw string that spans several lines, no string is left open.
pub proof fn law_raw_text_opens_no_string(s: Seq<char>, inside: Inside, hashes: usize)
    requires
        inside == Inside::RawText(hashes) || inside == Inside::RawComment(hashes),
        raw_close(s, 0, hashes as int) is None,
    ensures
        leaves_inside(s, inside) == Inside::RawText(hashes) || leaves_inside(s, inside)
            == Inside::RawComment(hashes),
{
}

} // verus!
