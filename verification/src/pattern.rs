//! Regular expressions for lines of Rust source.

use crate::grammar::{declared_mod, imported, is_link_line, is_warn_line};
use crate::paths::{is_replaced_paths, replacement, replacement_text, Replacement};
use crate::state::BundleError;
use crate::text::{chars_of, is_ascii_alphanumeric, skip_space};
use vstd::prelude::*;
use vstd::string::*;

verus! {

/// A `#![warn(...)]` line, in the shorthand of [`source_line_regex`].
pub const WARN_SOURCE: &'static str = r" #!\[warn\(.*";

/// A `mod name;` line, in the shorthand of [`source_line_regex`].
pub const MOD_SOURCE: &'static str = r" (pub  )?mod  (?P<m>.+) ; ";

/// An absolute path. The library is wrapped in `pub mod <crate_name>`, so such a path
/// inside it is rewritten to `crate::<crate_name>::`. This is right for `use`
/// statements and for paths in expressions, at any depth of modules. The optional
/// first segment and `!` single out macro invocations: `crate::NAME!` is a
/// `#[macro_export]` macro, which stays at the root of the bundle. A `!=` behind the
/// segment is an operator.
pub const CRATE_PATH: &'static str = r"\bcrate::(?P<seg>\w+)?(?P<bang>!=?)?";

/// A whole line, with what follows its leading white space.
pub const MINIFY: &'static str = r"^\s*(?P<contents>.*)\s*$";

/// The shorthand written out: two spaces stand for `\s+`, a single one for `\s*`.
pub open spec fn widened(source: Seq<char>) -> Seq<char>
    decreases source.len(),
{
    if source.len() == 0 {
        Seq::empty()
    } else if source[0] != ' ' {
        seq![source[0]] + widened(source.skip(1))
    } else if source.len() > 1 && source[1] == ' ' {
        seq!['\\', 's', '+'] + widened(source.skip(2))
    } else {
        seq!['\\', 's', '*'] + widened(source.skip(1))
    }
}

/// The pattern of a line of source: the shorthand, anchored at both ends, with an
/// optional line comment behind it.
pub open spec fn line_pattern(source: Seq<char>) -> Seq<char> {
    "^"@ + widened(source) + r"(?://.*)?$"@
}

/// The line that pulls the library in, in the shorthand.
pub open spec fn link_source(crate_name: Seq<char>) -> Seq<char> {
    " extern  crate  "@ + crate_name + " ; "@
}

/// A line that imports from the library, in the shorthand.
pub open spec fn import_source(crate_name: Seq<char>) -> Seq<char> {
    " use  (?P<submod>"@ + crate_name + "::.*) ; "@
}

/// A crate name of ordinary length in which every character is an ASCII letter, a
/// digit or `_`, and so stands for itself in a pattern.
pub open spec fn is_plain_name(name: Seq<char>) -> bool {
    &&& name.len() <= 255
    &&& forall|i: int|
        0 <= i < name.len() ==> is_ascii_alphanumeric(#[trigger] name[i]) || name[i] == '_'
}

/// The patterns that are known to compile.
pub open spec fn is_sound_pattern(pattern: Seq<char>) -> bool {
    ||| pattern == line_pattern(WARN_SOURCE@)
    ||| pattern == line_pattern(MOD_SOURCE@)
    ||| pattern == CRATE_PATH@
    ||| pattern == MINIFY@
    ||| exists|name: Seq<char>| #[trigger]
        is_plain_name(name) && (pattern == line_pattern(link_source(name)) || pattern
            == line_pattern(import_source(name)))
}

/// Whether `regex::Regex::new` compiles a pattern.
pub uninterp spec fn regex_compiles(pattern: Seq<char>) -> bool;

/// Whether the patterns for the source of a binary compile that look for the library of
/// this name. With a plain name they do.
pub open spec fn name_compiles(name: Seq<char>) -> bool {
    ||| is_plain_name(name)
    ||| regex_compiles(line_pattern(link_source(name))) && regex_compiles(
        line_pattern(import_source(name)),
    )
}

/// One match of a regular expression: the part of the text from character `start` up
/// to but not including character `end`, and the text of each named group that took
/// part in it.
pub struct Found {
    pub start: int,
    pub end: int,
    pub groups: Map<Seq<char>, Seq<char>>,
}

/// The successive matches of a pattern in a text that do not overlap, from left to
/// right, as `regex::Regex::captures_iter` yields them.
pub uninterp spec fn regex_matches(pattern: Seq<char>, text: Seq<char>) -> Seq<Found>;

/// The matches stand in the text from left to right and do not overlap.
pub open spec fn in_order(text: Seq<char>, found: Seq<Found>) -> bool {
    &&& forall|k: int|
        0 <= k < found.len() ==> 0 <= (#[trigger] found[k]).start <= found[k].end <= text.len()
    &&& forall|j: int, k: int|
        0 <= j < k < found.len() ==> (#[trigger] found[j]).end <= (#[trigger] found[k]).start
}

/// The text with each match replaced by what `rep` makes of it.
pub open spec fn replace_found(
    text: Seq<char>,
    found: Seq<Found>,
    rep: spec_fn(Found) -> Seq<char>,
) -> Seq<char>
    decreases found.len(),
{
    if found.len() == 0 {
        text
    } else {
        let m = found.last();
        replace_found(text.take(m.start), found.drop_last(), rep) + rep(m) + text.skip(m.end)
    }
}

#[verifier::external_type_specification]
#[verifier::external_body]
pub struct ExRegex(regex::Regex);

#[verifier::external_type_specification]
#[verifier::external_body]
pub struct ExRegexError(regex::Error);

/// A compiled regular expression; its view is the pattern that it was compiled from.
///
/// Only `compile` makes one, so that the two fields always belong together.
pub struct LineRegex {
    re: regex::Regex,
    source: String,
}

impl View for LineRegex {
    type V = Seq<char>;

    closed spec fn view(&self) -> Seq<char> {
        self.source@
    }
}

impl LineRegex {
    /// The pattern that it was compiled from.
    pub fn pattern(&self) -> (s: &str)
        ensures
            s@ == self@,
    {
        self.source.as_str()
    }
}

/// `regex::Regex::new`: on success, the regular expression of that pattern. Whether it
/// succeeds depends on the pattern alone: on its syntax, and on the size in bytes of the
/// compiled program, which has a fixed limit and is counted for the word size of the
/// target. The patterns of this library compile, with any plain crate name in them.
#[verifier::external_body]
pub(crate) fn compile(pattern: &str) -> (r: Result<LineRegex, regex::Error>)
    ensures
        r is Ok == regex_compiles(pattern@),
        r matches Ok(re) ==> re@ == pattern@,
        is_sound_pattern(pattern@) ==> r is Ok,
{
    regex::Regex::new(pattern).map(|re| LineRegex { re, source: pattern.to_string() })
}

/// Whether a pattern matches a line.
pub open spec fn matches_line(pattern: Seq<char>, line: Seq<char>) -> bool {
    regex_matches(pattern, line).len() > 0
}

/// A named group of the first match, if there is a match, and if the group takes part.
pub open spec fn first_group_of(
    pattern: Seq<char>,
    line: Seq<char>,
    group: Seq<char>,
) -> Option<Option<Seq<char>>> {
    if matches_line(pattern, line) {
        Some(group_of(regex_matches(pattern, line)[0], group))
    } else {
        None
    }
}

/// The view of a captured group.
pub open spec fn captured(r: Option<Option<String>>) -> Option<Option<Seq<char>>> {
    match r {
        None => None,
        Some(None) => Some(None),
        Some(Some(s)) => Some(Some(s@)),
    }
}

/// The view of a captured group that takes part in every match.
pub open spec fn always(group: Option<Seq<char>>) -> Option<Option<Seq<char>>> {
    match group {
        None => None,
        Some(s) => Some(Some(s)),
    }
}

/// `regex::Regex::is_match`: whether there is a match anywhere in the text. What the
/// syntax of two of the patterns says of a text without line feeds is written out.
#[verifier::external_body]
pub(crate) fn is_match(re: &LineRegex, text: &str) -> (b: bool)
    ensures
        b == (regex_matches(re@, text@).len() > 0),
        re@ == line_pattern(WARN_SOURCE@) && !text@.contains('\n') ==> b == is_warn_line(text@),
        forall|name: Seq<char>|
            re@ == line_pattern(#[trigger] link_source(name)) && is_plain_name(name)
                && !text@.contains('\n') ==> b == is_link_line(name, text@),
{
    re.re.is_match(text)
}

/// `regex::Regex::captures`, and `regex::Captures::name` on what it returns: the
/// first match, if there is one, and in it the text of a named group, if the group
/// took part. What the syntax of two of the patterns says of a text without line feeds
/// is written out; in both the group is greedy, and so reaches to the last `;` that it
/// can.
#[verifier::external_body]
pub(crate) fn first_group(re: &LineRegex, text: &str, group: &str) -> (r: Option<Option<String>>)
    ensures
        captured(r) == first_group_of(re@, text@, group@),
        re@ == line_pattern(MOD_SOURCE@) && group@ == "m"@ && !text@.contains('\n') ==> captured(r)
            == always(declared_mod(text@)),
        forall|name: Seq<char>|
            re@ == line_pattern(#[trigger] import_source(name)) && group@ == "submod"@
                && is_plain_name(name) && !text@.contains('\n') ==> captured(r) == always(
                imported(name, text@),
            ),
{
    re.re.captures(text).map(|caps| caps.name(group).map(|m| m.as_str().to_string()))
}

/// What a match of a pattern holds of a group.
pub open spec fn group_of(m: Found, group: Seq<char>) -> Option<Seq<char>> {
    if m.groups.contains_key(group) {
        Some(m.groups[group])
    } else {
        None
    }
}

/// What the only match of [`MINIFY`] in a text without line feeds holds of a group: the
/// match is the whole text, and its `contents` are all but the leading white space.
/// (The group is greedy, so trailing white space belongs to it.)
pub open spec fn minify_group(text: Seq<char>, group: Seq<char>) -> Option<Seq<char>> {
    if group == "contents"@ {
        Some(skip_space(text))
    } else {
        None
    }
}

/// What `rule` makes of the groups `first` and `second` of a match.
pub open spec fn group_replacement(
    rule: Replacement,
    first: Seq<char>,
    second: Seq<char>,
) -> spec_fn(Found) -> Seq<char> {
    |m: Found| replacement_text(rule, group_of(m, first), group_of(m, second))
}

/// The text with every match of the pattern replaced by what `rule` makes of the
/// groups `first` and `second`.
pub open spec fn replaced(
    pattern: Seq<char>,
    text: Seq<char>,
    rule: Replacement,
    first: Seq<char>,
    second: Seq<char>,
) -> Seq<char> {
    replace_found(text, regex_matches(pattern, text), group_replacement(rule, first, second))
}

/// `regex::Regex::replace_all` with a closure: every match is replaced by what
/// [`replacement`] makes of two of its groups, and the rest of the text is kept. What
/// the syntax of [`CRATE_PATH`] says of its matches, where a word is made of what `\w`
/// matches, and that of [`MINIFY`] on a text without line feeds, is written out.
#[verifier::external_body]
pub(crate) fn replace_all(
    re: &LineRegex,
    text: &str,
    rule: &Replacement,
    first: &str,
    second: &str,
) -> (r: String)
    ensures
        r@ == replaced(re@, text@, *rule, first@, second@),
        re@ == CRATE_PATH@ ==> is_replaced_paths(
            text@,
            group_replacement(*rule, first@, second@),
            r@,
        ),
        re@ == MINIFY@ && !text@.contains('\n') ==> r@ == replacement_text(
            *rule,
            minify_group(text@, first@),
            minify_group(text@, second@),
        ),
{
    re.re.replace_all(
        text,
        |caps: &regex::Captures| {
            replacement(
                rule,
                caps.name(first).map(|m| m.as_str()),
                caps.name(second).map(|m| m.as_str()),
            )
        },
    ).into_owned()
}

/// The shorthand written out.
fn widen(source: &str, out: &mut String)
    ensures
        final(out)@ == old(out)@ + widened(source@),
{
    let chars = chars_of(source);
    let n = chars.len();
    let mut i: usize = 0;
    proof {
        assert(source@.skip(0) == source@);
    }
    while i < n
        invariant
            n == chars@.len(),
            chars@ == source@,
            i <= n,
            old(out)@ + widened(source@) == out@ + widened(source@.skip(i as int)),
        decreases n - i,
    {
        let ghost rest = source@.skip(i as int);
        if chars[i] != ' ' {
            out.push(chars[i]);
            proof {
                assert(rest.skip(1) == source@.skip(i + 1));
            }
            i = i + 1;
        } else if n - i > 1 && chars[i + 1] == ' ' {
            out.push('\\');
            out.push('s');
            out.push('+');
            proof {
                assert(rest.skip(2) == source@.skip(i + 2));
            }
            i = i + 2;
        } else {
            out.push('\\');
            out.push('s');
            out.push('*');
            proof {
                assert(rest.skip(1) == source@.skip(i + 1));
            }
            i = i + 1;
        }
    }
    proof {
        assert(source@.skip(i as int) == Seq::<char>::empty());
    }
}

/// Compiles a regex that matches a line of Rust source. Uses a shorthand where
/// two spaces stand for `\s+` and a single one for `\s*`.
pub fn source_line_regex(source_regex: &str) -> (r: Result<LineRegex, BundleError>)
    ensures
        r is Ok == regex_compiles(line_pattern(source_regex@)),
        match r {
            Ok(re) => re@ == line_pattern(source_regex@),
            Err(error) => error is BadPattern,
        },
        is_sound_pattern(line_pattern(source_regex@)) ==> r is Ok,
{
    let mut pattern = String::new();
    pattern.append("^");
    widen(source_regex, &mut pattern);
    pattern.append(r"(?://.*)?$");
    proof {
        assert(pattern@ == line_pattern(source_regex@));
    }
    match compile(pattern.as_str()) {
        Ok(re) => Ok(re),
        Err(_) => Err(BundleError::BadPattern),
    }
}

} // verus!
