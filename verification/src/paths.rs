//! Absolute `crate::` paths.

use crate::pattern::{
    compile, group_of, group_replacement, in_order, regex_matches, replace_all, replace_found,
    Found, LineRegex, CRATE_PATH,
};
use crate::text::{at, char_before, is_ascii_alphanumeric, same_text};
use vstd::prelude::*;
use vstd::string::*;

verus! {

/// How the matches of a pattern are replaced.
pub enum Replacement<'n> {
    /// A match of [`CRATE_PATH`] in the library of this name, by its groups `seg` and
    /// `bang`.
    CratePath(&'n str),
    /// Any match by the text of its first group.
    FirstGroup,
}

/// Whether an absolute path with these groups invokes a macro.
pub open spec fn invokes_macro(seg: Option<Seq<char>>, bang: Option<Seq<char>>) -> bool {
    seg is Some && bang == Some("!"@)
}

/// The text of a group, which is empty if the group took no part.
pub open spec fn group_text(g: Option<Seq<char>>) -> Seq<char> {
    match g {
        Some(s) => s,
        None => Seq::empty(),
    }
}

/// The text that takes the place of an absolute path with the first segment `seg`, and
/// with `bang` behind it: an exported macro stays at the crate root, and any other path,
/// also a bare `crate::` as in `crate::{a, b}` or `crate::*`, gains the name of the crate.
pub open spec fn crate_path_text(
    crate_name: Seq<char>,
    seg: Option<Seq<char>>,
    bang: Option<Seq<char>>,
) -> Seq<char> {
    let prefix = if invokes_macro(seg, bang) {
        Seq::empty()
    } else {
        crate_name + "::"@
    };
    "crate::"@ + prefix + group_text(seg) + group_text(bang)
}

/// The text that takes the place of a match with these two groups.
pub open spec fn replacement_text(
    rule: Replacement,
    first: Option<Seq<char>>,
    second: Option<Seq<char>>,
) -> Seq<char> {
    match rule {
        Replacement::CratePath(crate_name) => crate_path_text(crate_name@, first, second),
        Replacement::FirstGroup => match first {
            Some(s) => s,
            None => Seq::empty(),
        },
    }
}

/// The view of a group.
pub open spec fn group_view(g: Option<&str>) -> Option<Seq<char>> {
    match g {
        Some(s) => Some(s@),
        None => None,
    }
}

/// The text that takes the place of an absolute path in the library: ordinary paths
/// gain the name of the crate, invocations of exported macros stay as they are.
pub fn crate_path_replacement(crate_name: &str, seg: Option<&str>, bang: Option<&str>) -> (r:
    String)
    ensures
        r@ == crate_path_text(crate_name@, group_view(seg), group_view(bang)),
{
    let mut r = String::new();
    r.append("crate::");
    let is_macro = match (seg, bang) {
        (Some(_), Some(b)) => same_text(b, "!"),
        _ => false,
    };
    if !is_macro {
        r.append(crate_name);
        r.append("::");
    }
    if let Some(s) = seg {
        r.append(s);
    }
    if let Some(b) = bang {
        r.append(b);
    }
    proof {
        assert(r@ == crate_path_text(crate_name@, group_view(seg), group_view(bang)));
    }
    r
}

/// The text that takes the place of a match with these two groups.
pub fn replacement(rule: &Replacement, first: Option<&str>, second: Option<&str>) -> (r: String)
    ensures
        r@ == replacement_text(*rule, group_view(first), group_view(second)),
{
    match rule {
        Replacement::CratePath(crate_name) => crate_path_replacement(crate_name, first, second),
        Replacement::FirstGroup => match first {
            Some(s) => s.to_owned(),
            None => String::new(),
        },
    }
}

/// A character that is part of a word: an ASCII letter, a digit or `_`, or a character
/// beyond ASCII that `\w` matches.
pub open spec fn is_word_char(c: char) -> bool {
    if c <= '\u{7f}' {
        is_ascii_alphanumeric(c) || c == '_'
    } else {
        regex_matches(r"\w"@, seq![c]).len() > 0
    }
}

/// The character at `i` does not go on with a word.
pub open spec fn word_ends_at(text: Seq<char>, i: int) -> bool {
    i < text.len() ==> !is_word_char(text[i])
}

/// A word.
pub open spec fn is_word(s: Seq<char>) -> bool {
    s.len() > 0 && forall|i: int| 0 <= i < s.len() ==> is_word_char(#[trigger] s[i])
}

/// A match of [`CRATE_PATH`]: `crate::` where no word goes on to the left, the segment
/// behind it as far as it goes, and a `!` or `!=` behind that.
pub open spec fn is_crate_path(text: Seq<char>, m: Found) -> bool {
    let seg_start = m.start + 7;
    let seg_end = match group_of(m, "seg"@) {
        Some(seg) => seg_start + seg.len(),
        None => seg_start,
    };
    &&& at(text, m.start, "crate::"@)
    &&& !is_word_char(char_before(text, m.start))
    &&& match group_of(m, "seg"@) {
        Some(seg) => at(text, seg_start, seg) && is_word(seg),
        None => true,
    }
    &&& word_ends_at(text, seg_end)
    &&& match group_of(m, "bang"@) {
        Some(bang) => {
            &&& bang == (if at(text, seg_end, "!="@) {
                "!="@
            } else {
                "!"@
            })
            &&& at(text, seg_end, bang)
            &&& m.end == seg_end + bang.len()
        },
        None => !at(text, seg_end, "!"@) && m.end == seg_end,
    }
}

/// Position `i` belongs to one of the matches.
pub open spec fn is_within(found: Seq<Found>, i: int) -> bool {
    exists|k: int| 0 <= k < found.len() && (#[trigger] found[k]).start <= i < found[k].end
}

/// `crate::` stands at `i`, at the start of the text or behind a character that is part of
/// no word.
pub open spec fn crate_path_starts(text: Seq<char>, i: int) -> bool {
    &&& at(text, i, "crate::"@)
    &&& !is_word_char(char_before(text, i))
}

/// The matches of [`CRATE_PATH`]: each is an absolute path, and none is left out.
pub open spec fn is_crate_paths(text: Seq<char>, found: Seq<Found>) -> bool {
    &&& in_order(text, found)
    &&& forall|k: int| 0 <= k < found.len() ==> is_crate_path(text, #[trigger] found[k])
    &&& forall|i: int| #[trigger] crate_path_starts(text, i) ==> is_within(found, i)
}

/// `r` is the text with its absolute paths replaced by what `rep` makes of them.
pub open spec fn is_replaced_paths(
    text: Seq<char>,
    rep: spec_fn(Found) -> Seq<char>,
    r: Seq<char>,
) -> bool {
    exists|found: Seq<Found>| #[trigger]
        is_crate_paths(text, found) && r == replace_found(text, found, rep)
}

/// What takes the place of an absolute path in the library of this name.
pub open spec fn path_replacement(crate_name: Seq<char>) -> spec_fn(Found) -> Seq<char> {
    |m: Found| crate_path_text(crate_name, group_of(m, "seg"@), group_of(m, "bang"@))
}

/// The end of the run of word characters that starts at `i`.
pub open spec fn word_end(text: Seq<char>, i: int) -> int
    decreases text.len() - i,
{
    if i < text.len() && is_word_char(text[i]) {
        word_end(text, i + 1)
    } else {
        i
    }
}

/// The absolute path that starts at `i`: `crate::`, the word behind it, if there is one,
/// and the `!` or `!=` behind that, if there is one.
pub open spec fn path_at(text: Seq<char>, i: int) -> Found {
    let end = word_end(text, i + 7);
    let seg = if end > i + 7 {
        map!["seg"@ => text.subrange(i + 7, end)]
    } else {
        Map::empty()
    };
    if at(text, end, "!="@) {
        Found { start: i, end: end + 2, groups: seg.insert("bang"@, "!="@) }
    } else if at(text, end, "!"@) {
        Found { start: i, end: end + 1, groups: seg.insert("bang"@, "!"@) }
    } else {
        Found { start: i, end, groups: seg }
    }
}

/// The absolute paths of a text, from position `i` on, from left to right.
pub open spec fn paths_from(text: Seq<char>, i: int) -> Seq<Found>
    decreases text.len() - i,
{
    if 0 <= i < text.len() {
        if crate_path_starts(text, i) {
            proof {
                lemma_path_bounds(text, i);
            }
            seq![path_at(text, i)] + paths_from(text, path_at(text, i).end)
        } else {
            paths_from(text, i + 1)
        }
    } else {
        Seq::empty()
    }
}

/// A line of the library with its absolute paths rewritten.
pub open spec fn rewritten(line: Seq<char>, crate_name: Seq<char>) -> Seq<char> {
    replace_found(line, paths_from(line, 0), path_replacement(crate_name))
}

proof fn lemma_word_end(text: Seq<char>, i: int)
    requires
        0 <= i <= text.len(),
    ensures
        i <= word_end(text, i) <= text.len(),
        word_ends_at(text, word_end(text, i)),
        forall|k: int| i <= k < word_end(text, i) ==> is_word_char(#[trigger] text[k]),
    decreases text.len() - i,
{
    if i < text.len() && is_word_char(text[i]) {
        lemma_word_end(text, i + 1);
    }
}

/// A `!=` starts with a `!`.
proof fn lemma_bang(text: Seq<char>, i: int)
    ensures
        at(text, i, "!="@) ==> at(text, i, "!"@),
        "!"@.len() == 1,
        "!="@.len() == 2,
{
    reveal_strlit("!");
    reveal_strlit("!=");
    if at(text, i, "!="@) {
        assert(text.subrange(i, i + 2)[0] == '!');
        assert(text.subrange(i, i + 1) == "!"@);
    }
}

/// A path is not empty and does not go past the end of the text.
pub proof fn lemma_path_bounds(text: Seq<char>, i: int)
    requires
        at(text, i, "crate::"@),
    ensures
        i + 7 <= path_at(text, i).end <= text.len(),
{
    reveal_strlit("crate::");
    lemma_word_end(text, i + 7);
    lemma_bang(text, word_end(text, i + 7));
}

proof fn lemma_path_at(text: Seq<char>, i: int)
    requires
        crate_path_starts(text, i),
    ensures
        is_crate_path(text, path_at(text, i)),
{
    reveal_strlit("crate::");
    reveal_strlit("seg");
    reveal_strlit("bang");
    assert("seg"@.len() != "bang"@.len());
    lemma_word_end(text, i + 7);
    let end = word_end(text, i + 7);
    lemma_bang(text, end);
    if end > i + 7 {
        let seg = text.subrange(i + 7, end);
        assert(group_of(path_at(text, i), "seg"@) == Some(seg));
        assert(is_word(seg)) by {
            assert forall|k: int| 0 <= k < seg.len() implies is_word_char(#[trigger] seg[k]) by {
                assert(seg[k] == text[i + 7 + k]);
            }
        }
    }
}

proof fn lemma_paths_from(text: Seq<char>, i: int)
    requires
        0 <= i,
    ensures
        in_order(text, paths_from(text, i)),
        forall|k: int|
            0 <= k < paths_from(text, i).len() ==> i <= (#[trigger] paths_from(text, i)[k]).start
                && is_crate_path(text, paths_from(text, i)[k]),
        forall|j: int| i <= j && #[trigger] crate_path_starts(text, j) ==> is_within(
            paths_from(text, i),
            j,
        ),
    decreases text.len() - i,
{
    reveal_strlit("crate::");
    let f = paths_from(text, i);
    if i >= text.len() {
    } else if crate_path_starts(text, i) {
        let m = path_at(text, i);
        let rest = paths_from(text, m.end);
        lemma_path_bounds(text, i);
        lemma_path_at(text, i);
        lemma_paths_from(text, m.end);
        assert(f == seq![m] + rest);
        assert forall|k: int| 0 <= k < f.len() implies i <= (#[trigger] f[k]).start
            && is_crate_path(text, f[k]) && 0 <= f[k].start <= f[k].end <= text.len() by {
            if k > 0 {
                assert(f[k] == rest[k - 1]);
            }
        }
        assert forall|j: int, k: int| 0 <= j < k < f.len() implies (#[trigger] f[j]).end <= (
        #[trigger] f[k]).start by {
            assert(f[k] == rest[k - 1]);
            if j > 0 {
                assert(f[j] == rest[j - 1]);
            }
        }
        assert forall|j: int| i <= j && #[trigger] crate_path_starts(text, j) implies is_within(
            f,
            j,
        ) by {
            if j < m.end {
                assert(f[0].start <= j < f[0].end);
            } else {
                assert(is_within(rest, j));
                let k = choose|k: int|
                    0 <= k < rest.len() && (#[trigger] rest[k]).start <= j < rest[k].end;
                assert(f[k + 1] == rest[k]);
            }
        }
    } else {
        lemma_paths_from(text, i + 1);
    }
}

/// The absolute paths of a text are what [`paths_from`] finds.
pub proof fn law_paths_are_found(text: Seq<char>)
    ensures
        is_crate_paths(text, paths_from(text, 0)),
{
    lemma_paths_from(text, 0);
}

/// `crate::` does not occur in the text.
pub open spec fn has_no_crate_path(text: Seq<char>) -> bool {
    forall|i: int| !(#[trigger] at(text, i, "crate::"@))
}

/// Rewrites the absolute paths of a line with the compiled [`CRATE_PATH`].
pub(crate) fn rewrite_with(re: &LineRegex, line: &str, crate_name: &str) -> (r: String)
    requires
        re@ == CRATE_PATH@,
    ensures
        r@ == rewritten(line@, crate_name@),
        is_replaced_paths(line@, path_replacement(crate_name@), r@),
        has_no_crate_path(line@) ==> r@ == line@,
{
    let rule = Replacement::CratePath(crate_name);
    let r = replace_all(re, line, &rule, "seg", "bang");
    proof {
        assert(group_replacement(rule, "seg"@, "bang"@) =~= path_replacement(crate_name@));
        law_paths_are_found(line@);
        law_rewriting_is_determined(line@, crate_name@, r@, rewritten(line@, crate_name@));
        if has_no_crate_path(line@) {
            law_text_without_crate_path_is_unchanged(line@, crate_name@, r@);
        }
    }
    r
}

/// Rewrites absolute `crate::` paths from inside the library so they resolve in the
/// bundle, where the library is nested under `pub mod <crate_name>`.
///
/// Ordinary item paths gain the crate-name prefix (`crate::X` -> `crate::<name>::X`),
/// but `#[macro_export]` macro invocations (`crate::NAME!`) are left untouched:
/// exported macros are always hoisted to the crate root, so they live at
/// `crate::NAME!` in the bundle too and must not be prefixed.
pub fn rewrite_crate_paths(line: &str, crate_name: &str) -> (r: String)
    ensures
        r@ == rewritten(line@, crate_name@),
        is_replaced_paths(line@, path_replacement(crate_name@), r@),
        has_no_crate_path(line@) ==> r@ == line@,
{
    let re = compile(CRATE_PATH).unwrap();
    rewrite_with(&re, line, crate_name)
}

/// A text in which `crate::` does not occur is unchanged.
pub proof fn law_text_without_crate_path_is_unchanged(
    text: Seq<char>,
    crate_name: Seq<char>,
    r: Seq<char>,
)
    requires
        has_no_crate_path(text),
        is_replaced_paths(text, path_replacement(crate_name), r),
    ensures
        r == text,
{
    let found = choose|found: Seq<Found>| #[trigger]
        is_crate_paths(text, found) && r == replace_found(
            text,
            found,
            path_replacement(crate_name),
        );
    if found.len() > 0 {
        assert(is_crate_path(text, found[0]));
    }
}

/// The match invokes a macro.
pub open spec fn is_macro(m: Found) -> bool {
    invokes_macro(group_of(m, "seg"@), group_of(m, "bang"@))
}

/// An absolute path that invokes no macro gains the name of the crate behind `crate::`, and
/// the invocation of a macro is left untouched.
pub proof fn law_path_gains_prefix_unless_macro(text: Seq<char>, m: Found, crate_name: Seq<char>)
    requires
        is_crate_path(text, m),
    ensures
        path_replacement(crate_name)(m) == text.subrange(m.start, m.start + 7) + (if is_macro(m) {
            Seq::empty()
        } else {
            crate_name + "::"@
        }) + text.subrange(m.start + 7, m.end),
{
    reveal_strlit("crate::");
    reveal_strlit("!");
    reveal_strlit("!=");
    let s = m.start + 7;
    let seg = group_text(group_of(m, "seg"@));
    let bang = group_text(group_of(m, "bang"@));
    let e = s + seg.len();
    assert(text.subrange(s, e) == seg);
    assert(text.subrange(e, m.end) == bang);
    assert(text.subrange(s, m.end) == seg + bang);
    let prefix = if is_macro(m) {
        Seq::empty()
    } else {
        crate_name + "::"@
    };
    assert("crate::"@ + prefix + seg + bang == "crate::"@ + prefix + (seg + bang));
}

proof fn lemma_identity_replacement(
    text: Seq<char>,
    found: Seq<Found>,
    rep: spec_fn(Found) -> Seq<char>,
)
    requires
        in_order(text, found),
        forall|k: int|
            0 <= k < found.len() ==> rep(#[trigger] found[k]) == text.subrange(
                found[k].start,
                found[k].end,
            ),
    ensures
        replace_found(text, found, rep) == text,
    decreases found.len(),
{
    if found.len() > 0 {
        let m = found.last();
        let head = text.take(m.start);
        let rest = found.drop_last();
        assert forall|k: int| 0 <= k < rest.len() implies rep(#[trigger] rest[k])
            == head.subrange(rest[k].start, rest[k].end) && rest[k].end <= head.len() by {
            assert(rest[k] == found[k]);
            assert(found[k].end <= found[found.len() - 1].start);
            assert(head.subrange(found[k].start, found[k].end) == text.subrange(
                found[k].start,
                found[k].end,
            ));
        }
        assert(in_order(head, rest)) by {
            assert forall|j: int, k: int| 0 <= j < k < rest.len() implies (#[trigger] rest[j]).end
                <= (#[trigger] rest[k]).start by {
                assert(found[j].end <= found[k].start);
            }
        }
        lemma_identity_replacement(head, rest, rep);
        assert(text == head + text.subrange(m.start, m.end) + text.skip(m.end));
    }
}

/// The matches agree: they stand in the same places and are replaced by the same texts.
pub open spec fn agree(f: Seq<Found>, g: Seq<Found>, rep: spec_fn(Found) -> Seq<char>) -> bool {
    &&& f.len() == g.len()
    &&& forall|k: int|
        0 <= k < f.len() ==> (#[trigger] f[k]).start == g[k].start && f[k].end == g[k].end && rep(
            f[k],
        ) == rep(g[k])
}

proof fn lemma_agreeing_replacements(
    text: Seq<char>,
    f: Seq<Found>,
    g: Seq<Found>,
    rep: spec_fn(Found) -> Seq<char>,
)
    requires
        agree(f, g, rep),
    ensures
        replace_found(text, f, rep) == replace_found(text, g, rep),
    decreases f.len(),
{
    if f.len() > 0 {
        assert(f[f.len() - 1].start == g[g.len() - 1].start);
        assert forall|k: int| 0 <= k < f.drop_last().len() implies (
        #[trigger] f.drop_last()[k]).start == g.drop_last()[k].start && f.drop_last()[k].end
            == g.drop_last()[k].end && rep(f.drop_last()[k]) == rep(g.drop_last()[k]) by {
            assert(f[k].start == g[k].start);
        }
        lemma_agreeing_replacements(text.take(f.last().start), f.drop_last(), g.drop_last(), rep);
    }
}

/// Where a path starts decides what it is.
proof fn lemma_start_decides(text: Seq<char>, m: Found, n: Found, crate_name: Seq<char>)
    requires
        is_crate_path(text, m),
        is_crate_path(text, n),
        m.start == n.start,
    ensures
        m.end == n.end,
        path_replacement(crate_name)(m) == path_replacement(crate_name)(n),
{
    let s = m.start + 7;
    let mseg = match group_of(m, "seg"@) {
        Some(seg) => seg,
        None => Seq::empty(),
    };
    let nseg = match group_of(n, "seg"@) {
        Some(seg) => seg,
        None => Seq::empty(),
    };
    reveal_strlit("crate::");
    assert forall|k: int| 0 <= k < mseg.len() implies #[trigger] text[s + k] == mseg[k] by {
        assert(text.subrange(s, s + mseg.len())[k] == text[s + k]);
    }
    assert forall|k: int| 0 <= k < nseg.len() implies #[trigger] text[s + k] == nseg[k] by {
        assert(text.subrange(s, s + nseg.len())[k] == text[s + k]);
    }
    if mseg.len() < nseg.len() {
        assert(text[s + mseg.len()] == nseg[mseg.len() as int]);
    }
    if nseg.len() < mseg.len() {
        assert(text[s + nseg.len()] == mseg[nseg.len() as int]);
    }
    assert(mseg == nseg);
    lemma_bang(text, s + mseg.len());
}

proof fn lemma_next_start(text: Seq<char>, f: Seq<Found>, g: Seq<Found>, k: int)
    requires
        is_crate_paths(text, f),
        is_crate_paths(text, g),
        0 <= k < f.len(),
        k <= g.len(),
        forall|j: int| 0 <= j < k ==> (#[trigger] f[j]).end == g[j].end,
    ensures
        k < g.len(),
        g[k].start <= f[k].start,
{
    let i = f[k].start;
    assert(is_crate_path(text, f[k]));
    reveal_strlit("crate::");
    assert(crate_path_starts(text, i));
    assert(is_within(g, i));
    let j = choose|j: int| 0 <= j < g.len() && (#[trigger] g[j]).start <= i < g[j].end;
    if j < k {
        assert(f[j].end == g[j].end);
        assert(f[j].end <= f[k].start);
    } else if k < j {
        assert(g[k].end <= g[j].start);
    }
}

proof fn lemma_paths_agree(
    text: Seq<char>,
    f: Seq<Found>,
    g: Seq<Found>,
    crate_name: Seq<char>,
    k: int,
)
    requires
        is_crate_paths(text, f),
        is_crate_paths(text, g),
        0 <= k <= f.len(),
        k <= g.len(),
    ensures
        agree(f.take(k), g.take(k), path_replacement(crate_name)),
    decreases k,
{
    if k > 0 {
        let rep = path_replacement(crate_name);
        lemma_paths_agree(text, f, g, crate_name, k - 1);
        assert forall|j: int| 0 <= j < k - 1 implies (#[trigger] f[j]).start == g[j].start
            && f[j].end == g[j].end && rep(f[j]) == rep(g[j]) by {
            assert(f.take(k - 1)[j].start == g.take(k - 1)[j].start);
        }
        assert forall|j: int| 0 <= j < k - 1 implies (#[trigger] g[j]).end == f[j].end by {
            assert(f[j].end == g[j].end);
        }
        lemma_next_start(text, f, g, k - 1);
        lemma_next_start(text, g, f, k - 1);
        assert(is_crate_path(text, f[k - 1]) && is_crate_path(text, g[k - 1]));
        lemma_start_decides(text, f[k - 1], g[k - 1], crate_name);
        assert forall|j: int| 0 <= j < k implies (#[trigger] f.take(k)[j]).start == g.take(
            k,
        )[j].start && f.take(k)[j].end == g.take(k)[j].end && rep(f.take(k)[j]) == rep(
            g.take(k)[j],
        ) by {
            assert(f.take(k)[j] == f[j] && g.take(k)[j] == g[j]);
        }
    }
}

/// The rewriting of a line is determined: there is only one text that the
/// description of absolute paths allows.
pub proof fn law_rewriting_is_determined(
    text: Seq<char>,
    crate_name: Seq<char>,
    r: Seq<char>,
    q: Seq<char>,
)
    requires
        is_replaced_paths(text, path_replacement(crate_name), r),
        is_replaced_paths(text, path_replacement(crate_name), q),
    ensures
        r == q,
{
    let rep = path_replacement(crate_name);
    let f = choose|f: Seq<Found>| #[trigger]
        is_crate_paths(text, f) && r == replace_found(text, f, rep);
    let g = choose|g: Seq<Found>| #[trigger]
        is_crate_paths(text, g) && q == replace_found(text, g, rep);
    let n = if f.len() <= g.len() {
        f.len() as int
    } else {
        g.len() as int
    };
    lemma_paths_agree(text, f, g, crate_name, n);
    assert forall|j: int| 0 <= j < n implies (#[trigger] f[j]).end == g[j].end by {
        assert(f.take(n)[j].end == g.take(n)[j].end);
    }
    assert forall|j: int| 0 <= j < n implies (#[trigger] g[j]).end == f[j].end by {
        assert(f[j].end == g[j].end);
    }
    if f.len() < g.len() {
        lemma_next_start(text, g, f, n);
    } else if g.len() < f.len() {
        lemma_next_start(text, f, g, n);
    }
    assert(f.take(n) == f && g.take(n) == g);
    lemma_agreeing_replacements(text, f, g, rep);
}

/// A line whose absolute paths are all macro invocations is unchanged.
pub proof fn law_macro_invocations_are_untouched(
    text: Seq<char>,
    found: Seq<Found>,
    crate_name: Seq<char>,
)
    requires
        is_crate_paths(text, found),
        forall|k: int|
            0 <= k < found.len() ==> is_macro(#[trigger] found[k]),
    ensures
        replace_found(text, found, path_replacement(crate_name)) == text,
{
    assert forall|k: int| 0 <= k < found.len() implies path_replacement(crate_name)(
        #[trigger] found[k],
    ) == text.subrange(found[k].start, found[k].end) by {
        let m = found[k];
        reveal_strlit("crate::");
        assert(is_crate_path(text, m));
        law_path_gains_prefix_unless_macro(text, m, crate_name);
        assert(text.subrange(m.start, m.end) == text.subrange(m.start, m.start + 7)
            + text.subrange(m.start + 7, m.end));
        assert(text.subrange(m.start, m.start + 7) + Seq::<char>::empty() == text.subrange(
            m.start,
            m.start + 7,
        ));
    }
    lemma_identity_replacement(text, found, path_replacement(crate_name));
}

/// The text with a piece put in at each of the places, which stand in ascending order.
pub open spec fn inserted(text: Seq<char>, places: Seq<int>, piece: Seq<char>) -> Seq<char>
    decreases places.len(),
{
    if places.len() == 0 {
        text
    } else {
        let p = places.last();
        inserted(text.take(p), places.drop_last(), piece) + piece + text.skip(p)
    }
}

/// The places right behind the `crate::` of each path that invokes no macro.
pub open spec fn prefix_places(found: Seq<Found>) -> Seq<int>
    decreases found.len(),
{
    if found.len() == 0 {
        Seq::empty()
    } else {
        let places = prefix_places(found.drop_last());
        if is_macro(found.last()) {
            places
        } else {
            places.push(found.last().start + 7)
        }
    }
}

/// A match is replaced by itself, with `prefix` put in unless it invokes a macro.
pub open spec fn is_prefixed(
    text: Seq<char>,
    m: Found,
    prefix: Seq<char>,
    rep: spec_fn(Found) -> Seq<char>,
) -> bool {
    &&& m.start + 7 <= m.end
    &&& rep(m) == text.subrange(m.start, m.start + 7) + (if is_macro(m) {
        Seq::empty()
    } else {
        prefix
    }) + text.subrange(m.start + 7, m.end)
}

/// Behind the last place the text goes on as it is.
proof fn lemma_inserted_goes_on(
    text: Seq<char>,
    places: Seq<int>,
    piece: Seq<char>,
    a: int,
    b: int,
)
    requires
        0 <= a <= b <= text.len(),
        forall|k: int| 0 <= k < places.len() ==> 0 <= #[trigger] places[k] <= a,
    ensures
        inserted(text.take(b), places, piece) == inserted(text.take(a), places, piece)
            + text.subrange(a, b),
{
    if places.len() == 0 {
        assert(text.take(b) == text.take(a) + text.subrange(a, b));
    } else {
        let p = places[places.len() - 1];
        assert(text.take(b).take(p) == text.take(a).take(p));
        assert(text.take(b).skip(p) == text.take(a).skip(p) + text.subrange(a, b));
        let head = inserted(text.take(a).take(p), places.drop_last(), piece) + piece;
        assert(head + (text.take(a).skip(p) + text.subrange(a, b)) == head + text.take(a).skip(p)
            + text.subrange(a, b));
    }
}

proof fn lemma_inserted_len(text: Seq<char>, places: Seq<int>, piece: Seq<char>)
    requires
        forall|k: int| 0 <= k < places.len() ==> 0 <= #[trigger] places[k] <= text.len(),
        forall|j: int, k: int|
            0 <= j < k < places.len() ==> #[trigger] places[j] <= #[trigger] places[k],
    ensures
        inserted(text, places, piece).len() == text.len() + places.len() * piece.len(),
    decreases places.len(),
{
    if places.len() > 0 {
        let p = places[places.len() - 1];
        let rest = places.drop_last();
        assert forall|k: int| 0 <= k < rest.len() implies 0 <= #[trigger] rest[k]
            <= text.take(p).len() by {
            assert(rest[k] == places[k]);
        }
        lemma_inserted_len(text.take(p), rest, piece);
        let n = rest.len();
        let c = piece.len();
        assert((n + 1) * c == n * c + c) by (nonlinear_arith);
    }
}

proof fn lemma_insertion(
    text: Seq<char>,
    found: Seq<Found>,
    prefix: Seq<char>,
    rep: spec_fn(Found) -> Seq<char>,
)
    requires
        in_order(text, found),
        forall|k: int| 0 <= k < found.len() ==> is_prefixed(text, #[trigger] found[k], prefix, rep),
    ensures
        replace_found(text, found, rep) == inserted(text, prefix_places(found), prefix),
        forall|k: int|
            0 <= k < prefix_places(found).len() ==> 0 <= #[trigger] prefix_places(found)[k]
                <= text.len(),
        forall|j: int, k: int|
            0 <= j < k < prefix_places(found).len() ==> #[trigger] prefix_places(found)[j]
                <= #[trigger] prefix_places(found)[k],
    decreases found.len(),
{
    if found.len() > 0 {
        let m = found[found.len() - 1];
        let rest = found.drop_last();
        let head = text.take(m.start);
        let places = prefix_places(rest);
        assert(is_prefixed(text, m, prefix, rep));
        assert forall|k: int| 0 <= k < rest.len() implies is_prefixed(
            head,
            #[trigger] rest[k],
            prefix,
            rep,
        ) && rest[k].end <= head.len() by {
            let f = found[k];
            assert(rest[k] == f);
            assert(f.end <= m.start);
            assert(is_prefixed(text, f, prefix, rep));
            assert(head.subrange(f.start, f.start + 7) == text.subrange(f.start, f.start + 7));
            assert(head.subrange(f.start + 7, f.end) == text.subrange(f.start + 7, f.end));
        }
        assert(in_order(head, rest)) by {
            assert forall|j: int, k: int| 0 <= j < k < rest.len() implies (#[trigger] rest[j]).end
                <= (#[trigger] rest[k]).start by {
                assert(found[j].end <= found[k].start);
            }
        }
        lemma_insertion(head, rest, prefix, rep);
        let before = inserted(head, places, prefix);
        let p = m.start + 7;
        let end = text.len() as int;
        let crate_word = text.subrange(m.start, p);
        let path = text.subrange(p, m.end);
        let tail = text.skip(m.end);
        assert(head == text.take(m.start));
        if is_macro(m) {
            lemma_inserted_goes_on(text, places, prefix, m.start, end);
            assert(text.take(end) == text);
            assert(crate_word + Seq::<char>::empty() + path == crate_word + path);
            assert(text.subrange(m.start, end) == crate_word + path + tail);
            assert(before + (crate_word + path) + tail == before + (crate_word + path + tail));
        } else {
            lemma_inserted_goes_on(text, places, prefix, m.start, p);
            let all = places.push(p);
            assert(all.drop_last() == places);
            assert(inserted(text, all, prefix) == before + crate_word + prefix + text.skip(p));
            assert(text.skip(p) == path + tail);
            assert(before + (crate_word + prefix + path) + tail == before + crate_word + prefix
                + (path + tail));
        }
    }
}

/// Rewriting is insertion: the result is the line with the name of the crate and `::` put
/// in right behind the `crate::` of each path that invokes no macro, and nothing else
/// changed. So it is longer by as much for each of those.
pub proof fn law_rewriting_is_insertion(text: Seq<char>, found: Seq<Found>, crate_name: Seq<char>)
    requires
        is_crate_paths(text, found),
    ensures
        ({
            let r = replace_found(text, found, path_replacement(crate_name));
            let places = prefix_places(found);
            &&& r == inserted(text, places, crate_name + "::"@)
            &&& r.len() == text.len() + places.len() * (crate_name.len() + 2)
        }),
{
    let rep = path_replacement(crate_name);
    let prefix = crate_name + "::"@;
    assert forall|k: int| 0 <= k < found.len() implies is_prefixed(
        text,
        #[trigger] found[k],
        prefix,
        rep,
    ) by {
        reveal_strlit("crate::");
        assert(is_crate_path(text, found[k]));
        law_path_gains_prefix_unless_macro(text, found[k], crate_name);
    }
    lemma_insertion(text, found, prefix, rep);
    lemma_inserted_len(text, prefix_places(found), prefix);
    reveal_strlit("::");
}

/// Behind the `crate::` at `i` stand a word and a `!`, but no `!=`.
pub open spec fn macro_at(text: Seq<char>, i: int) -> bool {
    let end = word_end(text, i + 7);
    end > i + 7 && at(text, end, "!"@) && !at(text, end, "!="@)
}

/// The places right behind each `crate::`, from position `i` on, with which no word goes on
/// and which no macro invocation follows.
pub open spec fn ordinary_places(text: Seq<char>, i: int) -> Seq<int>
    decreases text.len() - i,
{
    if i >= text.len() {
        Seq::empty()
    } else if crate_path_starts(text, i) && !macro_at(text, i) {
        seq![i + 7] + ordinary_places(text, i + 1)
    } else {
        ordinary_places(text, i + 1)
    }
}

proof fn lemma_no_places(text: Seq<char>, a: int, b: int)
    requires
        a <= b <= text.len(),
        forall|j: int| a <= j < b ==> !(#[trigger] crate_path_starts(text, j)),
    ensures
        ordinary_places(text, a) == ordinary_places(text, b),
    decreases b - a,
{
    if a < b {
        assert(!crate_path_starts(text, a));
        lemma_no_places(text, a + 1, b);
    }
}

proof fn lemma_first_place(m: Found, rest: Seq<Found>)
    ensures
        prefix_places(seq![m] + rest) == prefix_places(seq![m]) + prefix_places(rest),
    decreases rest.len(),
{
    if rest.len() == 0 {
        assert(seq![m] + rest == seq![m]);
        assert(prefix_places(seq![m]) + prefix_places(rest) == prefix_places(seq![m]));
    } else {
        lemma_first_place(m, rest.drop_last());
        let all = seq![m] + rest;
        assert(all.drop_last() == seq![m] + rest.drop_last());
        assert(all.last() == rest.last());
        let a = prefix_places(seq![m]);
        let b = prefix_places(rest.drop_last());
        let p = rest.last().start + 7;
        assert((a + b).push(p) == a + b.push(p));
    }
}

/// Within a path no further one starts.
proof fn lemma_no_path_within(text: Seq<char>, i: int, j: int)
    requires
        crate_path_starts(text, i),
        !at(text, i, "crate::crate::"@),
        i < j < path_at(text, i).end,
    ensures
        !crate_path_starts(text, j),
{
    reveal_strlit("crate::");
    reveal_strlit("crate::crate::");
    let end = word_end(text, i + 7);
    lemma_word_end(text, i + 7);
    lemma_bang(text, end);
    reveal_strlit("!");
    reveal_strlit("!=");
    let here = text.subrange(i, i + 7);
    assert forall|k: int| 0 <= k < 7 implies #[trigger] text[i + k] == "crate::"@[k] by {
        assert(here[k] == text[i + k]);
    }
    if crate_path_starts(text, j) {
        let there = text.subrange(j, j + 7);
        assert(there[0] == text[j]);
        if j < i + 7 {
            assert(text[j - 1] == text[i + (j - 1 - i)]);
            assert(text[j] == text[i + (j - i)]);
        } else if j == i + 7 {
            assert(text.subrange(i, i + 14) == here + there);
            assert(here + there == "crate::crate::"@);
        } else if j < end {
            assert(is_word_char(text[j - 1]));
        } else if j == end {
            assert(text.subrange(end, end + 1)[0] == text[end]);
        } else {
            assert(text.subrange(end, end + 2)[1] == text[end + 1]);
        }
    }
}

proof fn lemma_macro_at(text: Seq<char>, i: int)
    requires
        crate_path_starts(text, i),
    ensures
        is_macro(path_at(text, i)) == macro_at(text, i),
{
    reveal_strlit("crate::");
    reveal_strlit("seg");
    reveal_strlit("bang");
    assert("seg"@.len() != "bang"@.len());
    lemma_word_end(text, i + 7);
    lemma_bang(text, word_end(text, i + 7));
    assert("!"@.len() != "!="@.len());
}

proof fn lemma_ordinary_places(text: Seq<char>, i: int)
    requires
        0 <= i,
        forall|j: int| !(#[trigger] at(text, j, "crate::crate::"@)),
    ensures
        prefix_places(paths_from(text, i)) == ordinary_places(text, i),
    decreases text.len() - i,
{
    if i >= text.len() {
    } else if crate_path_starts(text, i) {
        let m = path_at(text, i);
        let rest = paths_from(text, m.end);
        lemma_path_bounds(text, i);
        lemma_macro_at(text, i);
        assert(!at(text, i, "crate::crate::"@));
        assert forall|j: int| i + 1 <= j < m.end implies !(#[trigger] crate_path_starts(
            text,
            j,
        )) by {
            lemma_no_path_within(text, i, j);
        }
        lemma_no_places(text, i + 1, m.end);
        lemma_ordinary_places(text, m.end);
        lemma_first_place(m, rest);
        let one = seq![m];
        assert(one.drop_last() == Seq::<Found>::empty());
        assert(prefix_places(one.drop_last()) == Seq::<int>::empty());
        if macro_at(text, i) {
            assert(prefix_places(one) == Seq::<int>::empty());
            assert(prefix_places(one) + prefix_places(rest) == prefix_places(rest));
        } else {
            assert(prefix_places(one) == seq![i + 7]);
        }
    } else {
        lemma_ordinary_places(text, i + 1);
    }
}

/// In a line without `crate::crate::`, the name of the crate and `::` are put in
/// right behind each `crate::` with which no word goes on and which no macro invocation
/// follows, and nothing else is changed. So the line gets longer by as much for each of
/// those.
pub proof fn law_line_gains_the_name_at_each_path(line: Seq<char>, crate_name: Seq<char>)
    requires
        forall|i: int| !(#[trigger] at(line, i, "crate::crate::"@)),
    ensures
        ({
            let r = rewritten(line, crate_name);
            let places = ordinary_places(line, 0);
            &&& r == inserted(line, places, crate_name + "::"@)
            &&& r.len() == line.len() + places.len() * (crate_name.len() + 2)
        }),
{
    law_paths_are_found(line);
    law_rewriting_is_insertion(line, paths_from(line, 0), crate_name);
    lemma_ordinary_places(line, 0);
}

} // verus!
