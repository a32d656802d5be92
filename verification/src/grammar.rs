//! The lines of Rust source that a bundler looks for.

use crate::text::{is_space, skip_space};
use vstd::prelude::*;

verus! {

/// What follows `word` in a text that starts with it.
pub open spec fn behind(s: Seq<char>, word: Seq<char>) -> Option<Seq<char>> {
    if word.is_prefix_of(s) {
        Some(s.skip(word.len() as int))
    } else {
        None
    }
}

/// What follows `word`, and the white space behind it, in a text that starts with both.
pub open spec fn behind_word(s: Seq<char>, word: Seq<char>) -> Option<Seq<char>> {
    match behind(s, word) {
        Some(t) => if t.len() > 0 && is_space(t[0]) {
            Some(skip_space(t))
        } else {
            None
        },
        None => None,
    }
}

/// White space, and at most a line comment behind it.
pub open spec fn is_tail(s: Seq<char>) -> bool {
    let t = skip_space(s);
    t.len() == 0 || "//"@.is_prefix_of(t)
}

/// A `;` at `i` with nothing but white space or a line comment behind it.
pub open spec fn ends_at(s: Seq<char>, i: int) -> bool {
    s[i] == ';' && is_tail(s.skip(i + 1))
}

/// The last such `;` before position `i`.
pub open spec fn last_end(s: Seq<char>, i: int) -> Option<int>
    decreases i,
{
    if i <= 0 {
        None
    } else if ends_at(s, i - 1) {
        Some(i - 1)
    } else {
        last_end(s, i - 1)
    }
}

/// What stands before the last such `;`, if it is at least `least` characters.
pub open spec fn statement(s: Seq<char>, least: nat) -> Option<Seq<char>> {
    match last_end(s, s.len() as int) {
        Some(end) => if end >= least {
            Some(s.take(end))
        } else {
            None
        },
        None => None,
    }
}

/// `#![warn(...)]`.
pub open spec fn is_warn_line(line: Seq<char>) -> bool {
    "#![warn("@.is_prefix_of(skip_space(line))
}

/// The line that pulls in the library of this name.
pub open spec fn is_link_line(crate_name: Seq<char>, line: Seq<char>) -> bool {
    match behind_word(skip_space(line), "extern"@) {
        Some(s) => match behind_word(s, "crate"@) {
            Some(t) => match behind(t, crate_name) {
                Some(u) => match behind(skip_space(u), ";"@) {
                    Some(tail) => is_tail(tail),
                    None => false,
                },
                None => false,
            },
            None => false,
        },
        None => false,
    }
}

/// What a `use <crate_name>::...;` line imports.
pub open spec fn imported(crate_name: Seq<char>, line: Seq<char>) -> Option<Seq<char>> {
    match behind_word(skip_space(line), "use"@) {
        Some(s) => if (crate_name + "::"@).is_prefix_of(s) {
            statement(s, crate_name.len() + 2)
        } else {
            None
        },
        None => None,
    }
}

/// What follows `mod`, or `pub mod`, at the start of a line. It starts with white space.
pub open spec fn behind_mod(line: Seq<char>) -> Option<Seq<char>> {
    let s = skip_space(line);
    let t = match behind_word(s, "pub"@) {
        Some(t) => t,
        None => s,
    };
    match behind(t, "mod"@) {
        Some(u) => if u.len() > 0 && is_space(u[0]) {
            Some(u)
        } else {
            None
        },
        None => None,
    }
}

/// The name in a `mod name;` or `pub mod name;` line. If the name is missing, the last of
/// several white space characters takes its place.
pub open spec fn declared_mod(line: Seq<char>) -> Option<Seq<char>> {
    match behind_mod(line) {
        Some(s) => {
            let t = skip_space(s);
            let gap = s.len() - t.len();
            if statement(t, 1) is None && statement(t, 0) is Some && gap > 1 {
                Some(seq![s[gap - 1]])
            } else {
                statement(t, 1)
            }
        },
        None => None,
    }
}

} // verus!
