use sourcebundler::paths::{crate_path_replacement, replacement, rewrite_crate_paths, Replacement};

#[test]
fn rewrites_item_paths_but_not_macro_export_invocations() {
    // Ordinary item paths get the crate-name prefix, at any nesting depth.
    assert_eq!(rewrite_crate_paths("use crate::foo::Bar;", "mylib"), "use crate::mylib::foo::Bar;");
    assert_eq!(rewrite_crate_paths("$crate::a::B", "mylib"), "$crate::mylib::a::B");
    // Brace / glob imports keep working (no first ident segment).
    assert_eq!(rewrite_crate_paths("use crate::{a, b};", "mylib"), "use crate::mylib::{a, b};");
    assert_eq!(rewrite_crate_paths("use crate::*;", "mylib"), "use crate::mylib::*;");
    // `#[macro_export]` macro invocations stay at the crate root (no prefix).
    assert_eq!(rewrite_crate_paths("let g = crate::my_macro!(A => 1.0);", "mylib"), "let g = crate::my_macro!(A => 1.0);");
    // Non-crate paths are untouched (word boundary guards `mycrate`).
    assert_eq!(rewrite_crate_paths("use mycrate::foo;", "mylib"), "use mycrate::foo;");
}

#[test]
fn every_path_of_a_line_is_rewritten() {
    assert_eq!(
        rewrite_crate_paths("f(crate::a, crate::b!(crate::c), crate::d!)", "m"),
        "f(crate::m::a, crate::b!(crate::m::c), crate::d!)"
    );
    // The second `crate` is the first segment of the path.
    assert_eq!(rewrite_crate_paths("crate::crate::x", "m"), "crate::m::crate::x");
    assert_eq!(rewrite_crate_paths("crate::a crate::", "m"), "crate::m::a crate::m::");
}

#[test]
fn segment_and_bang_reach_as_far_as_they_go() {
    assert_eq!(rewrite_crate_paths("crate::a_1-b", "m"), "crate::m::a_1-b");
    assert_eq!(rewrite_crate_paths("crate::a!!", "m"), "crate::a!!");
    assert_eq!(rewrite_crate_paths("crate::a !", "m"), "crate::m::a !");
    assert_eq!(rewrite_crate_paths("crate::!", "m"), "crate::m::!");
}

#[test]
fn inequality_is_no_macro() {
    assert_eq!(rewrite_crate_paths("if crate::N!=1 {", "mylib"), "if crate::mylib::N!=1 {");
    assert_eq!(rewrite_crate_paths("crate::a!=crate::b!()", "m"), "crate::m::a!=crate::b!()");
    assert_eq!(rewrite_crate_paths("crate::a!==", "m"), "crate::m::a!==");
    assert_eq!(rewrite_crate_paths("crate::!=", "m"), "crate::m::!=");
}

#[test]
fn rewriting_is_insertion() {
    // Three ordinary paths: each adds the name and `::`.
    let line = "crate::a(crate::m!(), crate::{b}, $crate::c != mycrate::d)";
    let out = rewrite_crate_paths(line, "lib");
    assert_eq!(out, "crate::lib::a(crate::m!(), crate::lib::{b}, $crate::lib::c != mycrate::d)");
    assert_eq!(out.len(), line.len() + 3 * 5);
    assert_eq!(out.replace("crate::lib::", "crate::"), line);
}

#[test]
fn words_go_beyond_ascii() {
    assert_eq!(rewrite_crate_paths("\u{e9}crate::a", "m"), "\u{e9}crate::a");
    assert_eq!(rewrite_crate_paths("\u{2014}crate::a", "m"), "\u{2014}crate::m::a");
    assert_eq!(rewrite_crate_paths("crate::\u{e9}t!()", "m"), "crate::\u{e9}t!()");
    assert_eq!(rewrite_crate_paths("crate::\u{e9}t()", "m"), "crate::m::\u{e9}t()");
    assert_eq!(rewrite_crate_paths("crate::t\u{e9}!()", "m"), "crate::t\u{e9}!()");
    assert_eq!(rewrite_crate_paths("crate::t\u{2014}!()", "m"), "crate::m::t\u{2014}!()");
    assert_eq!(
        rewrite_crate_paths("let s = \"\u{e9}\"; crate::f();", "m"),
        "let s = \"\u{e9}\"; crate::m::f();"
    );
    assert_eq!(rewrite_crate_paths("let s = \"\u{e9}\";", "m"), "let s = \"\u{e9}\";");
}

#[test]
fn line_without_crate_path_is_unchanged() {
    for line in ["", "crate:", "use super::crate_::x;", "extern crate m;", "Crate::x"] {
        assert_eq!(rewrite_crate_paths(line, "m"), line);
    }
}

#[test]
fn replacement_of_one_path() {
    assert_eq!(crate_path_replacement("m", Some("a"), None), "crate::m::a");
    assert_eq!(crate_path_replacement("m", Some("a"), Some("!")), "crate::a!");
    assert_eq!(crate_path_replacement("m", None, None), "crate::m::");
    assert_eq!(crate_path_replacement("m", None, Some("!")), "crate::m::!");
    assert_eq!(crate_path_replacement("m", Some("a"), Some("!=")), "crate::m::a!=");
    assert_eq!(replacement(&Replacement::CratePath("m"), Some("a"), None), "crate::m::a");
    assert_eq!(replacement(&Replacement::FirstGroup, Some("a"), Some("b")), "a");
    assert_eq!(replacement(&Replacement::FirstGroup, None, Some("b")), "");
}
