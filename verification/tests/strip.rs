use sourcebundler::strip::{copy_raw_string, strip_line, Inside};
use sourcebundler::Bundler;

fn strip(line: &str) -> String {
    let mut b = Bundler::new_fd("x", String::new());
    b.strip_comments_in_line(line)
}

fn raw(line: &str, start: usize) -> (Option<usize>, String) {
    let chars: Vec<char> = line.chars().collect();
    let mut out = String::from("<");
    let end = copy_raw_string(&chars, start, &mut out);
    (end, out)
}

#[test]
fn strips_full_line_and_trailing_comments() {
    assert_eq!(strip("    // a note").trim(), "");
    assert_eq!(strip("let x = 1; // trailing"), "let x = 1; ");
    assert_eq!(strip("/// doc").trim(), "");
    assert_eq!(strip("//! inner doc").trim(), "");
}

#[test]
fn keeps_comment_markers_inside_strings() {
    assert_eq!(strip(r#"let u = "http://x"; // c"#), r#"let u = "http://x"; "#);
    assert_eq!(strip(r#"let s = "a // b /* c";"#), r#"let s = "a // b /* c";"#);
}

#[test]
fn keeps_char_literals_and_lifetimes() {
    // '"' is a char literal holding a double quote; must not start a string.
    assert_eq!(strip(r#"let c = '"'; // x"#), r#"let c = '"'; "#);
    assert_eq!(strip("let c = '/'; // x"), "let c = '/'; ");
    // Lifetimes must not be treated as char literals.
    assert_eq!(strip("fn f<'a>(x: &'a str) {} // x"), "fn f<'a>(x: &'a str) {} ");
    assert_eq!(strip("T: Fn() + 'static // x"), "T: Fn() + 'static ");
}

#[test]
fn keeps_raw_strings() {
    assert_eq!(strip(r##"let r = r"a//b"; // c"##), r##"let r = r"a//b"; "##);
    assert_eq!(strip(r####"let r = r#"a"//b"#; // c"####), r####"let r = r#"a"//b"#; "####);
}

#[test]
fn handles_block_comments_across_lines() {
    let mut b = Bundler::new_fd("x", String::new());
    assert_eq!(b.strip_comments_in_line("code; /* start").trim(), "code;");
    assert_eq!(b.strip_comments_in_line("still in comment").trim(), "");
    assert_eq!(b.strip_comments_in_line("end */ tail").trim(), "tail");
}

#[test]
fn strips_several_block_comments_in_one_line() {
    assert_eq!(strip("a /* b */ c /* d */ e"), "a  c  e");
    assert_eq!(strip("a /*/ b */ c"), "a  c");
    assert_eq!(strip("a /* b // c"), "a ");
    assert_eq!(strip("a */ b"), "a */ b");
}

#[test]
fn open_comment_is_carried() {
    let mut inside = Inside::Code;
    assert_eq!(strip_line("x /*", &mut inside), "x ");
    assert_eq!(inside, Inside::Comment);
    assert_eq!(strip_line("", &mut inside), "");
    assert_eq!(inside, Inside::Comment);
    assert_eq!(strip_line("\"*/ // y", &mut inside), " ");
    assert_eq!(inside, Inside::Code);
}

#[test]
fn open_string_is_carried() {
    let mut inside = Inside::Code;
    assert_eq!(strip_line("f(b\"a\\", &mut inside), "f(b\"a\\");
    assert_eq!(inside, Inside::Text);
    assert_eq!(strip_line("", &mut inside), "");
    assert_eq!(inside, Inside::Text);
    assert_eq!(strip_line("// \\\" /*", &mut inside), "// \\\" /*");
    assert_eq!(inside, Inside::Text);
    assert_eq!(strip_line("//\" // \"", &mut inside), "//\" ");
    assert_eq!(inside, Inside::Code);
    // A char literal cannot be left open.
    assert_eq!(strip_line("'\\n", &mut inside), "'\\n");
    assert_eq!(inside, Inside::Code);
}

#[test]
fn open_raw_string_hides_quotes_up_to_its_end() {
    let mut inside = Inside::Code;
    assert_eq!(strip_line("br##\"a // b", &mut inside), "br##\"a // b");
    assert_eq!(inside, Inside::RawText(2));
    assert_eq!(strip_line("\"# // c", &mut inside), "\"# // c");
    assert_eq!(inside, Inside::RawText(2));
    assert_eq!(strip_line("// d", &mut inside), "");
    assert_eq!(inside, Inside::RawText(2));
    assert_eq!(strip_line("e\"##, \"f", &mut inside), "e\"##, \"f");
    assert_eq!(inside, Inside::Text);
    assert_eq!(strip_line("g\"; // h", &mut inside), "g\"; ");
    assert_eq!(inside, Inside::Code);
}

#[test]
fn open_raw_string_does_not_hide_block_comments() {
    let mut inside = Inside::Code;
    assert_eq!(strip_line("r#\"a", &mut inside), "r#\"a");
    assert_eq!(strip_line("x /* y", &mut inside), "x ");
    assert_eq!(inside, Inside::RawComment(1));
    assert_eq!(strip_line("", &mut inside), "");
    assert_eq!(inside, Inside::RawComment(1));
    assert_eq!(strip_line("*/ z\"#;", &mut inside), " z\"#;");
    assert_eq!(inside, Inside::Code);
    // The end of the raw string does not end what is read as a comment.
    inside = Inside::RawText(1);
    assert_eq!(strip_line("/* \"#;", &mut inside), "");
    assert_eq!(inside, Inside::Comment);
    // Behind a quote there is no comment on the same line.
    inside = Inside::RawText(1);
    assert_eq!(strip_line("\"#; /* a", &mut inside), "\"#; /* a");
    assert_eq!(inside, Inside::Code);
}

#[test]
fn line_without_comment_is_unchanged() {
    for line in ["", "let x = a / b * c;", "'\\'' '\\\\' \"\\\"\" b'x' br#\"\"# r#type"] {
        let mut inside = Inside::Code;
        assert_eq!(strip_line(line, &mut inside), line);
        assert_eq!(inside, Inside::Code);
    }
}

#[test]
fn escapes_hide_quotes() {
    assert_eq!(strip(r#"f("a\"// b") // c"#), r#"f("a\"// b") "#);
    assert_eq!(strip(r#"f("a\\") // c"#), r#"f("a\\") "#);
    assert_eq!(strip(r"f('\'') // c"), r"f('\'') ");
    assert_eq!(strip(r"f('\u{2f}') // c"), r"f('\u{2f}') ");
    assert_eq!(strip("\"open // c"), "\"open // c");
    assert_eq!(strip("\"open\\"), "\"open\\");
}

#[test]
fn identifier_before_r_is_no_raw_string() {
    // `bar"` is an identifier and an ordinary string, in which a backslash escapes.
    assert_eq!(strip(r#"bar"\"//" // c"#), r#"bar"\"//" "#);
    assert_eq!(strip(r#"_r"\"//" // c"#), r#"_r"\"//" "#);
    assert_eq!(strip("\u{e9}r\"\\\"//\" // c"), "\u{e9}r\"\\\"//\" ");
    assert_eq!(strip(r#"(r"\" // c"#), r#"(r"\" "#);
}

#[test]
fn raw_strings_are_copied_verbatim() {
    assert_eq!(raw(r#"r"a" b"#, 0), (Some(4), String::from(r#"<r"a""#)));
    assert_eq!(raw(r###"x r#"a"b"# c"###, 2), (Some(10), String::from(r###"<r#"a"b"#"###)));
    assert_eq!(raw(r###"br##"a"#b"##"###, 0), (Some(12), String::from(r###"<br##"a"#b"##"###)));
    assert_eq!(raw("r\"open", 0), (Some(6), String::from("<r\"open")));
    assert_eq!(raw("r#\"open\"", 0), (Some(8), String::from("<r#\"open\"")));
}

#[test]
fn no_raw_string_leaves_the_output_alone() {
    for line in ["r#ident", "r", "b", "b\"x\"", "br", "r##", "x"] {
        assert_eq!(raw(line, 0), (None, String::from("<")));
    }
}
