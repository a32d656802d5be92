use sourcebundler::Bundler;

fn written(strip: bool, minify: bool, lines: &[&str]) -> String {
    let mut b = Bundler::new_fd("x", String::new());
    b.strip_comments_set(strip);
    b.minify_set(minify);
    for line in lines {
        b.write_line(line);
    }
    b.bundle_file().to_string()
}

#[test]
fn bundle_keep_preserves_credit_and_drops_marker() {
    let mut b = Bundler::new_fd("x", String::new());
    b.strip_comments_set(true);
    for l in [
        "// bundle-keep",
        "// based on the original Foo library",
        "// (c) 2020 Example Author",
        "let x = 1; // strip this trailing note",
        "// a normal note after the block",
    ] {
        b.write_line(l);
    }
    let out = b.bundle_file().to_string();
    assert!(!out.contains("bundle-keep"), "marker line must be dropped");
    assert!(out.contains("// based on the original Foo library"));
    assert!(out.contains("// (c) 2020 Example Author"));
    assert!(out.contains("let x = 1;"), "code line kept");
    assert!(!out.contains("strip this trailing note"), "keep mode ends at code line");
    assert!(!out.contains("a normal note after the block"), "later normal comment stripped");
}

#[test]
fn comments_stay_unless_stripped() {
    let lines = ["// bundle-keep", "  // note", "x; // y", "", "/* z", "*/"];
    assert_eq!(written(false, false, &lines), "// bundle-keep\n  // note\nx; // y\n\n/* z\n*/\n");
}

#[test]
fn stripped_lines_that_become_empty_are_dropped() {
    let lines = ["// note", "", "  ", "x; // y", "/* z", "z", "z */ w", "/* v */"];
    assert_eq!(written(true, false, &lines), "x; \n w\n");
}

#[test]
fn keep_mode_is_exact_about_its_marker() {
    let lines = ["  // bundle-keep", "\t// a", "  // bundle-keep", "// b", "", "// c"];
    assert_eq!(written(true, false, &lines), "\t// a\n// b\n");
    // Something behind the marker makes it an ordinary comment.
    assert_eq!(written(true, false, &["// bundle-keep ", "// a"]), "");
    // A line that does not start with `//` ends keep mode and is stripped.
    assert_eq!(written(true, false, &["// bundle-keep", "x // a", "// b"]), "x \n");
}

#[test]
fn string_over_several_lines_is_preserved() {
    assert_eq!(written(true, false, &["let s = \"a", "// b\";"]), "let s = \"a\n// b\";\n");
    let lines = ["f(\"a /*", "", "  // bundle-keep", "\\\" // b \\", "\", 'c'); // d", "// e"];
    assert_eq!(
        written(true, false, &lines),
        "f(\"a /*\n\n  // bundle-keep\n\\\" // b \\\n\", 'c'); \n"
    );
}

#[test]
fn raw_string_over_several_lines_is_stripped_line_by_line() {
    let lines = ["let r = r#\"a", "// b", "c\"d // e", "\"#; // f", "// g", "x; // h"];
    assert_eq!(
        written(true, false, &lines),
        "let r = r#\"a\nc\"d // e\n\"#; // f\nx; \n"
    );
    // A block comment is read in it as in code.
    let lines = ["let r = r\"a", "/* b", "c */ d", "e\"; // f", "// g"];
    assert_eq!(written(true, false, &lines), "let r = r\"a\n d\ne\"; // f\n");
    let lines = ["let r = r\"a", "/*", "b\";", "c;", "*/ d;"];
    assert_eq!(written(true, false, &lines), "let r = r\"a\n d;\n");
}

#[test]
fn kept_comments_are_verbatim() {
    assert_eq!(written(true, true, &["// bundle-keep", "  // a  "]), "  // a  \n");
    // Inside a block comment there are no markers.
    assert_eq!(written(true, false, &["/*", "// bundle-keep", "// a */", "x"]), "x\n");
}

#[test]
fn minified_lines_lose_their_leading_white_space() {
    let lines = ["  a  ", "\t\u{3000}b c\t", "", "   ", "d"];
    assert_eq!(written(false, true, &lines), "a  \nb c\t\n\n\nd\n");
    assert_eq!(written(true, true, &["  a // b"]), "a \n");
    // A text with a line feed is a match only if white space alone follows it.
    assert_eq!(written(false, true, &["  a\n b"]), "  a\n b\n");
    assert_eq!(written(false, true, &["  a\n "]), "a\n");
}

#[test]
fn lines_are_appended() {
    let mut b = Bundler::new_fd("x", String::from("head\n"));
    b.emit_line("crate::a // b");
    assert_eq!(b.bundle_file(), "head\ncrate::a // b\n");
}
