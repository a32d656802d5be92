use sourcebundler::text::{
    chars_of, is_ident_char, is_whitespace, prev_char, trim_end, trim_feed, trim_start,
};

#[test]
fn white_space_is_that_of_unicode() {
    for code in 0..=0x10ffffu32 {
        if let Some(c) = char::from_u32(code) {
            assert_eq!(is_whitespace(c), c.is_whitespace(), "{:x}", code);
        }
    }
}

#[test]
fn trimming_drops_white_space_at_one_end() {
    for s in ["", " ", "\t x y \r\n", "x", "\u{3000}x\u{a0}", "  x", "x  "] {
        assert_eq!(trim_start(s), s.trim_start());
        assert_eq!(trim_end(s), s.trim_end());
    }
}

#[test]
fn one_line_feed_is_dropped() {
    for (s, r) in [
        ("", ""),
        ("\n", ""),
        ("a\n\n", "a\n"),
        ("a \r\n", "a \r"),
        ("a", "a"),
        ("\na", "\na"),
    ] {
        assert_eq!(trim_feed(s), r);
    }
}

#[test]
fn identifier_characters() {
    assert!(is_ident_char('a') && is_ident_char('Z') && is_ident_char('0') && is_ident_char('_'));
    assert!(is_ident_char('\u{e9}') && is_ident_char('\u{4e2d}'));
    assert!(!is_ident_char(' ') && !is_ident_char('-') && !is_ident_char('"'));
    for code in 0..128u32 {
        let c = char::from_u32(code).unwrap();
        assert_eq!(is_ident_char(c), c.is_ascii_alphanumeric() || c == '_');
    }
}

#[test]
fn character_before_a_position() {
    let chars = chars_of("a\u{e9}b");
    assert_eq!(chars, vec!['a', '\u{e9}', 'b']);
    assert_eq!(prev_char(&chars, 0), ' ');
    assert_eq!(prev_char(&chars, 1), 'a');
    assert_eq!(prev_char(&chars, 2), '\u{e9}');
    assert_eq!(prev_char(&chars, 3), 'b');
}
