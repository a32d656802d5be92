use sourcebundler::pattern::{source_line_regex, CRATE_PATH, MINIFY, MOD_SOURCE, WARN_SOURCE};

#[test]
fn shorthand_is_written_out() {
    assert_eq!(
        source_line_regex(WARN_SOURCE).unwrap().pattern(),
        r"^\s*#!\[warn\(.*(?://.*)?$"
    );
    assert_eq!(
        source_line_regex(MOD_SOURCE).unwrap().pattern(),
        r"^\s*(pub\s+)?mod\s+(?P<m>.+)\s*;\s*(?://.*)?$"
    );
    assert_eq!(source_line_regex("a   b    c ").unwrap().pattern(), r"^a\s+\s*b\s+\s+c\s*(?://.*)?$");
    assert_eq!(source_line_regex("").unwrap().pattern(), r"^(?://.*)?$");
}

#[test]
fn bad_shorthand_does_not_compile() {
    assert!(source_line_regex("(").is_err());
    assert!(source_line_regex("a{2").is_err());
    // Valid patterns compile, whatever they start with.
    for source in ["a", "a  b c", "(a|b)+", "\u{e9}"] {
        assert!(source_line_regex(source).is_ok());
    }
    assert_eq!(source_line_regex("a  b c").unwrap().pattern(), r"^a\s+b\s*c(?://.*)?$");
}

/// All texts of up to `n` of the pieces.
fn texts(pieces: &[&str], n: usize) -> Vec<String> {
    let mut all = vec![String::new()];
    let mut last = all.clone();
    for _ in 0..n {
        let mut next = Vec::new();
        for text in &last {
            for piece in pieces {
                next.push(format!("{}{}", text, piece));
            }
        }
        all.extend(next.clone());
        last = next;
    }
    all
}

fn behind_word<'t>(s: &'t str, word: &str) -> Option<&'t str> {
    let t = s.strip_prefix(word)?;
    if t.starts_with(char::is_whitespace) {
        Some(t.trim_start())
    } else {
        None
    }
}

fn is_tail(s: &str) -> bool {
    let t = s.trim_start();
    t.is_empty() || t.starts_with("//")
}

fn statement(s: &str, least: usize) -> Option<&str> {
    let end = s.char_indices().filter(|(i, c)| *c == ';' && is_tail(&s[i + 1..])).last()?.0;
    if end >= least {
        Some(&s[..end])
    } else {
        None
    }
}

#[test]
fn warn_lines_are_those_of_the_pattern() {
    let re = regex::Regex::new(source_line_regex(WARN_SOURCE).unwrap().pattern()).unwrap();
    for text in texts(&[" ", "\t", "#", "![", "#![warn(", "warn", "//", ")]"], 5) {
        assert_eq!(re.is_match(&text), text.trim_start().starts_with("#![warn("), "{:?}", text);
    }
}

#[test]
fn link_lines_are_those_of_the_pattern() {
    let re = source_line_regex(" extern  crate  a_1 ; ").unwrap();
    let re = regex::Regex::new(re.pattern()).unwrap();
    let expected = |line: &str| -> bool {
        let s = match behind_word(line.trim_start(), "extern") {
            Some(s) => s,
            None => return false,
        };
        let t = match behind_word(s, "crate") {
            Some(t) => t,
            None => return false,
        };
        match t.strip_prefix("a_1").map(|u| u.trim_start()).and_then(|u| u.strip_prefix(';')) {
            Some(tail) => is_tail(tail),
            None => false,
        }
    };
    let mut matches = 0;
    for head in texts(&[" ", "\u{3000}", "extern", "extern ", "crate", "crate\t"], 4) {
        for tail in texts(&["a_1", ";", " ", "//", "x"], 4) {
            let text = format!("{}{}", head, tail);
            assert_eq!(re.is_match(&text), expected(&text), "{:?}", text);
            if re.is_match(&text) {
                matches += 1;
            }
        }
    }
    assert!(matches > 100);
}

#[test]
fn import_lines_are_those_of_the_pattern() {
    let re = source_line_regex(" use  (?P<submod>a_1::.*) ; ").unwrap();
    let re = regex::Regex::new(re.pattern()).unwrap();
    let expected = |line: &str| -> Option<String> {
        let s = behind_word(line.trim_start(), "use")?;
        if s.starts_with("a_1::") {
            statement(s, 5).map(String::from)
        } else {
            None
        }
    };
    let mut matches = 0;
    for head in texts(&[" ", "use", "use ", "a_1", "a_1::"], 4) {
        for tail in texts(&["::", ";", " ", "//", "x"], 5) {
            let text = format!("{}{}", head, tail);
            let found = re.captures(&text).map(|c| c.name("submod").unwrap().as_str().to_string());
            assert_eq!(found, expected(&text), "{:?}", text);
            if found.is_some() {
                matches += 1;
            }
        }
    }
    assert!(matches > 100);
}

#[test]
fn module_lines_are_those_of_the_pattern() {
    let re = regex::Regex::new(source_line_regex(MOD_SOURCE).unwrap().pattern()).unwrap();
    let expected = |line: &str| -> Option<String> {
        let s = line.trim_start();
        let s = behind_word(s, "pub").unwrap_or(s).strip_prefix("mod")?;
        let t = s.trim_start();
        let gap: Vec<char> = s[..s.len() - t.len()].chars().collect();
        if gap.is_empty() {
            None
        } else if statement(t, 1).is_none() && statement(t, 0).is_some() && gap.len() > 1 {
            Some(gap[gap.len() - 1].to_string())
        } else {
            statement(t, 1).map(String::from)
        }
    };
    let mut matches = 0;
    for head in texts(&[" ", "pub", "pub ", "mod", "mod\t"], 4) {
        for tail in texts(&["mod ", ";", " ", "\u{2003}", "//", "x"], 5) {
            let text = format!("{}{}", head, tail);
            let found = re.captures(&text).map(|c| c.name("m").unwrap().as_str().to_string());
            assert_eq!(found, expected(&text), "{:?}", text);
            if found.is_some() {
                matches += 1;
            }
        }
    }
    assert!(matches > 100);
}

#[test]
fn minify_keeps_all_but_leading_white_space() {
    let re = regex::Regex::new(MINIFY).unwrap();
    for text in texts(&[" ", "\t", "\r", "\u{2003}", "a", "\u{e9}"], 5) {
        let found: Vec<_> = re.captures_iter(&text).collect();
        assert_eq!(found.len(), 1, "{:?}", text);
        assert_eq!(found[0].get(0).unwrap().as_str(), text);
        assert_eq!(found[0].name("contents").unwrap().as_str(), text.trim_start());
    }
}

#[test]
fn crate_paths_are_those_of_the_pattern() {
    let re = regex::Regex::new(CRATE_PATH).unwrap();
    let word = regex::Regex::new(r"\w").unwrap();
    let is_word = |c: char| {
        if c.is_ascii() {
            c.is_ascii_alphanumeric() || c == '_'
        } else {
            word.is_match(&c.to_string())
        }
    };
    let mut all = texts(&["crate", "::", "crate::", "!", "=", "x_", " ", "crate::x!"], 5);
    // A letter, a combining mark, a joiner, a dash and a space beyond ASCII.
    let beyond = ["\u{e9}", "\u{301}", "\u{200d}", "\u{2014}", "\u{3000}", "crate::", "!", "x"];
    all.extend(texts(&beyond, 4));
    let mut matches = 0;
    for text in all {
        let mut expected = Vec::new();
        let mut i = 0;
        while i < text.len() {
            if text[i..].starts_with("crate::") && !text[..i].ends_with(is_word) {
                let rest = &text[i + 7..];
                let seg = rest.len() - rest.trim_start_matches(is_word).len();
                let bang = if rest[seg..].starts_with("!=") {
                    2
                } else {
                    usize::from(rest[seg..].starts_with('!'))
                };
                let end = i + 7 + seg + bang;
                expected.push((i, end, seg, bang));
                i = end;
            } else {
                i += text[i..].chars().next().map_or(1, char::len_utf8);
            }
        }
        let found: Vec<_> = re
            .captures_iter(&text)
            .map(|c| {
                let m = c.get(0).unwrap();
                let seg = c.name("seg").map_or(0, |s| s.as_str().len());
                (m.start(), m.end(), seg, c.name("bang").map_or(0, |s| s.as_str().len()))
            })
            .collect();
        assert_eq!(found, expected, "{:?}", text);
        matches += found.len();
    }
    assert!(matches > 100);
}
