use ciprobe::text::{
    chars_of, check_ascii_digit, check_letter_or_digit, check_whitespace, find_in, line_spans,
    lowercase, split_spans, string_from, strip_bounds, trim_bounds, trim_start_bounds,
};

fn cut(text: &str, start: usize, end: usize) -> String {
    text.chars().skip(start).take(end - start).collect()
}

#[test]
fn whitespace_agrees_with_the_standard_library_on_every_character() {
    let mut code: u32 = 0;
    while code <= 0x10FFFF {
        if let Some(c) = char::from_u32(code) {
            assert_eq!(check_whitespace(c), c.is_whitespace(), "U+{:04X}", code);
        }
        code += 1;
    }
}

#[test]
fn letters_and_digits_agree_with_the_standard_library_on_every_character() {
    let mut code: u32 = 0;
    while code <= 0x10FFFF {
        if let Some(c) = char::from_u32(code) {
            assert_eq!(check_letter_or_digit(c), c.is_alphanumeric(), "U+{:04X}", code);
            assert_eq!(check_ascii_digit(c), c.is_ascii_digit(), "U+{:04X}", code);
        }
        code += 1;
    }
}

#[test]
fn letters_beyond_ascii_are_classified() {
    assert!(check_letter_or_digit('é'));
    assert!(check_letter_or_digit('٣'));
    assert!(!check_letter_or_digit('€'));
    assert!(!check_letter_or_digit('_'));
    assert!(!check_letter_or_digit(' '));
}

#[test]
fn chars_of_keeps_every_character_in_order() {
    assert_eq!(chars_of(""), Vec::<char>::new());
    assert_eq!(chars_of("a/é@1"), vec!['a', '/', 'é', '@', '1']);
}

#[test]
fn string_from_cuts_the_given_range() {
    let v = chars_of("héllo wörld");
    assert_eq!(string_from(&v, 0, 5), "héllo");
    assert_eq!(string_from(&v, 6, 11), "wörld");
    assert_eq!(string_from(&v, 3, 3), "");
}

#[test]
fn trim_bounds_agree_with_trim() {
    for text in [
        "",
        " ",
        "\t\n",
        "abc",
        "  abc",
        "abc  ",
        " \t a b c \r\n",
        "\u{a0}x\u{3000}",
        "\u{2003}\u{85}",
        "a",
    ] {
        let v = chars_of(text);
        let (a, b) = trim_bounds(&v, 0, v.len());
        assert_eq!(cut(text, a, b), text.trim(), "{:?}", text);
    }
}

#[test]
fn trim_bounds_stay_within_the_given_range() {
    let v = chars_of("ab  cd  ef");
    assert_eq!(trim_bounds(&v, 2, 8), (4, 6));
    assert_eq!(trim_bounds(&v, 2, 4), (4, 4));
}

#[test]
fn trim_start_counts_the_bytes_of_the_indentation() {
    for text in ["", "x", "  x", "\t\tx ", "\u{a0} x", "\u{3000}\u{2003}x", "   "] {
        let v = chars_of(text);
        let (a, bytes) = trim_start_bounds(&v, 0, v.len());
        let trimmed = text.trim_start();
        assert_eq!(cut(text, a, v.len()), trimmed, "{:?}", text);
        assert_eq!(bytes as usize, text.len() - trimmed.len(), "{:?}", text);
    }
}

#[test]
fn strip_bounds_agree_with_trim_matches() {
    for text in ["", "'", "''", "'a'", "''a", "a''", "a'b", "'a'b'"] {
        let v = chars_of(text);
        let (a, b) = strip_bounds(&v, 0, v.len(), '\'');
        assert_eq!(cut(text, a, b), text.trim_matches('\''), "{:?}", text);
    }
}

#[test]
fn find_in_agrees_with_find() {
    let cases = [
        ("", ""),
        ("", "a"),
        ("abc", ""),
        ("abc", "abc"),
        ("abc", "abcd"),
        ("xxtask:yytask:", "task:"),
        ("tastask:", "task:"),
        ("aaab", "aab"),
        ("héllo@wörld", "@"),
        ("no marker here", "task:"),
    ];
    for (text, pattern) in cases {
        let v = chars_of(text);
        let p = chars_of(pattern);
        let expected = text.find(pattern).map(|at| text[..at].chars().count());
        assert_eq!(find_in(&v, 0, v.len(), &p), expected, "{:?} in {:?}", pattern, text);
    }
}

#[test]
fn find_in_searches_only_the_given_range() {
    let v = chars_of("a@b@c");
    let at = chars_of("@");
    assert_eq!(find_in(&v, 0, 5, &at), Some(1));
    assert_eq!(find_in(&v, 2, 5, &at), Some(3));
    assert_eq!(find_in(&v, 2, 3, &at), None);
    assert_eq!(find_in(&v, 4, 5, &at), None);
}

#[test]
fn split_spans_agree_with_split() {
    for text in ["", ".", "a", "a.b", "a.", ".a", "a..b", "1.2.3", "..."] {
        let v = chars_of(text);
        let spans = split_spans(&v, 0, v.len(), '.');
        let pieces: Vec<String> = spans.iter().map(|s| cut(text, s.start, s.end)).collect();
        let expected: Vec<String> = text.split('.').map(|p| p.to_string()).collect();
        assert_eq!(pieces, expected, "{:?}", text);
    }
}

#[test]
fn line_spans_agree_with_lines() {
    for text in [
        "",
        "\n",
        "a",
        "a\n",
        "a\nb",
        "a\n\nb\n",
        "a\r\nb\r\n",
        "a\r",
        "a\r\n\r\n",
        "\r\n",
        "a\rb\nc",
        "a\r\r\nb",
        "trailing spaces  \n  indented",
    ] {
        let v = chars_of(text);
        let spans = line_spans(&v);
        let found: Vec<String> = spans.iter().map(|s| cut(text, s.start, s.end)).collect();
        let expected: Vec<String> = text.lines().map(|l| l.to_string()).collect();
        assert_eq!(found, expected, "{:?}", text);
    }
}

#[test]
fn lowercase_agrees_with_the_standard_library() {
    let mut all_ascii = String::new();
    let mut code: u8 = 0;
    while code < 128 {
        all_ascii.push(code as char);
        code += 1;
    }
    assert_eq!(lowercase(&all_ascii), all_ascii.to_lowercase());
    for text in [
        "",
        "build/compile",
        "Deploy/Setup",
        "ABC_xyz/019",
        "ÄÖÜ/ΣΑΣ",
        "Σ",
        "aΣ",
        "İstanbul",
        "Straße",
        "mixed ASCII and É",
        "@[`{",
    ] {
        assert_eq!(lowercase(text), text.to_lowercase(), "{:?}", text);
    }
    assert_eq!(lowercase("Deploy/Setup"), "deploy/setup");
    assert_eq!(lowercase("build/compile"), "build/compile");
}
