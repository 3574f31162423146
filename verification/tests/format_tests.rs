use ciprobe::format::{append_joined, decimal_text, sorted_texts, text_before_or_same};
use ciprobe::text::chars_of;

fn texts(words: &[&str]) -> Vec<String> {
    words.iter().map(|w| w.to_string()).collect()
}

#[test]
fn numbers_are_written_in_decimal() {
    for n in [0usize, 1, 9, 10, 11, 99, 100, 101, 12345, 1_000_000, usize::MAX - 1, usize::MAX] {
        assert_eq!(decimal_text(n), n.to_string());
    }
}

#[test]
fn texts_are_joined_with_a_separator() {
    for words in [&[][..], &["a"], &["a", "b"], &["", "", ""], &["1", "2", "3.0"]] {
        let mut out = "x".to_string();
        append_joined(&mut out, &texts(words), " or ");
        assert_eq!(out, format!("x{}", words.join(" or ")));
    }
}

#[test]
fn order_of_texts_is_that_of_the_standard_library() {
    let words = ["", "a", "A", "ab", "abc", "b", "é", "z", "~", "€", "😀", "aé", "a~", " ", "0", "10", "9"];
    for a in words {
        for b in words {
            assert_eq!(text_before_or_same(&chars_of(a), &chars_of(b)), a <= b, "{:?} {:?}", a, b);
        }
    }
}

#[test]
fn texts_are_sorted_as_the_standard_library_sorts_them() {
    for words in [
        &[][..],
        &["a"],
        &["b", "a"],
        &["b", "a", "c", "a", "b"],
        &["- z v1 (r)", "- a v2 (r, s)", "- a v10 (r)", "- A v1 (r)"],
        &["é", "z", "e", "", "€", "~"],
    ] {
        let mut expected = texts(words);
        expected.sort();
        assert_eq!(sorted_texts(&texts(words)), expected);
    }
}
