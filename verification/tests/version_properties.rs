use ciprobe::text::chars_of;
use ciprobe::version::{components_match, read_component, read_version, versions_match};
use ciprobe::{TaskValidState, VersionCompare};

#[test]
fn every_text_matches_itself() {
    for v in ["", "1", "1.0", "a", "not.a.version", ".", "1..2", "+1", "4294967296", " 1", "1 "] {
        assert!(v.to_string().version_matches(v), "{:?}", v);
        assert!(versions_match(v, v), "{:?}", v);
    }
}

#[test]
fn matching_does_not_depend_on_the_order() {
    let texts = ["1", "1.0", "1.0.0", "1.1", "2", "x", "", "1.", "+1", "01"];
    for a in texts {
        for b in texts {
            assert_eq!(versions_match(a, b), versions_match(b, a), "{:?} {:?}", a, b);
        }
    }
}

#[test]
fn missing_components_count_as_zero() {
    assert!(versions_match("2", "2.0"));
    assert!(versions_match("2.0", "2.0.0"));
    assert!(versions_match("2", "2.0.0"));
    assert!(versions_match("2", "2.0.0.0.0"));
    assert!(versions_match("0", "0.0"));
    assert!(!versions_match("1.0", "1.1"));
    assert!(!versions_match("2.0", "2.1"));
    assert!(!versions_match("2", "2.0.1"));
    assert!(!versions_match("2.0.0", "2.0.0.1"));
}

#[test]
fn texts_that_are_no_versions_match_letter_for_letter() {
    assert!(versions_match("not.a.version", "not.a.version"));
    assert!(!versions_match("not.a.version", "other"));
    assert!(!versions_match("1.0", "not.a.version"));
    assert!(!versions_match("not.a.version", "1.0"));
    assert!(!versions_match("1.", "1"));
    assert!(!versions_match("1.", "1.0"));
    assert!(versions_match("1.", "1."));
    assert!(!versions_match("", "0"));
    assert!(!versions_match(" 1", "1"));
    assert!(!versions_match("-1", "-1.0"));
    assert!(!versions_match("1_0", "10"));
}

#[test]
fn numbers_are_compared_by_value() {
    assert!(versions_match("01", "1"));
    assert!(versions_match("1.02", "1.2"));
    assert!(versions_match("+1", "1"));
    assert!(versions_match("+1.+0", "1"));
    assert!(versions_match("000", "0"));
    assert!(!versions_match("10", "1"));
}

#[test]
fn components_fit_in_32_bits() {
    assert!(versions_match("4294967295", "4294967295.0"));
    assert!(!versions_match("4294967296", "4294967296.0"));
    assert!(versions_match("4294967296", "4294967296"));
    assert!(!versions_match("99999999999999999999999999", "99999999999999999999999999.0"));
}

#[test]
fn components_are_read_as_the_standard_library_reads_numbers() {
    for text in [
        "", "0", "7", "42", "007", "+", "+5", "++5", "-5", "+-5", "5+", " 5", "5 ", "1_000", "0x10",
        "4294967295", "4294967296", "42949672950", "99999999999999999999", "٣", "1e3", "1.5",
        "+0", "+4294967295", "+4294967296", "00000000000000000000001",
    ] {
        let v = chars_of(text);
        assert_eq!(read_component(&v, 0, v.len()), text.parse::<u32>().ok(), "{:?}", text);
    }
}

#[test]
fn versions_are_read_as_their_components() {
    assert_eq!(read_version(&chars_of("1.2.3")), Some(vec![1, 2, 3]));
    assert_eq!(read_version(&chars_of("10")), Some(vec![10]));
    assert_eq!(read_version(&chars_of("0.0")), Some(vec![0, 0]));
    assert_eq!(read_version(&chars_of("")), None);
    assert_eq!(read_version(&chars_of("1..2")), None);
    assert_eq!(read_version(&chars_of(".1")), None);
    assert_eq!(read_version(&chars_of("1.x")), None);
}

#[test]
fn components_are_padded_with_zeros() {
    assert!(components_match(&vec![], &vec![]));
    assert!(components_match(&vec![], &vec![0, 0]));
    assert!(components_match(&vec![1], &vec![1, 0, 0]));
    assert!(components_match(&vec![1, 0, 0], &vec![1]));
    assert!(!components_match(&vec![1], &vec![1, 0, 1]));
    assert!(!components_match(&vec![1, 2], &vec![2, 1]));
}

#[test]
fn valid_states_are_equal_where_their_versions_match() {
    let two = TaskValidState::Default("2".to_string());
    let two_zero = TaskValidState::Default("2.0".to_string());
    let three = TaskValidState::Default("3".to_string());
    assert!(two == two_zero);
    assert!(two != three);
    assert_eq!(two_zero.to_string(), "@2.0");
}
