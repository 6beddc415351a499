use msegen::text::{decimal_string, join_lines, same_text, to_uppercase_first};

#[test]
fn decimal_of_small_and_large_numbers() {
    assert_eq!(decimal_string(0), "0");
    assert_eq!(decimal_string(7), "7");
    assert_eq!(decimal_string(10), "10");
    assert_eq!(decimal_string(1234567890), "1234567890");
    assert_eq!(decimal_string(u64::MAX), "18446744073709551615");
}

#[test]
fn join_puts_the_separator_between_neighbours() {
    let parts = vec!["a".to_string(), "b".to_string(), "c".to_string()];
    assert_eq!(join_lines(&parts, ", "), "a, b, c");
    assert_eq!(join_lines(&parts[..1].to_vec(), ", "), "a");
    assert_eq!(join_lines(&Vec::new(), ", "), "");
    assert_eq!(join_lines(&vec![String::new(), String::new()], "\n"), "\n");
}

#[test]
fn first_letter_becomes_a_capital() {
    assert_eq!(to_uppercase_first("flying"), "Flying");
    assert_eq!(to_uppercase_first("first strike"), "First strike");
    assert_eq!(to_uppercase_first("Trample"), "Trample");
    assert_eq!(to_uppercase_first("2nd"), "2nd");
    assert_eq!(to_uppercase_first("z"), "Z");
    assert_eq!(to_uppercase_first(""), "");
}

#[test]
fn same_text_compares_whole_texts() {
    assert!(same_text("magic", "magic"));
    assert!(!same_text("magic", "magi"));
    assert!(!same_text("magic", "magiC"));
    assert!(same_text("", ""));
}
