use fixtures::text::{
    find_char, i64_to_decimal, same_text, sort_texts, text_less, u64_to_decimal,
    zero_padded_decimal,
};

#[test]
fn decimal_rendering() {
    assert_eq!(u64_to_decimal(0), "0");
    assert_eq!(u64_to_decimal(7), "7");
    assert_eq!(u64_to_decimal(12345), "12345");
    assert_eq!(u64_to_decimal(u64::MAX), u64::MAX.to_string());
    assert_eq!(i64_to_decimal(-1), "-1");
    assert_eq!(i64_to_decimal(-250), "-250");
    assert_eq!(i64_to_decimal(i64::MIN), i64::MIN.to_string());
    assert_eq!(i64_to_decimal(i64::MAX), i64::MAX.to_string());
}

#[test]
fn zero_padding() {
    assert_eq!(zero_padded_decimal(1, 3), "001");
    assert_eq!(zero_padded_decimal(42, 3), "042");
    assert_eq!(zero_padded_decimal(999, 3), "999");
    assert_eq!(zero_padded_decimal(1000, 3), "1000");
    assert_eq!(zero_padded_decimal(5, 0), "5");
}

#[test]
fn text_comparison() {
    assert!(same_text("abc", "abc"));
    assert!(!same_text("abc", "abd"));
    assert!(!same_text("abc", "ab"));
    assert!(text_less("ab", "abc"));
    assert!(text_less("abc", "abd"));
    assert!(!text_less("abd", "abc"));
    assert!(!text_less("abc", "abc"));
    assert!(text_less("", "a"));
    assert!(text_less("Z", "a"));
    assert!(text_less("z", "é"));
}

#[test]
fn first_char_position() {
    assert_eq!(find_char("a/b/c", '/'), Some(1));
    assert_eq!(find_char("abc", '/'), None);
    assert_eq!(find_char("/x", '/'), Some(0));
    assert_eq!(find_char("é/x", '/'), Some(1));
}

#[test]
fn sorting_matches_str_order() {
    let input: Vec<String> = ["v1.0", "b", "a", "v1.0", "é", "Z", "", "ab"]
        .iter()
        .map(|s| s.to_string())
        .collect();
    let mut expected = input.clone();
    expected.sort();
    assert_eq!(sort_texts(&input), expected);
}
