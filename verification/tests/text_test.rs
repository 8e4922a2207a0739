use qgrep::text::{
    join_strings, split_str, str_eq, str_le, trim_line, usize_to_string, vec_contains,
};

fn strings(items: &[&str]) -> Vec<String> {
    let mut v = Vec::new();
    for item in items {
        v.push(item.to_string());
    }
    v
}

#[test]
fn split_two_pieces() {
    let r = split_str("a,b", ',');
    assert_eq!(r, strings(&["a", "b"]));
}

#[test]
fn split_keeps_empty_pieces() {
    assert_eq!(split_str("a,,b", ','), strings(&["a", "", "b"]));
    assert_eq!(split_str("a,", ','), strings(&["a", ""]));
    assert_eq!(split_str(",a", ','), strings(&["", "a"]));
}

#[test]
fn split_empty_input_is_one_empty_piece() {
    assert_eq!(split_str("", ','), strings(&[""]));
}

#[test]
fn split_without_separator_is_whole_input() {
    assert_eq!(split_str("abc", ','), strings(&["abc"]));
}

#[test]
fn join_with_space() {
    assert_eq!(join_strings(&strings(&["foo", "bar"]), " "), "foo bar");
}

#[test]
fn join_single_and_empty() {
    assert_eq!(join_strings(&strings(&["foo"]), "|"), "foo");
    assert_eq!(join_strings(&strings(&[]), "|"), "");
}

#[test]
fn trim_line_removes_terminators_only() {
    assert_eq!(trim_line("abc\r\n"), "abc");
    assert_eq!(trim_line("abc\n"), "abc");
    assert_eq!(trim_line("abc \r"), "abc ");
    assert_eq!(trim_line("  abc"), "  abc");
    assert_eq!(trim_line("\r\n"), "");
    assert_eq!(trim_line(""), "");
}

#[test]
fn string_equality() {
    assert!(str_eq("abc", "abc"));
    assert!(!str_eq("abc", "abd"));
    assert!(!str_eq("abc", "ab"));
    assert!(str_eq("", ""));
}

#[test]
fn string_order() {
    assert!(str_le("a", "b"));
    assert!(str_le("a", "a"));
    assert!(!str_le("b", "a"));
    assert!(str_le("ab", "abc"));
    assert!(!str_le("abc", "ab"));
    assert!(str_le("", "a"));
    assert!(str_le("LICENSE", "a"));
}

#[test]
fn contains_by_characters() {
    let v = strings(&["one", "two"]);
    assert!(vec_contains(&v, &"two".to_string()));
    assert!(!vec_contains(&v, &"three".to_string()));
}

#[test]
fn decimal_rendering() {
    assert_eq!(usize_to_string(0), "0");
    assert_eq!(usize_to_string(7), "7");
    assert_eq!(usize_to_string(10), "10");
    assert_eq!(usize_to_string(12345), "12345");
    assert_eq!(usize_to_string(1000), "1000");
}
