use hyprland_per_window_layout::engine::{make_address, CommandFailed};
use hyprland_per_window_layout::text::{
    contains_str, count_comma_fields, find_comma, has_token_exec, prefix_before_comma,
    split_at_first_comma, str_eq,
};

#[test]
fn find_comma_positions() {
    assert_eq!(find_comma("a,b"), 1);
    assert_eq!(find_comma(",ab"), 0);
    assert_eq!(find_comma("ab"), 2);
    assert_eq!(find_comma(""), 0);
    assert_eq!(find_comma("a,b,c"), 1);
}

#[test]
fn prefix_before_comma_takes_first_field() {
    assert_eq!(prefix_before_comma("kitty,dialog"), "kitty");
    assert_eq!(prefix_before_comma("kitty"), "kitty");
    assert_eq!(prefix_before_comma(",rest"), "");
    assert_eq!(prefix_before_comma(""), "");
}

#[test]
fn split_at_first_comma_splits_once() {
    assert_eq!(
        split_at_first_comma("kb0,English (US, intl.)"),
        Some(("kb0".to_string(), "English (US, intl.)".to_string()))
    );
    assert_eq!(split_at_first_comma("kb0"), None);
    assert_eq!(
        split_at_first_comma("a,"),
        Some(("a".to_string(), "".to_string()))
    );
}

#[test]
fn token_matching_is_exact() {
    assert!(has_token_exec("kitty,dialog", "kitty"));
    assert!(has_token_exec("kitty,dialog", "dialog"));
    assert!(!has_token_exec("kitty,dialog", "kit"));
    assert!(!has_token_exec("kittykat", "kitty"));
    assert!(has_token_exec("", ""));
    assert!(!has_token_exec("a,b", "c"));
}

#[test]
fn substring_search() {
    assert!(contains_str("foo-yubikey-bar", "yubikey"));
    assert!(contains_str("yubikey", "yubikey"));
    assert!(!contains_str("yubike", "yubikey"));
    assert!(contains_str("anything", ""));
    assert!(!contains_str("", "x"));
}

#[test]
fn comma_field_counting() {
    assert_eq!(count_comma_fields("us"), 1);
    assert_eq!(count_comma_fields("us,de"), 2);
    assert_eq!(count_comma_fields("us,de,fr"), 3);
    assert_eq!(count_comma_fields(""), 1);
    assert_eq!(count_comma_fields(",,"), 3);
}

#[test]
fn string_equality() {
    assert!(str_eq("abc", "abc"));
    assert!(!str_eq("abc", "abd"));
    assert!(!str_eq("abc", "abcd"));
}

#[test]
fn address_normalization() {
    assert_eq!(make_address("AA12"), "0xAA12");
    assert_eq!(make_address(""), "0x");
}

#[test]
fn command_failed_message() {
    let failure = CommandFailed {};
    assert_eq!(failure.message(), "Command returned error");
}
