use statuspage::text::joined;
use statuspage::text::same_text;
use statuspage::text::starts_with;
use statuspage::text::strip_prefix;

#[test]
fn starts_with_tests_the_prefix() {
    assert!(starts_with("status::operational", "status::"));
    assert!(starts_with("status::", "status::"));
    assert!(starts_with("anything", ""));
    assert!(!starts_with("status:", "status::"));
    assert!(!starts_with("", "status::"));
    assert!(!starts_with("Status::operational", "status::"));
    assert!(!starts_with("component/api", "status::"));
}

#[test]
fn starts_with_counts_characters_not_bytes() {
    assert!(starts_with("\u{e9}t\u{e9}/x", "\u{e9}t\u{e9}/"));
    assert!(!starts_with("\u{e9}", "\u{e8}"));
    assert!(!starts_with("e", "\u{e9}"));
}

#[test]
fn same_text_is_equality() {
    assert!(same_text("status::operational", "status::operational"));
    assert!(same_text("", ""));
    assert!(!same_text("status::operational", "status::operational "));
    assert!(!same_text("status::operational", "status::operationam"));
    assert!(!same_text("a", ""));
}

#[test]
fn strip_prefix_returns_what_follows() {
    assert_eq!(strip_prefix("component/api", "component/"), Some(String::from("api")));
    assert_eq!(strip_prefix("component/", "component/"), Some(String::new()));
    assert_eq!(
        strip_prefix("component/web/ui", "component/"),
        Some(String::from("web/ui"))
    );
    assert_eq!(strip_prefix("component/caf\u{e9}", "component/"), Some(String::from("caf\u{e9}")));
    assert_eq!(strip_prefix("status::operational", "component/"), None);
    assert_eq!(strip_prefix("component", "component/"), None);
}

#[test]
fn joined_appends() {
    assert_eq!(joined("component/", "api"), "component/api");
    assert_eq!(joined("", "api"), "api");
    assert_eq!(joined("component/", ""), "component/");
}
