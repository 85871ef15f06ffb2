use cpex_core::extensions::http::HttpExtension;

#[test]
fn test_set_and_get_header() {
    let mut http = HttpExtension::default();
    http.set_header("Content-Type", "application/json");
    assert_eq!(http.get_header("Content-Type"), Some("application/json"));
}

#[test]
fn test_get_header_case_insensitive() {
    let mut http = HttpExtension::default();
    http.set_header("Authorization", "Bearer tok");
    assert_eq!(http.get_header("authorization"), Some("Bearer tok"));
    assert_eq!(http.get_header("AUTHORIZATION"), Some("Bearer tok"));
}

#[test]
fn test_has_header() {
    let mut http = HttpExtension::default();
    assert!(!http.has_header("X-Custom"));
    http.set_header("X-Custom", "value");
    assert!(http.has_header("X-Custom"));
    assert!(http.has_header("x-custom")); // case-insensitive
}

#[test]
fn test_add_header_only_if_absent() {
    let mut http = HttpExtension::default();
    assert!(http.add_header("X-New", "first"));
    assert!(!http.add_header("X-New", "second")); // already exists
    assert_eq!(http.get_header("X-New"), Some("first"));
}

#[test]
fn test_set_header_overwrites() {
    let mut http = HttpExtension::default();
    http.set_header("X-Val", "old");
    http.set_header("X-Val", "new");
    assert_eq!(http.get_header("X-Val"), Some("new"));
}

#[test]
fn test_remove_header() {
    let mut http = HttpExtension::default();
    http.set_header("X-Remove", "value");
    let removed = http.remove_header("x-remove"); // case-insensitive
    assert_eq!(removed, Some("value".to_string()));
    assert!(!http.has_header("X-Remove"));
}

#[test]
fn test_remove_nonexistent_header() {
    let mut http = HttpExtension::default();
    assert!(http.remove_header("X-Missing").is_none());
}

#[test]
fn names_that_differ_in_case_can_both_be_set() {
    let mut http = HttpExtension::default();
    http.set_header("X-A", "upper");
    http.set_header("x-a", "lower");
    assert_eq!(http.headers.len(), 2);
    let got = http.get_header("X-a").unwrap();
    assert!(got == "upper" || got == "lower");
    assert!(http.remove_header("X-A").is_some());
    assert!(http.has_header("X-A"));
    assert!(http.remove_header("X-A").is_some());
    assert!(!http.has_header("X-A"));
}

#[test]
fn adding_does_not_look_at_case() {
    let mut http = HttpExtension::default();
    assert!(http.add_header("X-Ä", "one"));
    assert!(!http.add_header("x-ä", "two"));
    assert_eq!(http.get_header("x-Ä"), Some("one"));
}

#[test]
fn removing_leaves_other_headers() {
    let mut http = HttpExtension::default();
    http.set_header("A", "1");
    http.set_header("B", "2");
    http.set_header("C", "3");
    assert_eq!(http.remove_header("b"), Some("2".to_string()));
    assert_eq!(http.get_header("A"), Some("1"));
    assert_eq!(http.get_header("C"), Some("3"));
}

#[test]
fn clone_is_independent() {
    let mut http = HttpExtension::default();
    http.set_header("A", "1");
    let copy = http.clone();
    http.set_header("A", "2");
    assert_eq!(copy.get_header("A"), Some("1"));
}
