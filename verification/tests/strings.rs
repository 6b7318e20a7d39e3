use css_cascade::strings::{from_chars, str_eq, to_chars};

#[test]
fn str_eq_tells_equal_from_different() {
    assert!(str_eq("color", "color"));
    assert!(!str_eq("color", "colour"));
    assert!(!str_eq("a", "b"));
    assert!(str_eq("", ""));
}

#[test]
fn chars_round_trip() {
    let chars = to_chars("héllo");
    assert_eq!(chars, vec!['h', 'é', 'l', 'l', 'o']);
    assert_eq!(from_chars(&chars, 1, 4), "éll".to_string());
    assert_eq!(from_chars(&chars, 2, 2), String::new());
}
