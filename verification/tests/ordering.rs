use browsers_macos::order::{bytes_less, string_less};

fn s(x: &str) -> String {
    x.to_string()
}

#[test]
fn prefix_sorts_first() {
    assert!(string_less(&s("com.apple"), &s("com.apple.Safari")));
    assert!(!string_less(&s("com.apple.Safari"), &s("com.apple")));
}

#[test]
fn first_difference_decides() {
    assert!(string_less(&s("com.google.Chrome"), &s("org.mozilla.firefox")));
    assert!(!string_less(&s("org.mozilla.firefox"), &s("com.google.Chrome")));
}

#[test]
fn nothing_is_below_itself() {
    assert!(!string_less(&s("com.brave.Browser"), &s("com.brave.Browser")));
    assert!(!string_less(&s(""), &s("")));
}

#[test]
fn uppercase_sorts_before_lowercase() {
    assert!(string_less(&s("Zed"), &s("alpha")));
}

#[test]
fn order_agrees_with_std() {
    let words = ["", "a", "ab", "b", "é", "z", "Z", "ü", "日本"];
    for x in words.iter() {
        for y in words.iter() {
            assert_eq!(string_less(&s(x), &s(y)), s(x) < s(y));
            assert_eq!(bytes_less(x.as_bytes(), y.as_bytes()), x.as_bytes() < y.as_bytes());
        }
    }
}
