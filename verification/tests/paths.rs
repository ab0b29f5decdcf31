use browsers_macos::path::{join_byte_paths, join_str, AppPath};

#[test]
fn join_inserts_one_separator() {
    assert_eq!(join_str("/Users/me", "Library"), "/Users/me/Library");
}

#[test]
fn join_keeps_existing_trailing_separator() {
    assert_eq!(join_str("/Users/me/", "Library"), "/Users/me/Library");
}

#[test]
fn join_onto_empty_base_adds_no_separator() {
    assert_eq!(join_str("", "Library"), "Library");
}

#[test]
fn join_absolute_component_replaces_base() {
    assert_eq!(join_str("/Users/me", "/etc"), "/etc");
}

#[test]
fn join_empty_component_leaves_trailing_separator() {
    assert_eq!(join_str("/Users/me", ""), "/Users/me/");
}

#[test]
fn join_non_ascii_components() {
    assert_eq!(join_str("/Users/zoë", "Bibliothèque"), "/Users/zoë/Bibliothèque");
}

#[test]
fn join_bytes_matches_join_of_text() {
    assert_eq!(join_byte_paths(b"/Users/me", b"Library"), b"/Users/me/Library".to_vec());
    assert_eq!(join_byte_paths(b"/Users/me/", b"Library"), b"/Users/me/Library".to_vec());
    assert_eq!(join_byte_paths(b"", b"Library"), b"Library".to_vec());
    assert_eq!(join_byte_paths(b"/Users/me", b"/tmp"), b"/tmp".to_vec());
}

#[test]
fn join_bytes_keeps_invalid_utf8() {
    assert_eq!(
        join_byte_paths(&[0x2f, 0xff, 0xfe], b"x"),
        vec![0x2f, 0xff, 0xfe, 0x2f, b'x']
    );
}

#[test]
fn app_path_join_chains() {
    let p = AppPath::new("/Applications/Safari.app").join("Contents").join("MacOS");
    assert_eq!(p.as_str(), "/Applications/Safari.app/Contents/MacOS");
    assert_eq!(p.to_path_string(), "/Applications/Safari.app/Contents/MacOS".to_string());
}
