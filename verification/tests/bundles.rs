use browsers_macos::bundle_ids::{
    bundle_ids_for_content_type, find_bundle_ids_for_browsers, get_bundle_ids_for_url_scheme,
    BundleIdSet,
};

fn strings(xs: &[&str]) -> Vec<String> {
    xs.iter().map(|x| x.to_string()).collect()
}

#[test]
fn no_handler_list_gives_empty_set() {
    let set = get_bundle_ids_for_url_scheme(None);
    assert_eq!(set.len(), 0);
    assert!(!set.contains("com.apple.Safari"));
}

#[test]
fn handler_set_drops_repeats() {
    let set = get_bundle_ids_for_url_scheme(Some(strings(&[
        "com.apple.Safari",
        "org.mozilla.firefox",
        "com.apple.Safari",
    ])));
    assert_eq!(set.len(), 2);
    assert!(set.contains("com.apple.Safari"));
    assert!(set.contains("org.mozilla.firefox"));
    assert!(!set.contains("com.google.Chrome"));
}

#[test]
fn content_type_handlers_form_a_set() {
    let set = bundle_ids_for_content_type(Some(strings(&["a", "b", "a", "c", "b"])));
    assert_eq!(set.len(), 3);
    assert!(bundle_ids_for_content_type(None).len() == 0);
}

#[test]
fn insert_is_idempotent() {
    let mut set = BundleIdSet::new();
    set.insert("com.apple.Safari".to_string());
    set.insert("com.apple.Safari".to_string());
    assert_eq!(set.len(), 1);
    assert!(set.contains("com.apple.Safari"));
}

#[test]
fn browsers_are_listed_sorted_and_once() {
    let set = get_bundle_ids_for_url_scheme(Some(strings(&[
        "org.mozilla.firefox",
        "com.google.Chrome",
        "software.Browsers",
        "com.apple.Safari",
        "com.google.Chrome",
        "com.googlecode.iterm2",
    ])));
    assert_eq!(
        find_bundle_ids_for_browsers(&set),
        strings(&[
            "com.apple.Safari",
            "com.google.Chrome",
            "com.googlecode.iterm2",
            "org.mozilla.firefox",
            "software.Browsers",
        ])
    );
}

#[test]
fn listing_does_not_depend_on_handler_order() {
    let a = get_bundle_ids_for_url_scheme(Some(strings(&["c", "a", "b"])));
    let b = get_bundle_ids_for_url_scheme(Some(strings(&["b", "c", "a", "c"])));
    assert_eq!(find_bundle_ids_for_browsers(&a), find_bundle_ids_for_browsers(&b));
    assert_eq!(find_bundle_ids_for_browsers(&a), strings(&["a", "b", "c"]));
}

#[test]
fn empty_set_lists_nothing() {
    assert!(find_bundle_ids_for_browsers(&BundleIdSet::new()).is_empty());
}

#[test]
fn listing_sorts_by_utf8_bytes() {
    let set = get_bundle_ids_for_url_scheme(Some(strings(&["é", "z", "Z", "a"])));
    assert_eq!(find_bundle_ids_for_browsers(&set), strings(&["Z", "a", "z", "é"]));
}
