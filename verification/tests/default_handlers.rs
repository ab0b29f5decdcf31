use browsers_macos::default_browser::{
    is_default_web_browser, set_default_web_browser, DefaultHandlers, HTTPS_SCHEME, HTTP_SCHEME,
};

fn handlers(https: &str, http: &str) -> DefaultHandlers {
    DefaultHandlers { https: https.to_string(), http: http.to_string() }
}

#[test]
fn default_needs_both_schemes() {
    assert!(is_default_web_browser(&handlers("software.Browsers", "software.Browsers")));
    assert!(!is_default_web_browser(&handlers("software.Browsers", "com.apple.Safari")));
    assert!(!is_default_web_browser(&handlers("com.apple.Safari", "software.Browsers")));
    assert!(!is_default_web_browser(&handlers("com.apple.Safari", "com.apple.Safari")));
}

#[test]
fn already_default_changes_nothing() {
    let change = set_default_web_browser(&handlers("software.Browsers", "software.Browsers"));
    assert!(change.was_default);
    assert!(change.assignments.is_empty());
}

#[test]
fn becoming_default_registers_both_schemes() {
    let change = set_default_web_browser(&handlers("com.apple.Safari", "software.Browsers"));
    assert!(!change.was_default);
    assert_eq!(change.assignments.len(), 2);
    assert_eq!(change.assignments[0].scheme, HTTPS_SCHEME);
    assert_eq!(change.assignments[0].bundle_id, "software.Browsers");
    assert_eq!(change.assignments[1].scheme, HTTP_SCHEME);
    assert_eq!(change.assignments[1].bundle_id, "software.Browsers");
}

#[test]
fn after_registering_the_app_is_default() {
    let mut current = handlers("org.mozilla.firefox", "com.apple.Safari");
    let change = set_default_web_browser(&current);
    for a in change.assignments.iter() {
        if a.scheme == "https" {
            current.https = a.bundle_id.clone();
        } else if a.scheme == "http" {
            current.http = a.bundle_id.clone();
        }
    }
    assert!(is_default_web_browser(&current));
    let again = set_default_web_browser(&current);
    assert!(again.was_default);
    assert!(again.assignments.is_empty());
}
