use browsers_macos::bundle_ids::{find_bundle_ids_for_browsers, get_bundle_ids_for_url_scheme};
use browsers_macos::browsers::{
    bundle_executable_path, bundle_icon_path, is_own_bundle, BundleDetails, InstalledBrowser,
    OsHelper, SupportedAppDetails, APP_BUNDLE_ID,
};
use browsers_macos::path::AppPath;

fn chrome_bundle() -> BundleDetails {
    BundleDetails {
        bundle_path: "/Applications/Google Chrome.app".to_string(),
        display_name: "Google Chrome".to_string(),
        executable_name: "Google Chrome".to_string(),
    }
}

fn chrome_app() -> SupportedAppDetails<u32> {
    SupportedAppDetails {
        app_id: "com.google.Chrome".to_string(),
        app_config_dir_absolute: "/Users/me/Library/Application Support/Google/Chrome".to_string(),
        profiles: vec![1, 2],
    }
}

fn record(name: &str) -> InstalledBrowser<u32> {
    InstalledBrowser {
        executable_path: String::new(),
        display_name: name.to_string(),
        bundle: String::new(),
        user_dir: String::new(),
        icon_path: String::new(),
        profiles: Vec::new(),
    }
}

#[test]
fn own_bundle_is_recognised() {
    assert!(is_own_bundle("software.Browsers"));
    assert!(is_own_bundle(APP_BUNDLE_ID));
    assert!(!is_own_bundle("software.browsers"));
    assert!(!is_own_bundle("com.apple.Safari"));
}

#[test]
fn icon_and_executable_paths() {
    let icons = AppPath::new("/Users/me/Library/Caches/software.Browsers/icons");
    assert_eq!(
        bundle_icon_path(&icons, "com.google.Chrome").as_str(),
        "/Users/me/Library/Caches/software.Browsers/icons/com.google.Chrome.png"
    );
    assert_eq!(
        bundle_executable_path("/Applications/Firefox.app", "firefox").as_str(),
        "/Applications/Firefox.app/Contents/MacOS/firefox"
    );
}

#[test]
fn helper_keeps_its_repository() {
    let helper = OsHelper::new(vec![7u8, 8]);
    assert_eq!(helper.get_app_repository(), &vec![7u8, 8]);
}

#[test]
fn own_bundle_gives_no_record() {
    let helper = OsHelper::new(());
    let icons = AppPath::new("/tmp/icons");
    assert!(helper
        .to_installed_browser("software.Browsers", &icons, chrome_bundle(), chrome_app())
        .is_none());
}

#[test]
fn record_of_another_browser() {
    let helper = OsHelper::new(());
    let icons = AppPath::new("/Users/me/Library/Caches/software.Browsers/icons");
    let b = helper
        .to_installed_browser("com.google.Chrome", &icons, chrome_bundle(), chrome_app())
        .unwrap();
    assert_eq!(b.executable_path, "/Applications/Google Chrome.app/Contents/MacOS/Google Chrome");
    assert_eq!(b.display_name, "Google Chrome");
    assert_eq!(b.bundle, "com.google.Chrome");
    assert_eq!(b.user_dir, "/Users/me/Library/Application Support/Google/Chrome");
    assert_eq!(
        b.icon_path,
        "/Users/me/Library/Caches/software.Browsers/icons/com.google.Chrome.png"
    );
    assert_eq!(b.profiles, vec![1, 2]);
}

#[test]
fn installed_browsers_keep_order_and_skip_gaps() {
    let helper = OsHelper::new(());
    let out = helper.get_installed_browsers(vec![
        Some(record("A")),
        None,
        Some(record("B")),
        None,
        Some(record("C")),
    ]);
    let names: Vec<String> = out.into_iter().map(|b| b.display_name).collect();
    assert_eq!(names, vec!["A".to_string(), "B".to_string(), "C".to_string()]);
    assert!(helper.get_installed_browsers::<u32>(vec![None, None]).is_empty());
}

#[test]
fn listing_skips_own_bundle_and_keeps_sorted_icons() {
    let handlers: Vec<String> = ["org.mozilla.firefox", "software.Browsers", "com.apple.Safari"]
        .iter()
        .map(|s| s.to_string())
        .collect();
    let ids = find_bundle_ids_for_browsers(&get_bundle_ids_for_url_scheme(Some(handlers)));
    let helper = OsHelper::new(());
    let icons = AppPath::new("/c/icons");
    let candidates = ids
        .iter()
        .map(|id| helper.to_installed_browser(id, &icons, chrome_bundle(), chrome_app()))
        .collect();
    let out = helper.get_installed_browsers(candidates);
    assert_eq!(out.len(), ids.len() - 1);
    let icon_paths: Vec<String> = out.iter().map(|b| b.icon_path.clone()).collect();
    assert_eq!(
        icon_paths,
        vec![
            "/c/icons/com.apple.Safari.png".to_string(),
            "/c/icons/org.mozilla.firefox.png".to_string()
        ]
    );
}
