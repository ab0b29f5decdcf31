use browsers_macos::dirs::{
    browser_icons_dir, get_this_app_cache_root_dir, get_this_app_config_root_dir,
    get_this_app_logs_root_dir, get_this_app_support_dir, macos_get_application_support_dir_path,
    macos_get_caches_dir, macos_get_directory, macos_get_library_dir, macos_get_logs_dir,
    macos_get_unsandboxed_application_support_dir, passwd_buffer_size, unsandboxed_home_dir,
    SearchPathResult, APP_DIR_NAME, NS_APPLICATION_SUPPORT_DIRECTORY, NS_CACHES_DIRECTORY,
    NS_LIBRARY_DIRECTORY,
};

fn search(directory: u64, paths: &[&str]) -> SearchPathResult {
    SearchPathResult { directory, paths: paths.iter().map(|p| p.to_string()).collect() }
}

#[test]
fn directory_codes() {
    assert_eq!(NS_CACHES_DIRECTORY, 13);
    assert_eq!(NS_APPLICATION_SUPPORT_DIRECTORY, 14);
    assert_eq!(NS_LIBRARY_DIRECTORY, 5);
    assert_eq!(APP_DIR_NAME, "software.Browsers");
}

#[test]
fn first_search_path_is_used() {
    let s = search(NS_CACHES_DIRECTORY, &["/Users/me/Library/Caches", "/Library/Caches"]);
    assert_eq!(macos_get_directory(&s).as_str(), "/Users/me/Library/Caches");
    assert_eq!(macos_get_caches_dir(&s).as_str(), "/Users/me/Library/Caches");
}

#[test]
fn support_and_config_dirs_coincide() {
    let s = search(NS_APPLICATION_SUPPORT_DIRECTORY, &["/Users/me/Library/Application Support"]);
    assert_eq!(
        macos_get_application_support_dir_path(&s).as_str(),
        "/Users/me/Library/Application Support"
    );
    assert_eq!(
        get_this_app_support_dir(&s).as_str(),
        "/Users/me/Library/Application Support/software.Browsers"
    );
    assert_eq!(get_this_app_config_root_dir(&s).as_str(), get_this_app_support_dir(&s).as_str());
}

#[test]
fn sandboxed_support_dir() {
    let base = "/Users/me/Library/Containers/software.Browsers/Data/Library/Application Support";
    let s = search(NS_APPLICATION_SUPPORT_DIRECTORY, &[base]);
    assert_eq!(get_this_app_support_dir(&s).as_str(), format!("{}/software.Browsers", base));
}

#[test]
fn cache_root_and_icons_dir() {
    let s = search(NS_CACHES_DIRECTORY, &["/Users/me/Library/Caches"]);
    assert_eq!(
        get_this_app_cache_root_dir(&s).as_str(),
        "/Users/me/Library/Caches/software.Browsers"
    );
    assert_eq!(
        browser_icons_dir(&s).as_str(),
        "/Users/me/Library/Caches/software.Browsers/icons"
    );
}

#[test]
fn logs_dirs() {
    let s = search(NS_LIBRARY_DIRECTORY, &["/Users/me/Library"]);
    assert_eq!(macos_get_library_dir(&s).as_str(), "/Users/me/Library");
    assert_eq!(macos_get_logs_dir(&s).as_str(), "/Users/me/Library/Logs");
    assert_eq!(
        get_this_app_logs_root_dir(&s).as_str(),
        "/Users/me/Library/Logs/software.Browsers"
    );
}

#[test]
fn app_dir_under_trailing_separator() {
    let s = search(NS_CACHES_DIRECTORY, &["/Users/me/Library/Caches/"]);
    assert_eq!(
        get_this_app_cache_root_dir(&s).as_str(),
        "/Users/me/Library/Caches/software.Browsers"
    );
}

#[test]
fn passwd_buffer_size_defaults_to_512() {
    assert_eq!(passwd_buffer_size(-1), 512);
    assert_eq!(passwd_buffer_size(i64::MIN), 512);
    assert_eq!(passwd_buffer_size(0), 0);
    assert_eq!(passwd_buffer_size(4096), 4096);
}

#[test]
fn home_dir_from_password_entry() {
    assert_eq!(unsandboxed_home_dir(None), None);
    assert_eq!(unsandboxed_home_dir(Some(Vec::new())), None);
    assert_eq!(unsandboxed_home_dir(Some(b"/Users/me".to_vec())), Some(b"/Users/me".to_vec()));
}

#[test]
fn unsandboxed_application_support_dir() {
    assert_eq!(
        macos_get_unsandboxed_application_support_dir(b"/Users/me"),
        b"/Users/me/Library/Application Support".to_vec()
    );
    assert_eq!(
        macos_get_unsandboxed_application_support_dir(b"/"),
        b"/Library/Application Support".to_vec()
    );
}
