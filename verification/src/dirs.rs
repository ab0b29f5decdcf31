//! Where the app keeps its files: the standard macOS directories that
//! Foundation reports, and the app's own directories under them.

use vstd::prelude::*;
use vstd::string::*;
use vstd::utf8::*;
use crate::path::{AppPath, join_chars, join_bytes, join_byte_paths, lemma_join_relative};

verus! {

/// Name of the app's own directory under each standard directory.
pub const APP_DIR_NAME: &'static str = "software.Browsers";

/// `NSCachesDirectory`.
pub const NS_CACHES_DIRECTORY: u64 = 13;

/// `NSApplicationSupportDirectory`.
pub const NS_APPLICATION_SUPPORT_DIRECTORY: u64 = 14;

/// `NSLibraryDirectory` (inside the sandbox container when sandboxed).
pub const NS_LIBRARY_DIRECTORY: u64 = 5;

/// What `NSSearchPathForDirectoriesInDomains` returned for `directory` in the
/// user domain, with tildes expanded.
pub struct SearchPathResult {
    pub directory: u64,
    pub paths: Vec<String>,
}

/// The app's own directory under `base`.
pub open spec fn app_dir_under(base: Seq<char>) -> Seq<char> {
    join_chars(base, APP_DIR_NAME@)
}

/// The first path of a search, the one that the app uses.
pub open spec fn first_path(search: SearchPathResult) -> Seq<char> {
    search.paths@[0]@
}

/// A standard directory: the first path of the search made for it.
pub fn macos_get_directory(search: &SearchPathResult) -> (r: AppPath)
    requires
        search.paths@.len() > 0,
    ensures
        r@ == first_path(*search),
{
    AppPath::new(search.paths[0].as_str())
}

/// The application support directory (inside the sandbox container when
/// sandboxed).
pub fn macos_get_application_support_dir_path(search: &SearchPathResult) -> (r: AppPath)
    requires
        search.directory == NS_APPLICATION_SUPPORT_DIRECTORY,
        search.paths@.len() > 0,
    ensures
        r@ == first_path(*search),
{
    macos_get_directory(search)
}

/// The caches directory (inside the sandbox container when sandboxed).
pub fn macos_get_caches_dir(search: &SearchPathResult) -> (r: AppPath)
    requires
        search.directory == NS_CACHES_DIRECTORY,
        search.paths@.len() > 0,
    ensures
        r@ == first_path(*search),
{
    macos_get_directory(search)
}

/// The library directory (inside the sandbox container when sandboxed).
pub fn macos_get_library_dir(search: &SearchPathResult) -> (r: AppPath)
    requires
        search.directory == NS_LIBRARY_DIRECTORY,
        search.paths@.len() > 0,
    ensures
        r@ == first_path(*search),
{
    macos_get_directory(search)
}

/// The logs directory: `Logs` under the library directory.
pub fn macos_get_logs_dir(library: &SearchPathResult) -> (r: AppPath)
    requires
        library.directory == NS_LIBRARY_DIRECTORY,
        library.paths@.len() > 0,
    ensures
        r@ == join_chars(first_path(*library), "Logs"@),
{
    macos_get_library_dir(library).join("Logs")
}

/// The app's directory under the application support directory.
pub fn get_this_app_support_dir(application_support: &SearchPathResult) -> (r: AppPath)
    requires
        application_support.directory == NS_APPLICATION_SUPPORT_DIRECTORY,
        application_support.paths@.len() > 0,
    ensures
        r@ == app_dir_under(first_path(*application_support)),
{
    macos_get_application_support_dir_path(application_support).join(APP_DIR_NAME)
}

/// The app's configuration root: the same directory as its support
/// directory.
pub fn get_this_app_config_root_dir(application_support: &SearchPathResult) -> (r: AppPath)
    requires
        application_support.directory == NS_APPLICATION_SUPPORT_DIRECTORY,
        application_support.paths@.len() > 0,
    ensures
        r@ == app_dir_under(first_path(*application_support)),
{
    get_this_app_support_dir(application_support)
}

/// The app's directory under the caches directory.
pub fn get_this_app_cache_root_dir(caches: &SearchPathResult) -> (r: AppPath)
    requires
        caches.directory == NS_CACHES_DIRECTORY,
        caches.paths@.len() > 0,
    ensures
        r@ == app_dir_under(first_path(*caches)),
{
    macos_get_caches_dir(caches).join(APP_DIR_NAME)
}

/// The app's directory under the logs directory.
pub fn get_this_app_logs_root_dir(library: &SearchPathResult) -> (r: AppPath)
    requires
        library.directory == NS_LIBRARY_DIRECTORY,
        library.paths@.len() > 0,
    ensures
        r@ == app_dir_under(join_chars(first_path(*library), "Logs"@)),
{
    macos_get_logs_dir(library).join(APP_DIR_NAME)
}

/// Where the app stores the icons of the installed browsers: `icons` under its
/// cache root.
pub fn browser_icons_dir(caches: &SearchPathResult) -> (r: AppPath)
    requires
        caches.directory == NS_CACHES_DIRECTORY,
        caches.paths@.len() > 0,
    ensures
        r@ == join_chars(app_dir_under(first_path(*caches)), "icons"@),
{
    get_this_app_cache_root_dir(caches).join("icons")
}

/// Size of the buffer handed to `getpwuid_r`: what
/// `sysconf(_SC_GETPW_R_SIZE_MAX)` reported, or 512 when it reported no
/// limit (a negative value).
pub fn passwd_buffer_size(sysconf_result: i64) -> (r: usize)
    ensures
        sysconf_result < 0 ==> r == 512,
        sysconf_result >= 0 ==> r == sysconf_result as usize,
{
    if sysconf_result < 0 {
        512
    } else {
        sysconf_result as usize
    }
}

/// The user's real home directory (outside any sandbox), given the home
/// directory bytes of the user's password entry when the lookup found one:
/// an empty entry counts as none.
pub fn unsandboxed_home_dir(pw_dir: Option<Vec<u8>>) -> (r: Option<Vec<u8>>)
    ensures
        r == match pw_dir {
            Some(bytes) => if bytes@.len() == 0 { None } else { Some(bytes) },
            None => None,
        },
{
    match pw_dir {
        Some(bytes) => if bytes.len() == 0 { None } else { Some(bytes) },
        None => None,
    }
}

/// The real `Library/Application Support` directory under the user's home
/// directory, whether or not the app is sandboxed.
pub fn macos_get_unsandboxed_application_support_dir(home_dir: &[u8]) -> (r: Vec<u8>)
    ensures
        r@ == join_bytes(
            join_bytes(home_dir@, encode_utf8("Library"@)),
            encode_utf8("Application Support"@),
        ),
{
    let library = join_byte_paths(home_dir, "Library".as_bytes());
    join_byte_paths(library.as_slice(), "Application Support".as_bytes())
}

/// Each of the app's directories lies directly under the standard directory
/// it belongs to: the standard directory, one separator unless it already
/// ends in one, then the app's directory name.
pub proof fn lemma_app_dir_is_child(base: Seq<char>)
    ensures
        app_dir_under(base).subrange(0, base.len() as int) == base,
        app_dir_under(base).subrange(
            app_dir_under(base).len() - APP_DIR_NAME@.len(),
            app_dir_under(base).len() as int,
        ) == APP_DIR_NAME@,
        app_dir_under(base).len() == base.len() + APP_DIR_NAME@.len() + (if base.len() == 0
            || base.last() == '/' {
            0int
        } else {
            1int
        }),
{
    reveal_strlit("software.Browsers");
    lemma_join_relative(base, APP_DIR_NAME@, '/');
}


/// The app's directory under a standard directory is
/// `<directory>/software.Browsers`, with no second `/` when the directory
/// already ends in one.
pub proof fn lemma_app_dir_layout(base: Seq<char>)
    ensures
        base.len() > 0 && base.last() != '/' ==> app_dir_under(base) == base + "/software.Browsers"@,
        (base.len() == 0 || base.last() == '/') ==> app_dir_under(base) == base + "software.Browsers"@,
{
    reveal_strlit("software.Browsers");
    reveal_strlit("/software.Browsers");
    assert(APP_DIR_NAME@[0] == 's');
    if base.len() > 0 && base.last() != '/' {
        assert(app_dir_under(base) =~= base + "/software.Browsers"@);
    } else {
        assert(app_dir_under(base) =~= base + "software.Browsers"@);
    }
}

} // verus!
