//! Path layout, bundle-id bookkeeping and default-browser decisions for the
//! macOS side of the Browsers app.
//!
//! Everything that talks to Foundation, LaunchServices or libc lives outside
//! this crate; the functions here take what those calls returned and compute
//! the rest.

pub mod browsers;
pub mod bundle_ids;
pub mod default_browser;
pub mod dirs;
pub mod order;
pub mod path;
