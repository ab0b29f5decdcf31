# browsers_macos

The macOS helpers of the Browsers app, split in two:

- `src/` (verified with Verus): path joining with Unix `PathBuf` semantics
  (`path`), the order in which strings sort (`order`), the app's directory
  layout under the standard macOS directories (`dirs`), the sets of bundle
  identifiers that LaunchServices reports and the sorted list of browser
  candidates (`bundle_ids`), the browser records (`browsers`) and the
  default-browser decision (`default_browser`).
- `app/`: the Foundation, AppKit, LaunchServices and libc calls, which hand
  their results to the library.
