//! App launcher name resolution: short app names map to the 8.3 ELF files on
//! `/disk`. Loading and running the ELF in ring 3 happens at the paging and
//! privilege edge.

use vstd::prelude::*;

verus! {

/// Launchable app names and aliases.
pub const APP_NAMES: [&'static str; 11] = [
    "xox", "tictactoe", "hello", "svc", "taskmgr", "monitor", "paint", "draw", "widget", "web", "webview",
];

/// The 8.3 ELF file of each entry of [`APP_NAMES`].
pub const APP_FILES: [&'static str; 11] = [
    "XOX.ELF", "XOX.ELF", "HELLO.ELF", "SVC.ELF", "TASKMGR.ELF", "TASKMGR.ELF", "PAINT.ELF", "PAINT.ELF",
    "WIDGET.ELF", "WEBVIEW.ELF", "WEBVIEW.ELF",
];

/// Map a short app name to its 8.3 ELF filename.
pub fn app_file(name: &str) -> (f: Option<&'static str>)
    ensures
        f is None <==> forall|i: int| 0 <= i < 11 ==> APP_NAMES[i]@ != name@,
        f is Some ==> exists|i: int| 0 <= i < 11 && APP_NAMES[i]@ == name@ && f->0 == APP_FILES[i],
{
    match crate::text::find_str(&APP_NAMES, name) {
        Some(i) => Some(APP_FILES[i]),
        None => None,
    }
}

/// True if `name` is a launchable app.
pub fn is_app(name: &str) -> (b: bool)
    ensures
        b == exists|i: int| 0 <= i < 11 && APP_NAMES[i]@ == name@,
{
    app_file(name).is_some()
}

} // verus!
