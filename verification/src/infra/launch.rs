//! Launch rules: which entries are launchers or executables.
use vstd::prelude::*;
use crate::text::{ends_with, lowercase_of, seq_ends_with, to_lowercase};

verus! {

/// The opener of files, folders and applications.
pub const XDG_OPEN: &'static str = "xdg-open";

/// Extensions of executable entries, lower-cased.
pub open spec fn exe_extensions_of() -> Seq<Seq<char>> {
    seq!["sh"@, "run"@, "appimage"@, "desktop"@]
}

/// Extensions of executable entries (`AppImage` compared without case).
pub fn exe_extensions() -> (v: Vec<&'static str>)
    ensures
        v@.len() == exe_extensions_of().len(),
        forall|i: int| 0 <= i < v@.len() ==> (#[trigger] v@[i])@ == exe_extensions_of()[i],
{
    vec!["sh", "run", "appimage", "desktop"]
}

/// Whether the path names a launcher (`.desktop` file).
pub fn is_desktop_file(path: &str) -> (r: bool)
    ensures
        r == seq_ends_with(path@, ".desktop"@),
{
    ends_with(path, ".desktop")
}

/// Whether the lower-cased path ends with an executable extension.
pub open spec fn is_executable_lower(lower: Seq<char>) -> bool {
    exists|i: int| 0 <= i < exe_extensions_of().len() && seq_ends_with(lower, #[trigger] exe_extensions_of()[i])
}

/// Whether an already lower-cased path ends with an executable extension.
pub fn is_executable_lower_path(lower: &str) -> (r: bool)
    ensures
        r == is_executable_lower(lower@),
{
    let exts = exe_extensions();
    let mut i: usize = 0;
    while i < exts.len()
        invariant
            i <= exts@.len(),
            exts@.len() == exe_extensions_of().len(),
            forall|k: int| 0 <= k < exts@.len() ==> (#[trigger] exts@[k])@ == exe_extensions_of()[k],
            forall|k: int| 0 <= k < i ==> !seq_ends_with(lower@, #[trigger] exe_extensions_of()[k]),
        decreases exts.len() - i,
    {
        if ends_with(lower, exts[i]) {
            assert(seq_ends_with(lower@, exe_extensions_of()[i as int]));
            return true;
        }
        i += 1;
    }
    false
}

/// Whether the path names an executable entry (`.sh`, `.run`, `.AppImage`,
/// `.desktop`), ignoring case.
pub fn is_executable(path: &str) -> (r: bool)
    ensures
        r == is_executable_lower(lowercase_of(path@)),
{
    let lower = to_lowercase(path);
    is_executable_lower_path(lower.as_str())
}

} // verus!
