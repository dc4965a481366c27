//! Choices the user makes in the launcher window: the panel shown and the
//! secondary actions on a file result.
use vstd::prelude::*;

verus! {

/// Secondary actions on a file result (besides opening it).
#[derive(Debug, Clone, Copy, PartialEq, Eq, Structural)]
pub enum FileAction {
    /// Copy the path as plain text.
    CopyPath,
    /// Copy the file itself (paste into Explorer).
    CopyFile,
    /// Open the file's folder with the file selected.
    Reveal,
}

/// Which panel the launcher shows.
#[derive(Debug, Clone, Copy, PartialEq, Eq, Structural)]
pub enum Mode {
    Search,
    Settings,
}

} // verus!
