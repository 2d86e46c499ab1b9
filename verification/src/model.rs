//! The plain records that the library hands to its callers.

use vstd::prelude::*;

verus! {

/// One row of a directory listing: a sub-folder or a `.sor` file.
#[derive(Debug, Clone, PartialEq)]
pub struct FsEntry {
    pub name: String,
    pub path: String,
    pub is_dir: bool,
    pub size_label: Option<String>,
    pub modified_label: Option<String>,
}

/// The contents of one folder as shown by the open dialog.
#[derive(Debug, Clone, PartialEq)]
pub struct DirListing {
    pub current_path: String,
    pub parent_path: Option<String>,
    pub entries: Vec<FsEntry>,
    pub error: Option<String>,
}

impl Default for DirListing {
    /// An empty listing: no path, no parent, no entries, no error.
    fn default() -> (r: DirListing)
        ensures
            r.current_path@.len() == 0,
            r.parent_path is None,
            r.entries@.len() == 0,
            r.error is None,
    {
        DirListing { current_path: String::new(), parent_path: None, entries: Vec::new(), error: None }
    }
}

/// A well-known folder offered as a shortcut.
#[derive(Debug, Clone, PartialEq)]
pub struct QuickLocation {
    pub name: String,
    pub path: String,
}

/// One line of the recent-files panel.
#[derive(Debug, Clone, PartialEq)]
pub struct RecentFileEntry {
    pub path: String,
    pub name: String,
    pub location: String,
    pub opened_at_label: String,
    pub length_label: Option<String>,
}

} // verus!
