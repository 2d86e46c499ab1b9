//! The open-file dialog as a state machine: each user action or finished load
//! updates the dialog's state and names the work to do next (load the quick
//! locations, list a folder, open a file). The caller does that work and
//! reports its result back.

use vstd::prelude::*;
use crate::model::{DirListing, FsEntry, QuickLocation};
use crate::paths::{open_path, opt_view, resolve_open_path};
use crate::text::{has_sor_extension, has_sor_extension_spec};
use crate::filter::{filter_by_name, name_matches, Named};

verus! {

/// Work that the dialog asks its caller to do.
pub enum DialogAction {
    /// Nothing to do.
    Nothing,
    /// Fetch the quick locations and report them with `quick_locations_loaded`.
    FetchQuickLocations,
    /// List this folder (the default folder when `None`) and report it with `directory_loaded`.
    LoadDirectory(Option<String>),
    /// Record this file as recently opened and open it; the dialog has closed.
    OpenFile(String),
}

/// The state of the open-file dialog.
pub struct OpenFileDialog {
    pub open: bool,
    pub loaded_once: bool,
    pub quick_locations: Vec<QuickLocation>,
    pub active_location: usize,
    pub current_path: String,
    pub parent_path: Option<String>,
    pub entries: Vec<FsEntry>,
    pub dir_error: Option<String>,
    pub loading: bool,
    pub selected_path: Option<String>,
    pub query: String,
    pub filename: String,
}

/// The selection was cleared: no search text, no selected entry, no file name.
pub open spec fn selection_cleared(s: OpenFileDialog) -> bool {
    s.query@.len() == 0 && s.selected_path is None && s.filename@.len() == 0
}

/// The folder shown and the quick locations are the same in `a` and `b`.
pub open spec fn same_folder(a: OpenFileDialog, b: OpenFileDialog) -> bool {
    &&& a.quick_locations == b.quick_locations
    &&& a.current_path == b.current_path
    &&& a.parent_path == b.parent_path
    &&& a.entries == b.entries
    &&& a.dir_error == b.dir_error
}

/// As `same_folder`, and the same quick location is active.
pub open spec fn same_browsing(a: OpenFileDialog, b: OpenFileDialog) -> bool {
    same_folder(a, b) && a.active_location == b.active_location
}

/// The search text, the selected entry and the typed name are the same in `a` and `b`.
pub open spec fn same_selection(a: OpenFileDialog, b: OpenFileDialog) -> bool {
    &&& a.selected_path == b.selected_path
    &&& a.query == b.query
    &&& a.filename == b.filename
}

/// The dialog's flags are the same in `a` and `b`.
pub open spec fn same_flags(a: OpenFileDialog, b: OpenFileDialog) -> bool {
    a.open == b.open && a.loaded_once == b.loaded_once && a.loading == b.loading
}

/// `s` is `before` with the selection cleared and a folder load started.
pub open spec fn load_started(before: OpenFileDialog, s: OpenFileDialog) -> bool {
    &&& s.loading
    &&& selection_cleared(s)
    &&& s.open == before.open
    &&& s.loaded_once == before.loaded_once
    &&& same_folder(before, s)
}

/// The path of the quick location at `idx`, if there is one.
pub open spec fn location_path(locs: Seq<QuickLocation>, idx: int) -> Option<Seq<char>> {
    if 0 <= idx < locs.len() { Some(locs[idx].path@) } else { None }
}

/// The action is to load `path`.
pub open spec fn loads(a: DialogAction, path: Option<Seq<char>>) -> bool {
    match a {
        DialogAction::LoadDirectory(p) => opt_view(p) == path,
        _ => false,
    }
}

/// The action is to open `path`.
pub open spec fn opens(a: DialogAction, path: Seq<char>) -> bool {
    match a {
        DialogAction::OpenFile(p) => p@ == path,
        _ => false,
    }
}

fn copy_opt(o: &Option<String>) -> (r: Option<String>)
    ensures
        opt_view(r) == opt_view(*o),
{
    match o {
        Some(s) => Some(s.clone()),
        None => None,
    }
}

fn copy_text(o: &Option<String>) -> (r: Option<String>)
    ensures
        r == *o,
{
    match o {
        Some(s) => Some(s.clone()),
        None => None,
    }
}

fn copy_entry(e: &FsEntry) -> (c: FsEntry)
    ensures
        c == *e,
{
    FsEntry {
        name: e.name.clone(),
        path: e.path.clone(),
        is_dir: e.is_dir,
        size_label: copy_text(&e.size_label),
        modified_label: copy_text(&e.modified_label),
    }
}

/// The key that closes a dialog.
pub open spec fn is_close_key(key: Seq<char>) -> bool {
    key == "Escape"@
}

/// Whether pressing `key` closes an open dialog.
pub fn closes_dialog(key: &str) -> (r: bool)
    ensures
        r == is_close_key(key@),
{
    proof {
        reveal_strlit("Escape");
    }
    String::from_str(key) == String::from_str("Escape")
}

impl OpenFileDialog {
    /// The entries shown: those whose name matches the search text, in order.
    pub fn visible_entries(&self) -> (r: Vec<FsEntry>)
        ensures
            r@ == self.entries@.filter(|e: FsEntry| name_matches(e.name@, self.query@)),
    {
        let mut copies: Vec<FsEntry> = Vec::new();
        let n = self.entries.len();
        let mut i: usize = 0;
        while i < n
            invariant
                n == self.entries@.len(),
                i <= n,
                copies@ == self.entries@.take(i as int),
            decreases n - i,
        {
            copies.push(copy_entry(&self.entries[i]));
            assert(copies@ =~= self.entries@.take(i + 1));
            i = i + 1;
        }
        assert(copies@ =~= self.entries@);
        let r = filter_by_name(copies, self.query.as_str());
        assert(r@ == self.entries@.filter(|x: FsEntry| name_matches(x.name_view(), self.query@)));
        assert((|x: FsEntry| name_matches(x.name_view(), self.query@)) =~= (|e: FsEntry| name_matches(e.name@, self.query@)));
        r
    }

    /// A closed dialog that has loaded nothing yet.
    pub fn new() -> (s: OpenFileDialog)
        ensures
            !s.open,
            !s.loaded_once,
            !s.loading,
            s.quick_locations@.len() == 0,
            s.active_location == 0,
            s.current_path@.len() == 0,
            s.parent_path is None,
            s.entries@.len() == 0,
            s.dir_error is None,
            selection_cleared(s),
    {
        OpenFileDialog {
            open: false,
            loaded_once: false,
            quick_locations: Vec::new(),
            active_location: 0,
            current_path: String::new(),
            parent_path: None,
            entries: Vec::new(),
            dir_error: None,
            loading: false,
            selected_path: None,
            query: String::new(),
            filename: String::new(),
        }
    }

    fn clear_selection(&mut self)
        ensures
            selection_cleared(*final(self)),
            same_flags(*old(self), *final(self)),
            same_browsing(*old(self), *final(self)),
    {
        self.query = String::new();
        self.selected_path = None;
        self.filename = String::new();
    }

    /// The dialog is shown. The quick locations are fetched the first time only.
    pub fn show(&mut self) -> (a: DialogAction)
        ensures
            final(self).open,
            final(self).loaded_once,
            old(self).loaded_once ==> a is Nothing,
            !old(self).loaded_once ==> a is FetchQuickLocations,
            final(self).loading == old(self).loading,
            same_browsing(*old(self), *final(self)),
            same_selection(*old(self), *final(self)),
    {
        self.open = true;
        if self.loaded_once {
            DialogAction::Nothing
        } else {
            self.loaded_once = true;
            DialogAction::FetchQuickLocations
        }
    }

    /// The quick locations arrived: they are shown and the first one is listed.
    pub fn quick_locations_loaded(&mut self, locations: Vec<QuickLocation>) -> (a: DialogAction)
        ensures
            final(self).quick_locations == locations,
            final(self).loading,
            loads(a, location_path(locations@, 0)),
            final(self).open == old(self).open,
            final(self).loaded_once == old(self).loaded_once,
            final(self).active_location == old(self).active_location,
            final(self).current_path == old(self).current_path,
            final(self).parent_path == old(self).parent_path,
            final(self).entries == old(self).entries,
            final(self).dir_error == old(self).dir_error,
            same_selection(*old(self), *final(self)),
    {
        let first = if locations.len() > 0 { Some(locations[0].path.clone()) } else { None };
        self.quick_locations = locations;
        self.loading = true;
        DialogAction::LoadDirectory(first)
    }

    /// A folder listing arrived: it replaces the shown folder and loading ends.
    pub fn directory_loaded(&mut self, listing: DirListing)
        ensures
            final(self).current_path == listing.current_path,
            final(self).parent_path == listing.parent_path,
            final(self).entries == listing.entries,
            final(self).dir_error == listing.error,
            !final(self).loading,
            final(self).open == old(self).open,
            final(self).loaded_once == old(self).loaded_once,
            final(self).quick_locations == old(self).quick_locations,
            final(self).active_location == old(self).active_location,
            same_selection(*old(self), *final(self)),
    {
        let DirListing { current_path, parent_path, entries, error } = listing;
        self.current_path = current_path;
        self.parent_path = parent_path;
        self.entries = entries;
        self.dir_error = error;
        self.loading = false;
    }

    /// A quick location is chosen: the selection is cleared and its folder listed.
    pub fn select_location(&mut self, idx: usize) -> (a: DialogAction)
        ensures
            final(self).active_location == idx,
            load_started(*old(self), *final(self)),
            loads(a, location_path(old(self).quick_locations@, idx as int)),
    {
        self.active_location = idx;
        self.clear_selection();
        let path = if idx < self.quick_locations.len() { Some(self.quick_locations[idx].path.clone()) } else { None };
        self.loading = true;
        DialogAction::LoadDirectory(path)
    }

    /// Goes to the parent folder, when there is one; otherwise nothing changes.
    pub fn navigate_up(&mut self) -> (a: DialogAction)
        ensures
            match opt_view(old(self).parent_path) {
                Some(p) => load_started(*old(self), *final(self)) && loads(a, Some(p))
                    && final(self).active_location == old(self).active_location,
                None => a is Nothing && *final(self) == *old(self),
            },
    {
        match copy_opt(&self.parent_path) {
            Some(p) => {
                self.clear_selection();
                self.loading = true;
                DialogAction::LoadDirectory(Some(p))
            },
            None => DialogAction::Nothing,
        }
    }

    /// An entry is clicked: it becomes the selection, and a file's name fills the name field.
    pub fn click_entry(&mut self, entry: &FsEntry)
        ensures
            opt_view(final(self).selected_path) == Some(entry.path@),
            entry.is_dir ==> final(self).filename == old(self).filename,
            !entry.is_dir ==> final(self).filename@ == entry.name@,
            final(self).query == old(self).query,
            same_browsing(*old(self), *final(self)),
            same_flags(*old(self), *final(self)),
    {
        self.selected_path = Some(entry.path.clone());
        if !entry.is_dir {
            self.filename = entry.name.clone();
        }
    }

    /// Whether the typed name can be opened: it ends with ".sor".
    pub fn can_open(&self) -> (r: bool)
        ensures
            r == has_sor_extension_spec(self.filename@),
    {
        has_sor_extension(self.filename.as_str())
    }

    /// "Open" is pressed: with a `.sor` name the file is opened and the dialog
    /// closes; otherwise nothing happens.
    pub fn confirm(&mut self) -> (a: DialogAction)
        ensures
            has_sor_extension_spec(old(self).filename@) ==> {
                &&& !final(self).open
                &&& opens(a, open_path(
                    old(self).current_path@,
                    old(self).filename@,
                    opt_view(old(self).selected_path),
                ))
            },
            !has_sor_extension_spec(old(self).filename@) ==> a is Nothing && final(self).open == old(self).open,
            final(self).loaded_once == old(self).loaded_once,
            final(self).loading == old(self).loading,
            same_browsing(*old(self), *final(self)),
            same_selection(*old(self), *final(self)),
    {
        if !self.can_open() {
            return DialogAction::Nothing;
        }
        let path = resolve_open_path(self.current_path.as_str(), self.filename.as_str(), copy_opt(&self.selected_path));
        self.open = false;
        DialogAction::OpenFile(path)
    }

    /// An entry is double-clicked: a folder is entered; a file is selected and opened.
    pub fn activate_entry(&mut self, entry: &FsEntry) -> (a: DialogAction)
        ensures
            entry.is_dir ==> load_started(*old(self), *final(self)) && loads(a, Some(entry.path@))
                && final(self).active_location == old(self).active_location,
            !entry.is_dir ==> opt_view(final(self).selected_path) == Some(entry.path@)
                && final(self).filename@ == entry.name@
                && final(self).query == old(self).query
                && final(self).loaded_once == old(self).loaded_once
                && final(self).loading == old(self).loading
                && same_browsing(*old(self), *final(self))
                && (has_sor_extension_spec(entry.name@) ==> !final(self).open
                    && opens(a, open_path(old(self).current_path@, entry.name@, Some(entry.path@))))
                && (!has_sor_extension_spec(entry.name@) ==> a is Nothing && final(self).open == old(self).open),
    {
        if entry.is_dir {
            self.clear_selection();
            self.loading = true;
            DialogAction::LoadDirectory(Some(entry.path.clone()))
        } else {
            self.selected_path = Some(entry.path.clone());
            self.filename = entry.name.clone();
            self.confirm()
        }
    }

    /// The search text changes.
    pub fn set_query(&mut self, query: String)
        ensures
            final(self).query == query,
            final(self).selected_path == old(self).selected_path,
            final(self).filename == old(self).filename,
            same_browsing(*old(self), *final(self)),
            same_flags(*old(self), *final(self)),
    {
        self.query = query;
    }

    /// The file-name field changes.
    pub fn set_filename(&mut self, filename: String)
        ensures
            final(self).filename == filename,
            final(self).selected_path == old(self).selected_path,
            final(self).query == old(self).query,
            same_browsing(*old(self), *final(self)),
            same_flags(*old(self), *final(self)),
    {
        self.filename = filename;
    }

    /// A key is pressed: Escape closes the dialog.
    pub fn key_pressed(&mut self, key: &str)
        ensures
            is_close_key(key@) ==> !final(self).open,
            !is_close_key(key@) ==> final(self).open == old(self).open,
            final(self).loaded_once == old(self).loaded_once,
            final(self).loading == old(self).loading,
            same_browsing(*old(self), *final(self)),
            same_selection(*old(self), *final(self)),
    {
        if closes_dialog(key) {
            self.close();
        }
    }

    /// The dialog is closed (Escape, the cross or "Cancel").
    pub fn close(&mut self)
        ensures
            !final(self).open,
            final(self).loaded_once == old(self).loaded_once,
            final(self).loading == old(self).loading,
            same_browsing(*old(self), *final(self)),
            same_selection(*old(self), *final(self)),
    {
        self.open = false;
    }
}

} // verus!
