//! The recent-files side panel as a state machine: it shows the last listing
//! (or why it failed), filters it by the search text, and asks its caller to
//! list or clear the table. A counter of table changes tells the caller when
//! the listing is stale.

use vstd::prelude::*;
use crate::model::RecentFileEntry;
use crate::paths::opt_view;
use crate::filter::{filter_by_name, name_matches, Named};

verus! {

/// Work that the panel asks its caller to do.
pub enum PanelAction {
    /// Nothing to do.
    Nothing,
    /// List the recent files and report them with `files_loaded`.
    ListRecent,
    /// Clear the table and report the outcome with `clear_finished`.
    ClearRecent,
}

/// The state of the recent-files panel.
pub struct RecentPanel {
    /// Bumped (wrapping) whenever the table changed; a new value means the
    /// listing must be fetched again.
    pub version: u32,
    /// The last listing: `None` until one arrived, else the rows or the error.
    pub files: Option<Result<Vec<RecentFileEntry>, String>>,
    /// Why the last "clear" failed, until a later one succeeds.
    pub clear_error: Option<String>,
    pub selected_path: Option<String>,
    pub query: String,
}

/// The error of the last listing, if it failed.
pub open spec fn listing_error(files: Option<Result<Vec<RecentFileEntry>, String>>) -> Option<Seq<char>> {
    match files {
        Some(Err(e)) => Some(e@),
        _ => None,
    }
}

/// The rows of the last listing; none while loading or after an error.
pub open spec fn listed_rows(files: Option<Result<Vec<RecentFileEntry>, String>>) -> Seq<RecentFileEntry> {
    match files {
        Some(Ok(v)) => v@,
        _ => Seq::empty(),
    }
}

fn copy_text(o: &Option<String>) -> (r: Option<String>)
    ensures
        r == *o,
{
    match o {
        Some(s) => Some(s.clone()),
        None => None,
    }
}

fn copy_recent_entry(e: &RecentFileEntry) -> (c: RecentFileEntry)
    ensures
        c == *e,
{
    RecentFileEntry {
        path: e.path.clone(),
        name: e.name.clone(),
        location: e.location.clone(),
        opened_at_label: e.opened_at_label.clone(),
        length_label: copy_text(&e.length_label),
    }
}

impl RecentPanel {
    /// A panel with nothing listed yet; the caller lists the table first.
    pub fn new() -> (p: RecentPanel)
        ensures
            p.version == 0,
            p.files is None,
            p.clear_error is None,
            p.selected_path is None,
            p.query@.len() == 0,
    {
        RecentPanel { version: 0, files: None, clear_error: None, selected_path: None, query: String::new() }
    }

    /// A listing (or its failure) arrived.
    pub fn files_loaded(&mut self, files: Result<Vec<RecentFileEntry>, String>)
        ensures
            final(self).files == Some(files),
            final(self).version == old(self).version,
            final(self).clear_error == old(self).clear_error,
            final(self).selected_path == old(self).selected_path,
            final(self).query == old(self).query,
    {
        self.files = Some(files);
    }

    /// The error of the last listing, if it failed.
    pub fn load_error(&self) -> (r: Option<String>)
        ensures
            opt_view(r) == listing_error(self.files),
    {
        match &self.files {
            Some(Err(e)) => Some(e.clone()),
            _ => None,
        }
    }

    /// The error shown: a failed "clear" first, else a failed listing.
    pub fn shown_error(&self) -> (r: Option<String>)
        ensures
            opt_view(r) == match self.clear_error {
                Some(e) => Some(e@),
                None => listing_error(self.files),
            },
    {
        match &self.clear_error {
            Some(e) => Some(e.clone()),
            None => self.load_error(),
        }
    }

    /// Whether the "no files yet" note is shown: a listing arrived and it is empty.
    pub fn is_empty(&self) -> (r: bool)
        ensures
            r == (self.files matches Some(Ok(v)) && v@.len() == 0),
    {
        match &self.files {
            Some(Ok(v)) => v.len() == 0,
            _ => false,
        }
    }

    /// The rows shown: those of the last listing whose name matches the search text.
    pub fn visible(&self) -> (r: Vec<RecentFileEntry>)
        ensures
            r@ == listed_rows(self.files).filter(|e: RecentFileEntry| name_matches(e.name@, self.query@)),
    {
        let mut copies: Vec<RecentFileEntry> = Vec::new();
        match &self.files {
            Some(Ok(v)) => {
                let n = v.len();
                let mut i: usize = 0;
                while i < n
                    invariant
                        n == v@.len(),
                        i <= n,
                        copies@ == v@.take(i as int),
                    decreases n - i,
                {
                    copies.push(copy_recent_entry(&v[i]));
                    assert(copies@ =~= v@.take(i + 1));
                    i = i + 1;
                }
                assert(copies@ =~= v@);
            },
            _ => {
                assert(copies@ =~= Seq::<RecentFileEntry>::empty());
            },
        }
        let r = filter_by_name(copies, self.query.as_str());
        assert((|x: RecentFileEntry| name_matches(x.name_view(), self.query@)) =~= (|e: RecentFileEntry| name_matches(e.name@, self.query@)));
        r
    }

    /// A row is clicked: it becomes the selection.
    pub fn click(&mut self, path: String)
        ensures
            final(self).selected_path == Some(path),
            final(self).files == old(self).files,
            final(self).version == old(self).version,
            final(self).query == old(self).query,
            final(self).clear_error == old(self).clear_error,
    {
        self.selected_path = Some(path);
    }

    /// The search text changes.
    pub fn set_query(&mut self, query: String)
        ensures
            final(self).query == query,
            final(self).files == old(self).files,
            final(self).selected_path == old(self).selected_path,
            final(self).version == old(self).version,
            final(self).clear_error == old(self).clear_error,
    {
        self.query = query;
    }

    /// "Clear the list" is pressed: the selection goes and the table is to be cleared.
    pub fn clear(&mut self) -> (a: PanelAction)
        ensures
            a is ClearRecent,
            final(self).selected_path is None,
            final(self).files == old(self).files,
            final(self).version == old(self).version,
            final(self).clear_error == old(self).clear_error,
            final(self).query == old(self).query,
    {
        self.selected_path = None;
        PanelAction::ClearRecent
    }

    /// The table was changed elsewhere (a file was recorded or the table
    /// cleared): the version moves on and the listing is fetched again.
    pub fn table_changed(&mut self) -> (a: PanelAction)
        ensures
            a is ListRecent,
            final(self).version == (if old(self).version == u32::MAX { 0 } else { old(self).version + 1 }),
            final(self).files == old(self).files,
            final(self).clear_error == old(self).clear_error,
            final(self).selected_path == old(self).selected_path,
            final(self).query == old(self).query,
    {
        self.version = self.version.wrapping_add(1);
        PanelAction::ListRecent
    }

    /// Clearing finished: on success its error goes and the listing is
    /// fetched again; on failure the error is shown.
    pub fn clear_finished(&mut self, outcome: Result<(), String>) -> (a: PanelAction)
        ensures
            match outcome {
                Ok(()) => final(self).clear_error is None
                    && a is ListRecent
                    && final(self).version == (if old(self).version == u32::MAX { 0 } else { old(self).version + 1 }),
                Err(e) => final(self).clear_error == Some(e)
                    && a is Nothing
                    && final(self).version == old(self).version,
            },
            final(self).files == old(self).files,
            final(self).selected_path == old(self).selected_path,
            final(self).query == old(self).query,
    {
        match outcome {
            Ok(()) => {
                self.clear_error = None;
                self.table_changed()
            },
            Err(e) => {
                self.clear_error = Some(e);
                PanelAction::Nothing
            },
        }
    }
}

} // verus!
