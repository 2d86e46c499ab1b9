//! The drop zone shown while no file is open: files dragged onto the window,
//! the message when none of them can be opened, and the dialogs it opens.

use vstd::prelude::*;
use crate::labels::{dropped_sor_path, first_sor_index, only_sor_message, views};
use crate::paths::opt_view;
use crate::dialog::{closes_dialog, is_close_key};

verus! {

/// Work that the drop zone asks its caller to do.
pub enum DropAction {
    /// Nothing to do.
    Nothing,
    /// Open this `.sor` file and report a failure with `open_failed`.
    OpenSor(String),
}

/// The state of the drop zone.
pub struct Dropzone {
    /// Files are being dragged over the window.
    pub dragover: bool,
    /// Why the last drop or opening failed.
    pub drop_error: Option<String>,
    /// The open-file dialog is shown.
    pub dialog_open: bool,
    /// The dialog explaining `.sor` files is shown.
    pub info_open: bool,
}

impl Dropzone {
    /// Nothing dragged, no error, no dialog shown.
    pub fn new() -> (z: Dropzone)
        ensures
            !z.dragover,
            z.drop_error is None,
            !z.dialog_open,
            !z.info_open,
    {
        Dropzone { dragover: false, drop_error: None, dialog_open: false, info_open: false }
    }

    /// Files are dragged onto the window.
    pub fn drag_enter(&mut self)
        ensures
            *final(self) == (Dropzone { dragover: true, ..*old(self) }),
    {
        self.dragover = true;
    }

    /// The drag left the window.
    pub fn drag_leave(&mut self)
        ensures
            *final(self) == (Dropzone { dragover: false, ..*old(self) }),
    {
        self.dragover = false;
    }

    /// Files were dropped: the first `.sor` among them is opened and the error
    /// cleared; when there is none, the error says that only `.sor` files open.
    pub fn dropped(&mut self, paths: Vec<String>) -> (a: DropAction)
        ensures
            !final(self).dragover,
            final(self).dialog_open == old(self).dialog_open,
            final(self).info_open == old(self).info_open,
            ({
                let k = first_sor_index(views(paths@));
                if k < paths@.len() {
                    &&& final(self).drop_error is None
                    &&& a matches DropAction::OpenSor(p) && p@ == paths@[k]@
                } else {
                    &&& opt_view(final(self).drop_error) == Some(only_sor_message())
                    &&& a is Nothing
                }
            }),
    {
        self.dragover = false;
        match dropped_sor_path(paths) {
            Ok(p) => {
                self.drop_error = None;
                DropAction::OpenSor(p)
            },
            Err(e) => {
                self.drop_error = Some(e);
                DropAction::Nothing
            },
        }
    }

    /// Opening the dropped file failed: its error is shown.
    pub fn open_failed(&mut self, error: String)
        ensures
            *final(self) == (Dropzone { drop_error: Some(error), ..*old(self) }),
    {
        self.drop_error = Some(error);
    }

    /// "Open file..." is pressed.
    pub fn show_open_dialog(&mut self)
        ensures
            *final(self) == (Dropzone { dialog_open: true, ..*old(self) }),
    {
        self.dialog_open = true;
    }

    /// "What is .sor?" is pressed.
    pub fn show_info(&mut self)
        ensures
            *final(self) == (Dropzone { info_open: true, ..*old(self) }),
    {
        self.info_open = true;
    }

    /// A key is pressed: Escape closes the dialog that is shown.
    pub fn key_pressed(&mut self, key: &str)
        ensures
            is_close_key(key@) ==> *final(self) == (Dropzone { dialog_open: false, info_open: false, ..*old(self) }),
            !is_close_key(key@) ==> *final(self) == *old(self),
    {
        if closes_dialog(key) {
            self.dialog_open = false;
            self.info_open = false;
        }
    }
}

} // verus!
