//! What the main page shows.

use vstd::prelude::*;

verus! {

/// The layout of the main page.
pub enum HomeView {
    /// No file is open: the drop zone.
    Dropzone,
    /// Compare mode: the events table alone.
    EventsOnly,
    /// The chart, the events table and the measurement panel.
    Full,
}

/// The layout for the page: the drop zone until a file is open, then the
/// events table alone in compare mode, otherwise the full view.
pub fn home_view(file_open: bool, compare_mode: bool) -> (v: HomeView)
    ensures
        !file_open ==> v is Dropzone,
        file_open && compare_mode ==> v is EventsOnly,
        file_open && !compare_mode ==> v is Full,
{
    if !file_open {
        HomeView::Dropzone
    } else if compare_mode {
        HomeView::EventsOnly
    } else {
        HomeView::Full
    }
}

} // verus!
