//! Verified core of an OTDR trace viewer: directory listings of `.sor` files,
//! size and date labels, the recent-files table, trace downsampling, the order
//! of the events table, and the decisions of the open-file dialog, the
//! recent-files panel, the drop zone, the window buttons, the toolbar, the
//! title bar and the main page.

pub mod model;
pub mod text;
pub mod size;

pub mod listing;
pub mod paths;
pub mod trace;
pub mod recent;
pub mod calendar;
pub mod clock;
pub mod filter;
pub mod labels;
pub mod events;
pub mod dialog;
pub mod recent_panel;
pub mod dropzone;
pub mod window;
pub mod toolbar;
pub mod title_bar;
pub mod home;
