use otdr_viewer::home::{home_view, HomeView};
use otdr_viewer::title_bar::{command_name, window_command, TitleBarState, TitleButton, WindowCommand};
use otdr_viewer::toolbar::{ToolbarState, ToolbarToggle};

#[test]
fn toolbar_starts_with_grid_and_1550() {
    let t = ToolbarState::new();
    assert!(t.is_on(ToolbarToggle::Grid));
    assert!(!t.is_on(ToolbarToggle::Markers));
    assert!(!t.is_on(ToolbarToggle::Legend));
    assert!(!t.is_on(ToolbarToggle::RouteScheme));
    assert!(!t.is_on(ToolbarToggle::Loupe));
    assert!(!t.is_on(ToolbarToggle::Bidirectional));
    assert!(t.is_wavelength(1550));
    assert!(!t.is_wavelength(1310));
}

#[test]
fn toolbar_toggles_one_button_at_a_time() {
    let mut t = ToolbarState::new();
    t.toggle(ToolbarToggle::Markers);
    assert!(t.markers_on && t.grid_on && !t.legend_on);
    t.toggle(ToolbarToggle::Grid);
    assert!(!t.grid_on && t.markers_on);
    t.toggle(ToolbarToggle::Markers);
    assert!(!t.markers_on);
    t.select_wavelength(1310);
    assert_eq!(t.wavelength_nm, 1310);
    assert!(!t.grid_on);
}

#[test]
fn title_bar_buttons() {
    assert!(matches!(window_command(TitleButton::Green), WindowCommand::Minimize));
    assert!(matches!(window_command(TitleButton::Yellow), WindowCommand::ToggleMaximize));
    assert!(matches!(window_command(TitleButton::Red), WindowCommand::Close));
    assert_eq!(command_name(WindowCommand::Minimize), "minimize_window");
    assert_eq!(command_name(WindowCommand::ToggleMaximize), "toggle_maximize");
    assert_eq!(command_name(WindowCommand::Close), "close_window");
    let mut bar = TitleBarState::new();
    assert!(!bar.menu_open);
    bar.open_menu();
    assert!(bar.menu_open);
    bar.close_menu();
    assert!(!bar.menu_open);
}

#[test]
fn home_layouts() {
    assert!(matches!(home_view(false, false), HomeView::Dropzone));
    assert!(matches!(home_view(false, true), HomeView::Dropzone));
    assert!(matches!(home_view(true, true), HomeView::EventsOnly));
    assert!(matches!(home_view(true, false), HomeView::Full));
}
