use otdr_viewer::dialog::{closes_dialog, OpenFileDialog};
use otdr_viewer::dropzone::{DropAction, Dropzone};
use otdr_viewer::window::{is_window_maximized, start_resize, toggle_maximize, WindowAction};

#[test]
fn window_buttons() {
    assert!(matches!(toggle_maximize(Some(true)), WindowAction::Unmaximize));
    assert!(matches!(toggle_maximize(Some(false)), WindowAction::Maximize));
    assert!(matches!(toggle_maximize(None), WindowAction::Nothing));
    assert!(is_window_maximized(Some(true)));
    assert!(!is_window_maximized(Some(false)));
    assert!(!is_window_maximized(None));
    assert!(!start_resize(Some(true)));
    assert!(start_resize(Some(false)));
    assert!(start_resize(None));
}

#[test]
fn escape_closes_dialogs() {
    assert!(closes_dialog("Escape"));
    assert!(!closes_dialog("Enter"));
    assert!(!closes_dialog("escape"));
    let mut d = OpenFileDialog::new();
    d.show();
    d.key_pressed("a");
    assert!(d.open);
    d.key_pressed("Escape");
    assert!(!d.open);
}

#[test]
fn dropping_files() {
    let mut z = Dropzone::new();
    z.drag_enter();
    assert!(z.dragover);
    let a = z.dropped(vec!["/x/notes.txt".to_string(), "/x/a.SOR".to_string(), "/x/b.sor".to_string()]);
    assert!(!z.dragover);
    match a {
        DropAction::OpenSor(p) => assert_eq!(p, "/x/a.SOR"),
        DropAction::Nothing => panic!("expected a file to open"),
    }
    assert!(z.drop_error.is_none());

    z.drag_enter();
    z.drag_leave();
    assert!(!z.dragover);
    assert!(matches!(z.dropped(vec!["/x/notes.txt".to_string()]), DropAction::Nothing));
    assert_eq!(z.drop_error.as_deref(), Some("Можно открыть только файлы .sor"));
    assert!(matches!(z.dropped(vec![]), DropAction::Nothing));

    z.open_failed("broken".to_string());
    assert_eq!(z.drop_error.as_deref(), Some("broken"));

    z.show_open_dialog();
    z.show_info();
    assert!(z.dialog_open && z.info_open);
    z.key_pressed("Tab");
    assert!(z.dialog_open && z.info_open);
    z.key_pressed("Escape");
    assert!(!z.dialog_open && !z.info_open);
}
