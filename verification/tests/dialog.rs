use otdr_viewer::dialog::{DialogAction, OpenFileDialog};
use otdr_viewer::model::{DirListing, FsEntry, QuickLocation};

fn entry(name: &str, path: &str, is_dir: bool) -> FsEntry {
    FsEntry { name: name.to_string(), path: path.to_string(), is_dir, size_label: None, modified_label: None }
}

fn listing(dir: &str, parent: Option<&str>, entries: Vec<FsEntry>) -> DirListing {
    DirListing {
        current_path: dir.to_string(),
        parent_path: parent.map(|p| p.to_string()),
        entries,
        error: None,
    }
}

fn loads(a: &DialogAction) -> Option<Option<String>> {
    match a {
        DialogAction::LoadDirectory(p) => Some(p.clone()),
        _ => None,
    }
}

#[test]
fn first_show_fetches_quick_locations_once() {
    let mut d = OpenFileDialog::new();
    assert!(!d.open);
    assert!(matches!(d.show(), DialogAction::FetchQuickLocations));
    assert!(d.open);
    d.close();
    assert!(!d.open);
    assert!(matches!(d.show(), DialogAction::Nothing));
}

#[test]
fn quick_locations_load_the_first_folder() {
    let mut d = OpenFileDialog::new();
    d.show();
    let a = d.quick_locations_loaded(vec![
        QuickLocation { name: "Home".to_string(), path: "/home/u".to_string() },
        QuickLocation { name: "Desktop".to_string(), path: "/home/u/Desktop".to_string() },
    ]);
    assert_eq!(loads(&a), Some(Some("/home/u".to_string())));
    assert!(d.loading);
    let a = d.quick_locations_loaded(vec![]);
    assert_eq!(loads(&a), Some(None));
}

#[test]
fn browsing_and_opening_a_file() {
    let mut d = OpenFileDialog::new();
    d.show();
    d.quick_locations_loaded(vec![QuickLocation { name: "Home".to_string(), path: "/home/u".to_string() }]);
    d.directory_loaded(listing(
        "/home/u",
        Some("/home"),
        vec![entry("data", "/home/u/data", true), entry("a.sor", "/home/u/a.sor", false), entry("b.txt", "/home/u/b.txt", false)],
    ));
    assert!(!d.loading);
    assert_eq!(d.entries.len(), 3);

    d.set_query("SOR".to_string());
    let visible = d.visible_entries();
    assert_eq!(visible.len(), 1);
    assert_eq!(visible[0].name, "a.sor");

    d.click_entry(&entry("data", "/home/u/data", true));
    assert_eq!(d.selected_path.as_deref(), Some("/home/u/data"));
    assert_eq!(d.filename, "");
    assert!(!d.can_open());
    assert!(matches!(d.confirm(), DialogAction::Nothing));
    assert!(d.open);

    d.click_entry(&entry("a.sor", "/home/u/a.sor", false));
    assert_eq!(d.filename, "a.sor");
    assert!(d.can_open());
    match d.confirm() {
        DialogAction::OpenFile(p) => assert_eq!(p, "/home/u/a.sor"),
        _ => panic!("expected the file to open"),
    }
    assert!(!d.open);
}

#[test]
fn typed_name_is_joined_to_the_folder() {
    let mut d = OpenFileDialog::new();
    d.show();
    d.directory_loaded(listing("/home/u", Some("/home"), vec![]));
    d.set_filename("typed.SOR".to_string());
    match d.confirm() {
        DialogAction::OpenFile(p) => assert_eq!(p, "/home/u/typed.SOR"),
        _ => panic!("expected the file to open"),
    }
}

#[test]
fn navigating_clears_the_selection() {
    let mut d = OpenFileDialog::new();
    d.show();
    d.directory_loaded(listing("/home/u", Some("/home"), vec![entry("a.sor", "/home/u/a.sor", false)]));
    d.set_query("a".to_string());
    d.click_entry(&entry("a.sor", "/home/u/a.sor", false));
    let a = d.navigate_up();
    assert_eq!(loads(&a), Some(Some("/home".to_string())));
    assert!(d.loading);
    assert_eq!(d.query, "");
    assert_eq!(d.filename, "");
    assert!(d.selected_path.is_none());

    d.directory_loaded(listing("/", None, vec![]));
    assert!(matches!(d.navigate_up(), DialogAction::Nothing));
    assert!(!d.loading);
}

#[test]
fn activating_entries() {
    let mut d = OpenFileDialog::new();
    d.show();
    d.directory_loaded(listing("/home/u", Some("/home"), vec![]));
    let a = d.activate_entry(&entry("data", "/home/u/data", true));
    assert_eq!(loads(&a), Some(Some("/home/u/data".to_string())));
    d.directory_loaded(listing("/home/u/data", Some("/home/u"), vec![]));
    assert!(matches!(d.activate_entry(&entry("notes.txt", "/home/u/data/notes.txt", false)), DialogAction::Nothing));
    assert!(d.open);
    assert_eq!(d.filename, "notes.txt");
    match d.activate_entry(&entry("x.sor", "/home/u/data/x.sor", false)) {
        DialogAction::OpenFile(p) => assert_eq!(p, "/home/u/data/x.sor"),
        _ => panic!("expected the file to open"),
    }
    assert!(!d.open);
}

#[test]
fn selecting_a_location() {
    let mut d = OpenFileDialog::new();
    d.show();
    d.quick_locations_loaded(vec![
        QuickLocation { name: "Home".to_string(), path: "/home/u".to_string() },
        QuickLocation { name: "Docs".to_string(), path: "/home/u/Documents".to_string() },
    ]);
    let a = d.select_location(1);
    assert_eq!(d.active_location, 1);
    assert_eq!(loads(&a), Some(Some("/home/u/Documents".to_string())));
    let a = d.select_location(5);
    assert_eq!(loads(&a), Some(None));
}
