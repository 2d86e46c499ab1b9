use otdr_viewer::clock::format_timestamp;
use otdr_viewer::model::RecentFileEntry;
use otdr_viewer::recent::{record_recent_file, recent_file_entry, recent_file_name, RecentFileRow, RecentFiles, RECENT_FILES_LIMIT};
use otdr_viewer::recent_panel::{PanelAction, RecentPanel};

fn paths(rows: &[RecentFileRow]) -> Vec<String> {
    rows.iter().map(|r| r.path.clone()).collect()
}

#[test]
fn new_table_lists_nothing() {
    let t = RecentFiles::new();
    assert_eq!(t.len(), 0);
    assert!(t.list_recent_files().is_empty());
}

#[test]
fn listing_is_newest_first() {
    let mut t = RecentFiles::new();
    t.record("/d/a.sor".to_string(), "a.sor".to_string(), 100, None);
    t.record("/d/b.sor".to_string(), "b.sor".to_string(), 300, Some(7));
    t.record("/d/c.sor".to_string(), "c.sor".to_string(), 200, None);
    let rows = t.list_recent_files();
    assert_eq!(paths(&rows), vec!["/d/b.sor", "/d/c.sor", "/d/a.sor"]);
    assert_eq!(rows[0].length_km_bits, Some(7));
    assert_eq!(rows[0].name, "b.sor");
}

#[test]
fn reopening_updates_only_the_time() {
    let mut t = RecentFiles::new();
    t.record("/d/a.sor".to_string(), "a.sor".to_string(), 100, Some(1));
    t.record("/d/b.sor".to_string(), "b.sor".to_string(), 200, None);
    t.record("/d/a.sor".to_string(), "renamed".to_string(), 300, Some(2));
    assert_eq!(t.len(), 2);
    let rows = t.list_recent_files();
    assert_eq!(paths(&rows), vec!["/d/a.sor", "/d/b.sor"]);
    assert_eq!(rows[0].opened_at, 300);
    assert_eq!(rows[0].name, "a.sor");
    assert_eq!(rows[0].length_km_bits, Some(1));
}

#[test]
fn listing_is_capped_at_the_limit() {
    let mut t = RecentFiles::new();
    for i in 0..30i64 {
        t.record(format!("/d/{i}.sor"), format!("{i}.sor"), i, None);
    }
    assert_eq!(t.len(), 30);
    let rows = t.list_recent_files();
    assert_eq!(rows.len(), RECENT_FILES_LIMIT);
    assert_eq!(rows[0].path, "/d/29.sor");
    assert_eq!(rows[19].path, "/d/10.sor");
    let three = t.recent(3);
    assert_eq!(paths(&three), vec!["/d/29.sor", "/d/28.sor", "/d/27.sor"]);
    assert!(t.recent(0).is_empty());
}

#[test]
fn clear_empties_the_table() {
    let mut t = RecentFiles::new();
    t.record("/d/a.sor".to_string(), "a.sor".to_string(), 1, None);
    t.clear();
    assert_eq!(t.len(), 0);
    assert!(t.list_recent_files().is_empty());
}

#[test]
fn recent_file_names() {
    assert_eq!(recent_file_name("/data/x/trace.sor"), "trace.sor");
    assert_eq!(recent_file_name("trace.sor"), "trace.sor");
    assert_eq!(recent_file_name("/"), "/");
    assert_eq!(recent_file_name("/data/.."), "/data/..");
}

#[test]
fn recent_entries_show_the_folder() {
    let row = RecentFileRow { path: "/data/x/trace.sor".to_string(), name: "trace.sor".to_string(), opened_at: 5, length_km_bits: None };
    let e = recent_file_entry(&row, Some("12.3 км".to_string()));
    assert_eq!(e.path, "/data/x/trace.sor");
    assert_eq!(e.name, "trace.sor");
    assert_eq!(e.location, "/data/x");
    assert_eq!(e.opened_at_label, format_timestamp(5));
    assert_eq!(e.opened_at_label.len(), 10);
    assert_eq!(e.length_label.as_deref(), Some("12.3 км"));
    let bare = RecentFileRow { path: "trace.sor".to_string(), name: "trace.sor".to_string(), opened_at: 5, length_km_bits: None };
    assert_eq!(recent_file_entry(&bare, None).location, "");
    let root = RecentFileRow { path: "/".to_string(), name: "/".to_string(), opened_at: 5, length_km_bits: None };
    assert_eq!(recent_file_entry(&root, None).location, "");
}

#[test]
fn record_recent_file_stores_the_file_name() {
    let mut t = RecentFiles::new();
    record_recent_file(&mut t, "/data/x/trace.sor".to_string(), 10, Some(42));
    record_recent_file(&mut t, "/data/x/trace.sor".to_string(), 20, None);
    let rows = t.list_recent_files();
    assert_eq!(rows.len(), 1);
    assert_eq!(rows[0].name, "trace.sor");
    assert_eq!(rows[0].opened_at, 20);
    assert_eq!(rows[0].length_km_bits, Some(42));
}

fn panel_entry(name: &str) -> RecentFileEntry {
    RecentFileEntry {
        path: format!("/d/{name}"),
        name: name.to_string(),
        location: "/d".to_string(),
        opened_at_label: String::new(),
        length_label: None,
    }
}

#[test]
fn panel_shows_listing_and_filters() {
    let mut p = RecentPanel::new();
    assert!(!p.is_empty());
    assert!(p.visible().is_empty());
    p.files_loaded(Ok(vec![panel_entry("Alpha.sor"), panel_entry("beta.sor")]));
    assert!(!p.is_empty());
    assert_eq!(p.visible().len(), 2);
    p.set_query("ALP".to_string());
    let v = p.visible();
    assert_eq!(v.len(), 1);
    assert_eq!(v[0].name, "Alpha.sor");
    p.files_loaded(Ok(vec![]));
    assert!(p.is_empty());
    assert!(p.shown_error().is_none());
}

#[test]
fn panel_errors_and_clearing() {
    let mut p = RecentPanel::new();
    p.files_loaded(Err("no db".to_string()));
    assert_eq!(p.load_error().as_deref(), Some("no db"));
    assert_eq!(p.shown_error().as_deref(), Some("no db"));
    assert!(p.visible().is_empty());
    assert!(!p.is_empty());

    p.click("/d/a.sor".to_string());
    assert!(matches!(p.clear(), PanelAction::ClearRecent));
    assert!(p.selected_path.is_none());
    assert!(matches!(p.clear_finished(Err("locked".to_string())), PanelAction::Nothing));
    assert_eq!(p.shown_error().as_deref(), Some("locked"));
    assert_eq!(p.version, 0);
    assert!(matches!(p.clear_finished(Ok(())), PanelAction::ListRecent));
    assert_eq!(p.version, 1);
    assert_eq!(p.shown_error().as_deref(), Some("no db"));
}

#[test]
fn panel_version_wraps() {
    let mut p = RecentPanel::new();
    p.version = u32::MAX;
    assert!(matches!(p.table_changed(), PanelAction::ListRecent));
    assert_eq!(p.version, 0);
}

#[test]
fn recent_entry_of_unrepresentable_time_has_no_date() {
    let row = RecentFileRow { path: "/d/a.sor".to_string(), name: "a.sor".to_string(), opened_at: i64::MAX, length_km_bits: None };
    assert_eq!(recent_file_entry(&row, None).opened_at_label, "");
}
