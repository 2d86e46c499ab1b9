use otdr_viewer::listing::{
    list_directory, list_quick_locations, listing_dir, read_entries, sort_entries, to_fs_entry, DirItem, ItemMetadata,
};
use otdr_viewer::model::FsEntry;
use otdr_viewer::paths::{is_sor_file, join_path, path_to_string, resolve_open_path};
use otdr_viewer::size::format_size;

fn entry(name: &str, is_dir: bool) -> FsEntry {
    FsEntry {
        name: name.to_string(),
        path: format!("/x/{name}"),
        is_dir,
        size_label: None,
        modified_label: None,
    }
}

#[test]
fn sort_entries_dirs_first_then_case_insensitive_alpha() {
    let mut entries = vec![
        entry("b.sor", false),
        entry("Zeta", true),
        entry("A.sor", false),
        entry("alpha", true),
    ];
    sort_entries(&mut entries);
    let names: Vec<&str> = entries.iter().map(|e| e.name.as_str()).collect();
    assert_eq!(names, ["alpha", "Zeta", "A.sor", "b.sor"]);
}

#[test]
fn sort_entries_keeps_order_of_equal_keys() {
    let mut entries = vec![entry("a.sor", false), entry("A.SOR", false), entry("dir", true), entry("a.Sor", false)];
    entries[0].path = "/first".to_string();
    entries[1].path = "/second".to_string();
    entries[3].path = "/third".to_string();
    sort_entries(&mut entries);
    let paths: Vec<&str> = entries.iter().map(|e| e.path.as_str()).collect();
    assert_eq!(paths, ["/x/dir", "/first", "/second", "/third"]);
}

#[test]
fn sort_entries_empty_and_single() {
    let mut none: Vec<FsEntry> = vec![];
    sort_entries(&mut none);
    assert!(none.is_empty());
    let mut one = vec![entry("x", false)];
    sort_entries(&mut one);
    assert_eq!(one[0].name, "x");
}

#[test]
fn format_size_cases() {
    let cases: [(u64, &str); 7] = [
        (0, "0 Б"),
        (1023, "1023 Б"),
        (1024, "1 КБ"),
        (1025, "2 КБ"),
        (1536, "2 КБ"),
        (1024 * 1024 - 1, "1024 КБ"),
        (1024 * 1024, "1.0 МБ"),
    ];
    for (bytes, expected) in cases {
        assert_eq!(format_size(bytes), expected, "bytes = {bytes}");
    }
}

#[test]
fn format_size_matches_float_formatting() {
    let samples: [u64; 12] = [
        1048576,
        1048577,
        1310720,
        1363148,
        1415577,
        1572864,
        10 * 1048576 - 1,
        123456789,
        (1u64 << 53) + 1,
        (1u64 << 53) + 3,
        u64::MAX - 1,
        u64::MAX,
    ];
    for bytes in samples {
        let expected = format!("{:.1} МБ", bytes as f64 / (1024.0 * 1024.0));
        assert_eq!(format_size(bytes), expected, "bytes = {bytes}");
    }
    for bytes in (1048576u64..1048576 + 300000).step_by(997) {
        let expected = format!("{:.1} МБ", bytes as f64 / (1024.0 * 1024.0));
        assert_eq!(format_size(bytes), expected, "bytes = {bytes}");
    }
}

#[test]
fn format_size_tie_rounds_to_even() {
    assert_eq!(format_size(1310720), format!("{:.1} МБ", 1.25f64));
    assert_eq!(format_size(1310720), "1.2 МБ");
    assert_eq!(format_size(1835008), "1.8 МБ");
}

#[test]
fn is_sor_file_cases() {
    assert!(is_sor_file("trace.sor"));
    assert!(is_sor_file("TRACE.SOR"));
    assert!(!is_sor_file("trace.txt"));
    assert!(!is_sor_file("trace"));
    assert!(!is_sor_file(".sor"));
    assert!(is_sor_file("/data/x.Sor"));
}

#[test]
fn is_sor_file_uses_the_last_dot_of_the_file_name() {
    assert!(is_sor_file("a.b.sor"));
    assert!(!is_sor_file("a.sor.bak"));
    assert!(!is_sor_file("trace.sor."));
    assert!(is_sor_file(".hidden.sor"));
    assert!(!is_sor_file("/data.sor/trace"));
    assert!(is_sor_file("/data/trace.sor/"));
    assert!(!is_sor_file("/data/.."));
    assert!(!is_sor_file(""));
    for p in ["a.b.sor", "x.", ".sor", "..sor", "/d/x.SoR", "/d.sor/", "/", "a/b/c.sor.sor"] {
        let std_says = std::path::Path::new(p)
            .extension()
            .and_then(|e| e.to_str())
            .is_some_and(|e| e.eq_ignore_ascii_case("sor"));
        assert_eq!(is_sor_file(p), std_says, "{p}");
    }
}

#[test]
fn join_path_cases() {
    assert_eq!(join_path("/home/user", "a.sor"), "/home/user/a.sor");
    assert_eq!(join_path("/home/user/", "a.sor"), "/home/user/a.sor");
    assert_eq!(join_path(r"C:\Users\admin", "a.sor"), r"C:\Users\admin\a.sor");
    assert_eq!(join_path(r"C:\Users\admin\", "a.sor"), r"C:\Users\admin\a.sor");
}

#[test]
fn resolve_open_path_cases() {
    assert_eq!(
        resolve_open_path("/current", "a.sor", Some("/data/traces/a.sor".to_string())),
        "/data/traces/a.sor"
    );
    assert_eq!(
        resolve_open_path("/current", "b.sor", Some("/data/traces/a.sor".to_string())),
        "/current/b.sor"
    );
    assert_eq!(resolve_open_path("/current", "b.sor", None), "/current/b.sor");
    assert_eq!(resolve_open_path("/c", "a.sor", Some(r"D:\t\a.sor".to_string())), r"D:\t\a.sor");
}

#[test]
fn path_to_string_replaces_invalid_bytes() {
    assert_eq!(path_to_string(b"/home/user"), "/home/user");
    assert_eq!(path_to_string(b"a\xffb"), "a\u{FFFD}b");
}

fn item(name: &str, meta: Option<(bool, u64)>) -> DirItem {
    DirItem {
        name: name.to_string(),
        path: format!("/d/{name}"),
        metadata: meta.map(|(is_dir, len)| ItemMetadata { is_dir, len, modified_label: Some("01.02.2024".to_string()) }),
    }
}

#[test]
fn to_fs_entry_filters_and_labels() {
    assert!(to_fs_entry(item(".hidden", Some((true, 0)))).is_none());
    assert!(to_fs_entry(item("notes.txt", Some((false, 10)))).is_none());
    assert!(to_fs_entry(item("trace.sor", None)).is_none());
    let dir = to_fs_entry(item("traces", Some((true, 4096)))).unwrap();
    assert!(dir.is_dir);
    assert_eq!(dir.size_label, None);
    let file = to_fs_entry(item("T.SOR", Some((false, 1536)))).unwrap();
    assert_eq!(file.size_label.as_deref(), Some("2 КБ"));
    assert_eq!(file.modified_label.as_deref(), Some("01.02.2024"));
    assert_eq!(file.path, "/d/T.SOR");
}

#[test]
fn listing_dir_defaults() {
    assert_eq!(listing_dir(Some("/a".to_string()), Some("/home".to_string())), "/a");
    assert_eq!(listing_dir(None, Some("/home".to_string())), "/home");
    assert_eq!(listing_dir(None, None), ".");
}

#[test]
fn list_directory_cases() {
    let not_dir = list_directory("/a/b".to_string(), None);
    assert_eq!(not_dir.current_path, "/a/b");
    assert_eq!(not_dir.parent_path.as_deref(), Some("/a"));
    assert!(not_dir.entries.is_empty());
    assert_eq!(not_dir.error.as_deref(), Some("Указанный путь не является папкой"));

    let ok = list_directory(
        "/".to_string(),
        Some(Ok(vec![item("b.sor", Some((false, 10))), item(".git", Some((true, 0))), item("x", Some((true, 0)))])),
    );
    assert_eq!(ok.parent_path, None);
    let names: Vec<&str> = ok.entries.iter().map(|e| e.name.as_str()).collect();
    assert_eq!(names, ["x", "b.sor"]);
    assert_eq!(ok.error, None);

    let err = list_directory("/a".to_string(), Some(Err("denied".to_string())));
    assert!(err.entries.is_empty());
    assert_eq!(err.error.as_deref(), Some("Не удалось прочитать папку: denied"));
}

#[test]
fn read_entries_filters_and_sorts() {
    let rows = read_entries(Ok(vec![
        item("z.sor", Some((false, 2048))),
        item("Notes.txt", Some((false, 1))),
        item("b", Some((true, 0))),
        item("A.sor", Some((false, 100))),
        item("c.sor", None),
        item("a", Some((true, 0))),
    ]))
    .unwrap();
    let names: Vec<&str> = rows.iter().map(|e| e.name.as_str()).collect();
    assert_eq!(names, ["a", "b", "A.sor", "z.sor"]);
    assert_eq!(rows[3].size_label.as_deref(), Some("2 КБ"));
    assert!(read_entries(Ok(vec![])).unwrap().is_empty());
    assert_eq!(read_entries(Err("no access".to_string())), Err("Не удалось прочитать папку: no access".to_string()));
}

#[test]
fn quick_locations_keep_resolved_folders_in_order() {
    let locs = list_quick_locations(Some("/home/u".to_string()), None, Some("/home/u/Docs".to_string()), None);
    let names: Vec<&str> = locs.iter().map(|l| l.name.as_str()).collect();
    assert_eq!(names, ["Домашняя папка", "Документы"]);
    assert_eq!(locs[1].path, "/home/u/Docs");
    assert!(list_quick_locations(None, None, None, None).is_empty());
}

#[test]
fn default_listing_is_empty() {
    let l = otdr_viewer::model::DirListing::default();
    assert_eq!(l.current_path, "");
    assert!(l.parent_path.is_none());
    assert!(l.entries.is_empty());
    assert!(l.error.is_none());
}

#[test]
fn sorting_sorted_entries_changes_nothing() {
    let mut v = vec![entry("b", true), entry("C", true), entry("a.sor", false), entry("B.sor", false)];
    sort_entries(&mut v);
    let once: Vec<String> = v.iter().map(|e| e.name.clone()).collect();
    assert_eq!(once, ["b", "C", "a.sor", "B.sor"]);
    sort_entries(&mut v);
    let twice: Vec<String> = v.iter().map(|e| e.name.clone()).collect();
    assert_eq!(once, twice);
}
