use otdr_viewer::clock::{
    command_error, format_timestamp, now_unix, unix_seconds_of, FIRST_FOUR_DIGIT_SECOND, LAST_FOUR_DIGIT_SECOND,
};
use otdr_viewer::filter::{filter_by_name, matches_query};
use otdr_viewer::labels::{dropped_sor_path, event_kind_label, pulse_width_label, summary_title};
use otdr_viewer::model::RecentFileEntry;
use otdr_viewer::text::{has_sor_extension, opt_str, str_less, toggle_class, u64_to_decimal};

#[test]
fn toggle_class_cases() {
    assert_eq!(toggle_class("base", "active", true), "base active");
    assert_eq!(toggle_class("base", "active", false), "base");
}

#[test]
fn has_sor_extension_cases() {
    assert!(has_sor_extension("trace.sor"));
    assert!(has_sor_extension("TRACE.SOR"));
    assert!(!has_sor_extension("trace.txt"));
    assert!(!has_sor_extension("sor"));
    assert!(!has_sor_extension("trace.sorx"));
}

#[test]
fn decimal_rendering() {
    for n in [0u64, 7, 10, 99, 100, 12345, u64::MAX] {
        assert_eq!(u64_to_decimal(n), n.to_string());
    }
}

#[test]
fn str_less_matches_str_order() {
    let words = ["", "a", "ab", "b", "Z", "é", "alpha", "zeta"];
    for a in words {
        for b in words {
            assert_eq!(str_less(a, b), a < b, "{a:?} < {b:?}");
        }
    }
}

#[test]
fn opt_str_cases() {
    assert_eq!(opt_str(&None), "—");
    assert_eq!(opt_str(&Some("  \t".to_string())), "—");
    assert_eq!(opt_str(&Some("".to_string())), "—");
    assert_eq!(opt_str(&Some(" Иванов ".to_string())), " Иванов ");
    assert_eq!(opt_str(&Some("\u{3000}\u{a0}\n".to_string())), "—");
    assert_eq!(opt_str(&Some("\u{200b}".to_string())), "\u{200b}");
}

#[test]
fn blank_text_is_what_char_is_whitespace_says() {
    for c in (0u32..=0x10FFFF).filter_map(char::from_u32) {
        let shown = opt_str(&Some(c.to_string()));
        assert_eq!(shown == "—" && c != '—', c.is_whitespace(), "{:?}", c);
    }
}

#[test]
fn event_kind_labels() {
    assert_eq!(event_kind_label("reflection", true), "Разъём (старт)");
    assert_eq!(event_kind_label("reflection", false), "Разъём");
    assert_eq!(event_kind_label("loss/drop/gain", false), "Сварной стык");
    assert_eq!(event_kind_label("end of fiber", true), "Конец волокна");
    assert_eq!(event_kind_label("multiple events", false), "Множественное событие");
    assert_eq!(event_kind_label("other", false), "Неизвестно");
}

#[test]
fn panel_labels() {
    assert_eq!(summary_title(Some("C1".to_string()), Some("F1".to_string())), "C1");
    assert_eq!(summary_title(None, Some("F1".to_string())), "F1");
    assert_eq!(summary_title(None, None), "Файл открыт");
    assert_eq!(pulse_width_label(&vec![100, 300]), "100 нс");
    assert_eq!(pulse_width_label(&vec![]), "—");
}

#[test]
fn dropped_paths() {
    let picked = dropped_sor_path(vec!["/a/readme.txt".to_string(), "/a/T.SOR".to_string(), "/a/b.sor".to_string()]);
    assert_eq!(picked, Ok("/a/T.SOR".to_string()));
    assert_eq!(dropped_sor_path(vec!["/a/x.txt".to_string()]), Err("Можно открыть только файлы .sor".to_string()));
    assert_eq!(dropped_sor_path(vec![]), Err("Можно открыть только файлы .sor".to_string()));
}

fn recent(name: &str) -> RecentFileEntry {
    RecentFileEntry {
        path: format!("/t/{name}"),
        name: name.to_string(),
        location: "/t".to_string(),
        opened_at_label: String::new(),
        length_label: None,
    }
}

#[test]
fn search_filters_by_name_ignoring_case() {
    assert!(matches_query("Trace-01.SOR", "trace"));
    assert!(matches_query("anything", ""));
    assert!(!matches_query("abc", "abd"));
    let items = vec![recent("Line-A.sor"), recent("line-b.sor"), recent("Other.sor")];
    let kept = filter_by_name(items, "LINE");
    let names: Vec<&str> = kept.iter().map(|e| e.name.as_str()).collect();
    assert_eq!(names, ["Line-A.sor", "line-b.sor"]);
}

#[test]
fn timestamps() {
    assert_eq!(format_timestamp(i64::MAX), "");
    let s = format_timestamp(1_700_000_000);
    let parts: Vec<&str> = s.split('.').collect();
    assert_eq!(parts.len(), 3);
    assert_eq!(parts[0].len(), 2);
    assert_eq!(parts[1].len(), 2);
    assert_eq!(parts[2].len(), 4);
    assert_eq!(unix_seconds_of(Some(42)), 42);
    assert_eq!(unix_seconds_of(None), 0);
    assert!(now_unix() > 1_600_000_000);
}

fn dotted(s: &str) -> bool {
    let c: Vec<char> = s.chars().collect();
    c.len() == 10 && c[2] == '.' && c[5] == '.'
        && c.iter().enumerate().all(|(i, ch)| i == 2 || i == 5 || ch.is_ascii_digit())
}

#[test]
fn timestamps_at_the_four_digit_bounds() {
    assert!(dotted(&format_timestamp(FIRST_FOUR_DIGIT_SECOND)));
    assert!(dotted(&format_timestamp(LAST_FOUR_DIGIT_SECOND)));
    assert!(dotted(&format_timestamp(0)));
    let far = format_timestamp(LAST_FOUR_DIGIT_SECOND + 400 * 86_400);
    assert!(far.len() > 10);
    assert_eq!(&far[2..3], ".");
    assert_eq!(&far[5..6], ".");
    let early = format_timestamp(-100_000_000_000);
    assert!(early.starts_with(|c: char| c.is_ascii_digit()));
    assert!(early.len() > 10);
}

#[test]
fn command_error_message() {
    assert_eq!(command_error("parse_sor_file: /x", "Не удалось прочитать .sor-файл", "bad header"), "Не удалось прочитать .sor-файл: bad header");
}
