use simple_todo_note::autostart::ensure_windows_autostart;
use simple_todo_note::database::Database;
use simple_todo_note::meta::MetaStore;
use simple_todo_note::prefs::{
    set_always_on_top, set_panel_mode, save_window_position, save_window_size, ui_prefs_or_default,
    window_prefs_or_default, MotionMode, PanelMode, ReadabilityMode, ReduceMotionOverride, UiPrefs,
    WindowPrefs,
};
use simple_todo_note::text::{
    date_from_trimmed, normalize_date, normalize_recurrence_tag, tag_from_trimmed, to_db_bool,
};

#[test]
fn recurrence_tags_normalise() {
    assert_eq!(normalize_recurrence_tag(Some("weekly".to_string())), "none");
    assert_eq!(normalize_recurrence_tag(Some("daily".to_string())), "daily");
    assert_eq!(normalize_recurrence_tag(Some("bi-weekly".to_string())), "bi-weekly");
    assert_eq!(normalize_recurrence_tag(Some("  daily\t".to_string())), "daily");
    assert_eq!(normalize_recurrence_tag(Some("Daily".to_string())), "none");
    assert_eq!(normalize_recurrence_tag(None), "none");
}

#[test]
fn dates_normalise() {
    assert_eq!(normalize_date(None), None);
    assert_eq!(normalize_date(Some(String::new())), None);
    assert_eq!(normalize_date(Some(" \t ".to_string())), None);
    assert_eq!(normalize_date(Some(" 2024-01-01 ".to_string())), Some("2024-01-01".to_string()));
}

#[test]
fn flags_as_integers() {
    assert_eq!(to_db_bool(true), 1);
    assert_eq!(to_db_bool(false), 0);
}

#[test]
fn panel_mode_sizes() {
    let prefs = WindowPrefs::default();
    let expanded = set_panel_mode(prefs, PanelMode::Expanded);
    assert_eq!((expanded.width, expanded.height), (920, 680));
    assert_eq!(expanded.mode, PanelMode::Expanded);
    assert_eq!((expanded.x, expanded.y), (80, 80));
    let mini = set_panel_mode(expanded, PanelMode::Mini);
    assert_eq!((mini.width, mini.height), (380, 520));
    assert_eq!(mini.mode, PanelMode::Mini);
}

#[test]
fn window_prefs_defaults_and_edits() {
    let d = window_prefs_or_default(None);
    assert_eq!(
        d,
        WindowPrefs { x: 80, y: 80, width: 380, height: 520, mode: PanelMode::Mini, always_on_top: true }
    );
    let moved = save_window_position(d, 10, -20);
    assert_eq!((moved.x, moved.y, moved.width), (10, -20, 380));
    let sized = save_window_size(moved, 500, 600);
    assert_eq!((sized.x, sized.width, sized.height), (10, 500, 600));
    let off = set_always_on_top(sized, false);
    assert!(!off.always_on_top);
    assert_eq!(window_prefs_or_default(Some(off)), off);
}

#[test]
fn ui_prefs_defaults() {
    let d = ui_prefs_or_default(None);
    assert_eq!(
        d,
        UiPrefs {
            motion_mode: MotionMode::Balanced,
            readability_mode: ReadabilityMode::Adaptive,
            reduce_motion_override: ReduceMotionOverride::System,
        }
    );
    assert_eq!(UiPrefs::default(), d);
}

#[test]
fn meta_upsert() {
    let mut meta = MetaStore::new();
    assert_eq!(meta.get_meta(&"k".to_string()), None);
    meta.set_meta("k".to_string(), "1".to_string());
    meta.set_meta("j".to_string(), "2".to_string());
    meta.set_meta("k".to_string(), "3".to_string());
    assert_eq!(meta.get_meta(&"k".to_string()), Some("3".to_string()));
    assert_eq!(meta.get_meta(&"j".to_string()), Some("2".to_string()));
    assert_eq!(meta.entries.len(), 2);
}

#[test]
fn prefs_blobs_in_database() {
    let mut db = Database::new();
    assert_eq!(db.window_prefs_json(), None);
    assert_eq!(db.ui_prefs_json(), None);
    db.save_window_prefs_json("{\"x\":1}".to_string());
    db.save_ui_prefs_json("{}".to_string());
    db.save_window_prefs_json("{\"x\":2}".to_string());
    assert_eq!(db.window_prefs_json(), Some("{\"x\":2}".to_string()));
    assert_eq!(db.ui_prefs_json(), Some("{}".to_string()));
}

#[test]
fn autostart_entry() {
    let e = ensure_windows_autostart("SimpleTodoNote", "C:\\Apps\\todo.exe");
    assert_eq!(e.subkey, "Software\\Microsoft\\Windows\\CurrentVersion\\Run");
    assert_eq!(e.value_name, "SimpleTodoNote");
    assert_eq!(e.command, "\"C:\\Apps\\todo.exe\"");
}

#[test]
fn decisions_on_trimmed_text() {
    assert_eq!(tag_from_trimmed("daily"), "daily");
    assert_eq!(tag_from_trimmed("bi-weekly"), "bi-weekly");
    assert_eq!(tag_from_trimmed("weekly"), "none");
    assert_eq!(tag_from_trimmed(""), "none");
    assert_eq!(date_from_trimmed(""), None);
    assert_eq!(date_from_trimmed("2024-01-01"), Some("2024-01-01".to_string()));
}

#[test]
fn unicode_white_space_is_trimmed() {
    assert_eq!(normalize_recurrence_tag(Some("\u{3000}daily\u{a0}\u{2028}".to_string())), "daily");
    assert_eq!(normalize_date(Some("\u{85}\u{202f}".to_string())), None);
    assert_eq!(normalize_date(Some("\u{200b}x".to_string())), Some("\u{200b}x".to_string()));
}
