use ferrite::input::InputModifiers;
use ferrite::settings::{KeyBinding, KeyCode, KeyModifiers, Language, MaxLineWidth};
use ferrite::settings_rules::{
    add_recent, clamp_u32, clamp_u8, dedup_paths, sanitize_active_tab_index, sanitize_auto_save_delay,
    sanitize_max_line_width, sanitize_pipeline_limits, sanitize_recent_files_limit, sanitize_tab_size,
    strip_verbatim_prefix, MAX_CUSTOM_LINE_WIDTH, MAX_TAB_SIZE, MIN_CUSTOM_LINE_WIDTH, MIN_TAB_SIZE,
};

fn strings(items: &[&str]) -> Vec<String> {
    items.iter().map(|s| s.to_string()).collect()
}

#[test]
fn test_add_recent_file() {
    let mut recent: Vec<String> = Vec::new();
    add_recent(&mut recent, "/file1.md".to_string(), 3);
    add_recent(&mut recent, "/file2.md".to_string(), 3);
    add_recent(&mut recent, "/file3.md".to_string(), 3);

    assert_eq!(recent.len(), 3);
    assert_eq!(recent[0], "/file3.md");
    assert_eq!(recent[2], "/file1.md");

    // An existing file moves to the front.
    add_recent(&mut recent, "/file1.md".to_string(), 3);
    assert_eq!(recent[0], "/file1.md");
    assert_eq!(recent.len(), 3);

    // A new file pushes the oldest out.
    add_recent(&mut recent, "/file4.md".to_string(), 3);
    assert_eq!(recent.len(), 3);
    assert_eq!(recent[0], "/file4.md");
    assert!(!recent.contains(&"/file2.md".to_string()));
    assert_eq!(recent, strings(&["/file4.md", "/file1.md", "/file3.md"]));
}

#[test]
fn test_add_recent_zero_limit() {
    let mut recent = strings(&["/a"]);
    add_recent(&mut recent, "/b".to_string(), 0);
    assert!(recent.is_empty());
}

#[test]
fn test_dedup_paths_keeps_first() {
    let list = strings(&["/a", "/b", "/a", "/c", "/b"]);
    assert_eq!(dedup_paths(list), strings(&["/a", "/b", "/c"]));
    assert_eq!(dedup_paths(Vec::new()), Vec::<String>::new());
}

#[test]
fn test_strip_verbatim_prefix() {
    assert_eq!(strip_verbatim_prefix("\\\\?\\C:\\docs\\a.md"), "C:\\docs\\a.md");
    assert_eq!(strip_verbatim_prefix("C:\\docs\\a.md"), "C:\\docs\\a.md");
    assert_eq!(strip_verbatim_prefix("/home/u/a.md"), "/home/u/a.md");
    assert_eq!(strip_verbatim_prefix("\\\\?"), "\\\\?");
}

#[test]
fn test_clamps() {
    assert_eq!(clamp_u8(0, 1, 8), 1);
    assert_eq!(clamp_u8(100, 1, 8), 8);
    assert_eq!(clamp_u8(4, 1, 8), 4);
    assert_eq!(clamp_u32(7, 10, 20), 10);
    assert_eq!(clamp_u32(25, 10, 20), 20);
    assert_eq!(sanitize_tab_size(100), MAX_TAB_SIZE);
    assert_eq!(sanitize_tab_size(0), MIN_TAB_SIZE);
    assert_eq!(sanitize_tab_size(4), 4);
    assert_eq!(sanitize_auto_save_delay(100), 5000);
    assert_eq!(sanitize_auto_save_delay(30000), 30000);
    assert_eq!(sanitize_auto_save_delay(1_000_000), 300000);
}

#[test]
fn test_recent_limit_and_tab_index() {
    assert_eq!(sanitize_recent_files_limit(0), 10);
    assert_eq!(sanitize_recent_files_limit(500), 100);
    assert_eq!(sanitize_recent_files_limit(20), 20);
    assert_eq!(sanitize_active_tab_index(5, 3), 2);
    assert_eq!(sanitize_active_tab_index(1, 3), 1);
    assert_eq!(sanitize_active_tab_index(7, 0), 7);
}

#[test]
fn test_pipeline_and_line_width() {
    assert_eq!(sanitize_pipeline_limits(0, 0, 0), (100, 1024, 1000));
    assert_eq!(sanitize_pipeline_limits(u32::MAX, u32::MAX, u32::MAX), (5000, 10 * 1024 * 1024, 300000));
    assert_eq!(sanitize_max_line_width(MaxLineWidth::Custom(10)), MaxLineWidth::Custom(400));
    assert_eq!(sanitize_max_line_width(MaxLineWidth::Custom(5000)), MaxLineWidth::Custom(2000));
    assert_eq!(sanitize_max_line_width(MaxLineWidth::Custom(800)), MaxLineWidth::Custom(800));
    assert_eq!(sanitize_max_line_width(MaxLineWidth::Col80), MaxLineWidth::Col80);
}

#[test]
fn test_key_binding_matches_modifiers() {
    let save = KeyBinding::new(KeyModifiers::ctrl(), KeyCode::S);
    let cmd = InputModifiers { ctrl: true, command: true, shift: false, alt: false };
    assert!(save.matches(&cmd, true));
    assert!(!save.matches(&cmd, false));
    let shifted = InputModifiers { ctrl: true, command: true, shift: true, alt: false };
    assert!(!save.matches(&shifted, true));

    let raw = KeyBinding::new(KeyModifiers::raw_ctrl(), KeyCode::S);
    let physical_ctrl = InputModifiers { ctrl: true, command: false, shift: false, alt: false };
    assert!(raw.matches(&physical_ctrl, true));
    assert!(!raw.matches(&cmd, true));
}

#[test]
fn test_language_from_detected_locale() {
    assert_eq!(Language::from_detected_locale(Some("de-DE".to_string())), Language::German);
    assert_eq!(Language::from_detected_locale(Some("xx".to_string())), Language::English);
    assert_eq!(Language::from_detected_locale(None), Language::English);
    for lang in Language::all() {
        assert_eq!(Language::from_locale_code(lang.locale_code()), Some(*lang));
    }
}

#[test]
fn test_sanitize_tab_size() {
    assert_eq!(sanitize_tab_size(0), MIN_TAB_SIZE);
    assert_eq!(sanitize_tab_size(20), MAX_TAB_SIZE);
}

#[test]
fn test_sanitize_recent_files() {
    let limit = sanitize_recent_files_limit(2);
    let mut recent = strings(&["/file1.md", "/file2.md", "/file3.md"]);
    recent.truncate(limit);
    assert_eq!(recent.len(), 2);
}

#[test]
fn test_sanitize_active_tab_index() {
    assert_eq!(sanitize_active_tab_index(5, 1), 0);
}

#[test]
fn test_settings_sanitize_custom_line_width() {
    assert_eq!(sanitize_max_line_width(MaxLineWidth::Custom(100)), MaxLineWidth::Custom(MIN_CUSTOM_LINE_WIDTH));
    assert_eq!(sanitize_max_line_width(MaxLineWidth::Custom(5000)), MaxLineWidth::Custom(MAX_CUSTOM_LINE_WIDTH));
    assert_eq!(sanitize_max_line_width(MaxLineWidth::Custom(800)), MaxLineWidth::Custom(800));
}

#[test]
fn test_modifier_labels_on_macos() {
    let mods = KeyModifiers { ctrl: true, shift: true, alt: true, raw_ctrl: false };
    assert_eq!(mods.display_string_on(true), "Cmd+Shift+Option");
    assert_eq!(mods.display_string_on(false), "Ctrl+Shift+Alt");
    assert_eq!(mods.display_string(), "Ctrl+Shift+Alt");
    assert_eq!(KeyModifiers::raw_ctrl().display_string_on(true), "Ctrl");
    let save = KeyBinding::new(KeyModifiers::ctrl(), KeyCode::S);
    assert_eq!(save.display_string_on(true), "Cmd+S");
    assert_eq!(save.display_string_on(false), "Ctrl+S");
}

#[test]
fn test_is_custom_follows_set_and_resets() {
    let mut shortcuts = ferrite::settings::KeyboardShortcuts::default();
    let cmd = ferrite::settings::ShortcutCommand::Save;
    let other = ferrite::settings::ShortcutCommand::Open;
    let binding = KeyBinding::new(KeyModifiers::alt(), KeyCode::S);
    assert!(!shortcuts.is_custom(cmd));
    shortcuts.set(cmd, binding);
    assert!(shortcuts.is_custom(cmd));
    shortcuts.reset(other);
    assert!(shortcuts.is_custom(cmd));
    shortcuts.reset(cmd);
    assert!(!shortcuts.is_custom(cmd));
    shortcuts.set(cmd, binding);
    shortcuts.set(other, binding);
    shortcuts.reset_all();
    assert!(!shortcuts.is_custom(cmd));
    assert!(!shortcuts.is_custom(other));
}

#[test]
fn test_display_names_distinct() {
    let all = ferrite::settings::ShortcutCommand::all();
    for (i, a) in all.iter().enumerate() {
        assert!(!a.display_name().is_empty());
        for b in &all[i + 1..] {
            assert_ne!(a.display_name(), b.display_name());
        }
    }
}
