use ferrite::settings::{KeyBinding, KeyCode, KeyModifiers, KeyboardShortcuts, Language, LogLevel, MaxLineWidth, MinimapMode, ShortcutCommand, ViewMode};

#[test]
fn test_view_mode_toggle() {
    // Raw → Split → Rendered → Raw
    assert_eq!(ViewMode::Raw.toggle(), ViewMode::Split);
    assert_eq!(ViewMode::Split.toggle(), ViewMode::Rendered);
    assert_eq!(ViewMode::Rendered.toggle(), ViewMode::Raw);
}

#[test]
fn test_view_mode_labels() {
    assert_eq!(ViewMode::Raw.label(), "Raw");
    assert_eq!(ViewMode::Rendered.label(), "Rendered");
    assert_eq!(ViewMode::Split.label(), "Split");
    assert_eq!(ViewMode::Raw.icon(), "📝");
    assert_eq!(ViewMode::Rendered.icon(), "👁");
    assert_eq!(ViewMode::Split.icon(), "▌▐");
}

#[test]
fn test_view_mode_shows_raw_rendered() {
    assert!(ViewMode::Raw.shows_raw());
    assert!(!ViewMode::Raw.shows_rendered());
    assert!(!ViewMode::Rendered.shows_raw());
    assert!(ViewMode::Rendered.shows_rendered());
    assert!(ViewMode::Split.shows_raw());
    assert!(ViewMode::Split.shows_rendered());
}

#[test]
fn test_log_level_default() {
    assert_eq!(LogLevel::default(), LogLevel::Warn);
}

#[test]
fn test_log_level_display_name() {
    assert_eq!(LogLevel::Debug.display_name(), "Debug");
    assert_eq!(LogLevel::Info.display_name(), "Info");
    assert_eq!(LogLevel::Warn.display_name(), "Warn");
    assert_eq!(LogLevel::Error.display_name(), "Error");
    assert_eq!(LogLevel::Off.display_name(), "Off");
}

#[test]
fn test_log_level_to_level_filter() {
    assert_eq!(LogLevel::Debug.to_level_filter(), log::LevelFilter::Debug);
    assert_eq!(LogLevel::Info.to_level_filter(), log::LevelFilter::Info);
    assert_eq!(LogLevel::Warn.to_level_filter(), log::LevelFilter::Warn);
    assert_eq!(LogLevel::Error.to_level_filter(), log::LevelFilter::Error);
    assert_eq!(LogLevel::Off.to_level_filter(), log::LevelFilter::Off);
}

#[test]
fn test_max_line_width_default() {
    assert_eq!(MaxLineWidth::default(), MaxLineWidth::Off);
}

#[test]
fn test_max_line_width_is_custom() {
    assert!(!MaxLineWidth::Off.is_custom());
    assert!(!MaxLineWidth::Col80.is_custom());
    assert!(!MaxLineWidth::Col100.is_custom());
    assert!(!MaxLineWidth::Col120.is_custom());
    assert!(MaxLineWidth::Custom(600).is_custom());
}

#[test]
fn test_max_line_width_custom_value() {
    assert_eq!(MaxLineWidth::Off.custom_value(), None);
    assert_eq!(MaxLineWidth::Col80.custom_value(), None);
    assert_eq!(MaxLineWidth::Custom(600).custom_value(), Some(600));
}

#[test]
fn test_language_default() {
    assert_eq!(Language::default(), Language::English);
}

#[test]
fn test_language_locale_code() {
    assert_eq!(Language::English.locale_code(), "en");
}

#[test]
fn test_language_native_name() {
    assert_eq!(Language::English.native_name(), "English");
}

#[test]
fn test_language_from_locale_code_english_variants() {
    // Full locale with hyphen
    assert_eq!(Language::from_locale_code("en-US"), Some(Language::English));
    assert_eq!(Language::from_locale_code("en-GB"), Some(Language::English));
    assert_eq!(Language::from_locale_code("en-AU"), Some(Language::English));

    // Full locale with underscore
    assert_eq!(Language::from_locale_code("en_US"), Some(Language::English));
    assert_eq!(Language::from_locale_code("en_GB"), Some(Language::English));

    // Language only
    assert_eq!(Language::from_locale_code("en"), Some(Language::English));

    // Case-insensitive
    assert_eq!(Language::from_locale_code("EN"), Some(Language::English));
    assert_eq!(Language::from_locale_code("En-Us"), Some(Language::English));
    assert_eq!(Language::from_locale_code("EN_us"), Some(Language::English));
}

#[test]
fn test_language_from_locale_code_unknown() {
    // Unknown locales should return None
    assert_eq!(Language::from_locale_code("unknown"), None);
    assert_eq!(Language::from_locale_code("xx-YY"), None);
    assert_eq!(Language::from_locale_code(""), None);

    // Currently unsupported locales
    assert_eq!(Language::from_locale_code("ko"), None);
    assert_eq!(Language::from_locale_code("fr"), None);
}

#[test]
fn test_language_from_locale_code_supported_languages() {
    // Chinese Simplified
    assert_eq!(Language::from_locale_code("zh-CN"), Some(Language::ChineseSimplified));
    assert_eq!(Language::from_locale_code("zh_Hans"), Some(Language::ChineseSimplified));
    assert_eq!(Language::from_locale_code("zh"), Some(Language::ChineseSimplified));

    // German
    assert_eq!(Language::from_locale_code("de"), Some(Language::German));
    assert_eq!(Language::from_locale_code("de-DE"), Some(Language::German));
    assert_eq!(Language::from_locale_code("de_AT"), Some(Language::German));

    // Japanese
    assert_eq!(Language::from_locale_code("ja"), Some(Language::Japanese));
    assert_eq!(Language::from_locale_code("ja-JP"), Some(Language::Japanese));
}

#[test]
fn test_minimap_mode_default() {
    assert_eq!(MinimapMode::default(), MinimapMode::Auto);
}

#[test]
fn test_minimap_mode_display_name() {
    assert_eq!(MinimapMode::Auto.display_name(), "Auto");
    assert_eq!(MinimapMode::Semantic.display_name(), "Semantic");
    assert_eq!(MinimapMode::Pixel.display_name(), "Pixel");
}

#[test]
fn test_minimap_mode_use_semantic() {
    // Auto mode: semantic for markdown, pixel for others
    assert!(MinimapMode::Auto.use_semantic(true));  // markdown -> semantic
    assert!(!MinimapMode::Auto.use_semantic(false)); // non-markdown -> pixel

    // Semantic mode: always semantic regardless of file type
    assert!(MinimapMode::Semantic.use_semantic(true));
    assert!(MinimapMode::Semantic.use_semantic(false));

    // Pixel mode: always pixel regardless of file type
    assert!(!MinimapMode::Pixel.use_semantic(true));
    assert!(!MinimapMode::Pixel.use_semantic(false));
}

#[test]
fn test_key_modifiers_display_string() {
    assert_eq!(KeyModifiers::none().display_string(), "");
    
    let ctrl_only = KeyModifiers::ctrl();
    let display = ctrl_only.display_string();
    // On macOS it's "Cmd", on others "Ctrl"
    assert!(display == "Ctrl" || display == "Cmd");
    
    let ctrl_shift = KeyModifiers::ctrl_shift();
    let display = ctrl_shift.display_string();
    assert!(display.contains("Shift"));
}

#[test]
fn test_key_code_display_string() {
    assert_eq!(KeyCode::S.display_string(), "S");
    assert_eq!(KeyCode::F1.display_string(), "F1");
    assert_eq!(KeyCode::Tab.display_string(), "Tab");
    assert_eq!(KeyCode::ArrowUp.display_string(), "↑");
    assert_eq!(KeyCode::Backtick.display_string(), "`");
}

#[test]
fn test_key_binding_display_string() {
    let binding = KeyBinding::new(KeyModifiers::ctrl(), KeyCode::S);
    let display = binding.display_string();
    assert!(display.contains("S"));
    
    let binding_no_mods = KeyBinding::new(KeyModifiers::none(), KeyCode::F11);
    assert_eq!(binding_no_mods.display_string(), "F11");
}

#[test]
fn test_shortcut_command_default_binding() {
    let binding = ShortcutCommand::Save.default_binding();
    assert!(binding.modifiers.ctrl);
    assert!(!binding.modifiers.shift);
    assert_eq!(binding.key, KeyCode::S);

    let binding = ShortcutCommand::SaveAs.default_binding();
    assert!(binding.modifiers.ctrl);
    assert!(binding.modifiers.shift);
    assert_eq!(binding.key, KeyCode::S);

    let binding = ShortcutCommand::ToggleZenMode.default_binding();
    assert!(!binding.modifiers.ctrl);
    assert_eq!(binding.key, KeyCode::F11);
}

#[test]
fn test_shortcut_command_category() {
    assert_eq!(ShortcutCommand::Save.category(), "File");
    assert_eq!(ShortcutCommand::Find.category(), "Search");
    assert_eq!(ShortcutCommand::FormatBold.category(), "Format");
    assert_eq!(ShortcutCommand::ToggleZenMode.category(), "View");
}

#[test]
fn test_keyboard_shortcuts_default() {
    let shortcuts = KeyboardShortcuts::default();
    // Default shortcuts should return default bindings
    let save_binding = shortcuts.get(ShortcutCommand::Save);
    assert_eq!(save_binding.key, KeyCode::S);
    assert!(save_binding.modifiers.ctrl);
}

#[test]
fn test_keyboard_shortcuts_custom_binding() {
    let mut shortcuts = KeyboardShortcuts::default();
    
    // Set a custom binding
    let custom = KeyBinding::new(KeyModifiers::alt(), KeyCode::S);
    shortcuts.set(ShortcutCommand::Save, custom);
    
    // Check it returns the custom binding
    let binding = shortcuts.get(ShortcutCommand::Save);
    assert!(binding.modifiers.alt);
    assert!(!binding.modifiers.ctrl);
    assert!(shortcuts.is_custom(ShortcutCommand::Save));
}

#[test]
fn test_keyboard_shortcuts_reset() {
    let mut shortcuts = KeyboardShortcuts::default();
    
    // Set a custom binding
    shortcuts.set(ShortcutCommand::Save, KeyBinding::new(KeyModifiers::alt(), KeyCode::S));
    assert!(shortcuts.is_custom(ShortcutCommand::Save));
    
    // Reset to default
    shortcuts.reset(ShortcutCommand::Save);
    assert!(!shortcuts.is_custom(ShortcutCommand::Save));
    
    // Should return default binding again
    let binding = shortcuts.get(ShortcutCommand::Save);
    assert!(binding.modifiers.ctrl);
}

#[test]
fn test_keyboard_shortcuts_reset_all() {
    let mut shortcuts = KeyboardShortcuts::default();
    
    // Set some custom bindings
    shortcuts.set(ShortcutCommand::Save, KeyBinding::new(KeyModifiers::alt(), KeyCode::S));
    shortcuts.set(ShortcutCommand::Open, KeyBinding::new(KeyModifiers::alt(), KeyCode::O));
    
    // Reset all
    shortcuts.reset_all();
    
    // All should be defaults now
    assert!(!shortcuts.is_custom(ShortcutCommand::Save));
    assert!(!shortcuts.is_custom(ShortcutCommand::Open));
}

#[test]
fn test_keyboard_shortcuts_conflict_detection() {
    let mut shortcuts = KeyboardShortcuts::default();
    
    // Get Save binding
    let save_binding = shortcuts.get(ShortcutCommand::Save);
    
    // There should be no conflict when checking against Save itself
    assert!(shortcuts.find_conflict(&save_binding, Some(ShortcutCommand::Save)).is_none());
    
    // If we don't exclude, Save should be found as using this binding
    assert_eq!(
        shortcuts.find_conflict(&save_binding, None),
        Some(ShortcutCommand::Save)
    );
}

#[test]
fn test_view_mode_all() {
    let all = ViewMode::all();
    assert_eq!(all.len(), 3);
    assert!(all.contains(&ViewMode::Raw));
    assert!(all.contains(&ViewMode::Rendered));
    assert!(all.contains(&ViewMode::Split));
}

#[test]
fn test_view_mode_description() {
    assert!(!ViewMode::Raw.description().is_empty());
    assert!(!ViewMode::Rendered.description().is_empty());
    assert!(!ViewMode::Split.description().is_empty());
    // Ensure descriptions are different
    assert_ne!(ViewMode::Raw.description(), ViewMode::Rendered.description());
    assert_ne!(ViewMode::Raw.description(), ViewMode::Split.description());
}

#[test]
fn test_log_level_all() {
    let all = LogLevel::all();
    assert_eq!(all.len(), 5);
    assert!(all.contains(&LogLevel::Debug));
    assert!(all.contains(&LogLevel::Info));
    assert!(all.contains(&LogLevel::Warn));
    assert!(all.contains(&LogLevel::Error));
    assert!(all.contains(&LogLevel::Off));
}

#[test]
fn test_language_all() {
    let all = Language::all();
    assert!(!all.is_empty());
    assert!(all.contains(&Language::English));
}

#[test]
fn test_minimap_mode_description() {
    // Verify descriptions are non-empty and different
    assert!(!MinimapMode::Auto.description().is_empty());
    assert!(!MinimapMode::Semantic.description().is_empty());
    assert!(!MinimapMode::Pixel.description().is_empty());
    assert_ne!(MinimapMode::Auto.description(), MinimapMode::Semantic.description());
    assert_ne!(MinimapMode::Auto.description(), MinimapMode::Pixel.description());
}

#[test]
fn test_minimap_mode_all() {
    let all = MinimapMode::all();
    assert_eq!(all.len(), 3);
    assert!(all.contains(&MinimapMode::Auto));
    assert!(all.contains(&MinimapMode::Semantic));
    assert!(all.contains(&MinimapMode::Pixel));
}

#[test]
fn test_shortcut_command_all() {
    let all = ShortcutCommand::all();
    assert!(!all.is_empty());
    assert!(all.contains(&ShortcutCommand::Save));
    assert!(all.contains(&ShortcutCommand::Open));
    assert!(all.contains(&ShortcutCommand::FormatBold));
}

#[test]
fn test_commands_by_category() {
    let categories = KeyboardShortcuts::commands_by_category();

    // Should have multiple categories
    assert!(!categories.is_empty());

    // Each category should have at least one command
    for (name, commands) in &categories {
        assert!(!name.is_empty());
        assert!(!commands.is_empty());
    }

    // Find "File" category
    let file_cat = categories.iter().find(|(name, _)| *name == "File");
    assert!(file_cat.is_some());
    let (_, file_commands) = file_cat.unwrap();
    assert!(file_commands.contains(&ShortcutCommand::Save));
}

#[test]
fn test_all_commands_listed_and_f10_found() {
    let all = ShortcutCommand::all();
    assert_eq!(all.len(), 53);
    assert!(all.contains(&ShortcutCommand::ToggleFullscreen));
    let shortcuts = KeyboardShortcuts::default();
    let f10 = ShortcutCommand::ToggleFullscreen.default_binding();
    assert_eq!(shortcuts.find_conflict(&f10, None), Some(ShortcutCommand::ToggleFullscreen));
    assert_eq!(shortcuts.find_conflict(&f10, Some(ShortcutCommand::ToggleFullscreen)), None);
    let view = KeyboardShortcuts::commands_by_category()
        .into_iter()
        .find(|(name, _)| *name == "View")
        .unwrap();
    assert!(view.1.contains(&ShortcutCommand::ToggleFullscreen));
}
