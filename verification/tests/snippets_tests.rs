use ferrite::snippets::{apply_snippet, find_trigger_at_cursor, SnippetConfig, SnippetManager, SnippetMatch};

/// A manager holding the default configuration (no user snippets).
fn default_manager() -> SnippetManager {
    SnippetManager::with_config(SnippetConfig::default(), String::from("snippets.json"))
}

#[test]
fn test_snippet_config_default() {
    let config = SnippetConfig::default();
    assert!(config.enabled);
    assert!(config.snippets.is_empty());
}

#[test]
fn test_builtin_snippets() {
    // Test that built-in snippets return Some
    assert!(SnippetConfig::builtin_expansion(";date").is_some());
    assert!(SnippetConfig::builtin_expansion(";time").is_some());
    assert!(SnippetConfig::builtin_expansion(";datetime").is_some());
    assert!(SnippetConfig::builtin_expansion(";now").is_some());

    // Test that non-built-in returns None
    assert!(SnippetConfig::builtin_expansion("custom").is_none());
    assert!(SnippetConfig::builtin_expansion(";notreal").is_none());
}

#[test]
fn test_builtin_date_format() {
    let expansion = SnippetConfig::builtin_expansion(";date").unwrap();
    // Should be in YYYY-MM-DD format
    assert_eq!(expansion.len(), 10);
    assert!(expansion.chars().nth(4) == Some('-'));
    assert!(expansion.chars().nth(7) == Some('-'));
}

#[test]
fn test_builtin_time_format() {
    let expansion = SnippetConfig::builtin_expansion(";time").unwrap();
    // Should be in HH:MM format
    assert_eq!(expansion.len(), 5);
    assert!(expansion.chars().nth(2) == Some(':'));
}

#[test]
fn test_custom_snippet() {
    let mut config = SnippetConfig::default();
    config.set_snippet("sig".to_string(), "Best regards,\nJohn".to_string());

    assert_eq!(
        config.get_expansion("sig"),
        Some("Best regards,\nJohn".to_string())
    );
}

#[test]
fn test_custom_snippet_removal() {
    let mut config = SnippetConfig::default();
    config.set_snippet("test".to_string(), "Test expansion".to_string());

    let removed = config.remove_snippet("test");
    assert_eq!(removed, Some("Test expansion".to_string()));
    assert!(config.get_expansion("test").is_none());
}

#[test]
fn test_disabled_snippets() {
    let mut config = SnippetConfig::default();
    config.enabled = false;
    config.set_snippet("test".to_string(), "expansion".to_string());

    // Should return None when disabled
    assert!(config.get_expansion("test").is_none());
    assert!(config.get_expansion(";date").is_none());
}

#[test]
fn test_is_builtin() {
    assert!(SnippetConfig::is_builtin(";date"));
    assert!(SnippetConfig::is_builtin(";time"));
    assert!(SnippetConfig::is_builtin(";datetime"));
    assert!(SnippetConfig::is_builtin(";now"));
    assert!(!SnippetConfig::is_builtin("custom"));
    assert!(!SnippetConfig::is_builtin(";custom"));
}

#[test]
fn test_find_trigger_at_cursor() {
    let manager = default_manager();

    // Test with built-in trigger
    let text = "Hello ;date";
    let cursor = text.len();
    let result = find_trigger_at_cursor(text, cursor, &manager);
    assert!(result.is_some());
    let m = result.unwrap();
    assert_eq!(m.trigger, ";date");
    assert_eq!(m.start, 6);
    assert_eq!(m.end, 11);

    // Test with text and trigger
    let text = "Start ;time more";
    let cursor = 11; // Just after ;time
    let result = find_trigger_at_cursor(text, cursor, &manager);
    assert!(result.is_some());
    assert_eq!(result.unwrap().trigger, ";time");

    // Test with non-trigger word
    let text = "Hello world";
    let cursor = text.len();
    let result = find_trigger_at_cursor(text, cursor, &manager);
    assert!(result.is_none());
}

#[test]
fn test_find_trigger_at_start_of_line() {
    let manager = default_manager();

    // Trigger at start of text
    let text = ";date";
    let cursor = text.len();
    let result = find_trigger_at_cursor(text, cursor, &manager);
    assert!(result.is_some());
    let m = result.unwrap();
    assert_eq!(m.start, 0);
    assert_eq!(m.end, 5);
}

#[test]
fn test_apply_snippet() {
    let text = "Today is ;date and time is ;time.";
    let snippet = SnippetMatch {
        start: 9,
        end: 14,
        trigger: ";date".to_string(),
        expansion: "2026-01-16".to_string(),
    };

    let (new_text, new_cursor) = apply_snippet(text, &snippet);
    assert_eq!(new_text, "Today is 2026-01-16 and time is ;time.");
    assert_eq!(new_cursor, 19); // End of expansion
}

#[test]
fn test_apply_snippet_at_end() {
    let text = "Current time: ;time";
    let snippet = SnippetMatch {
        start: 14,
        end: 19,
        trigger: ";time".to_string(),
        expansion: "12:30".to_string(),
    };

    let (new_text, new_cursor) = apply_snippet(text, &snippet);
    assert_eq!(new_text, "Current time: 12:30");
    assert_eq!(new_cursor, 19);
}

#[test]
fn test_apply_multiline_snippet() {
    let text = "Hello sig";
    let snippet = SnippetMatch {
        start: 6,
        end: 9,
        trigger: "sig".to_string(),
        expansion: "Best regards,\nJohn".to_string(),
    };

    let (new_text, new_cursor) = apply_snippet(text, &snippet);
    assert_eq!(new_text, "Hello Best regards,\nJohn");
    assert_eq!(new_cursor, 24);
}

fn all_digits(s: &str) -> bool {
    !s.is_empty() && s.chars().all(|c| c.is_ascii_digit())
}

#[test]
fn test_builtin_expansion_shapes() {
    let date = SnippetConfig::builtin_expansion(";date").unwrap();
    let parts: Vec<&str> = date.split('-').collect();
    assert_eq!(parts.len(), 3);
    assert_eq!(parts[0].len(), 4);
    assert!(parts.iter().all(|p| all_digits(p)));
    let month: u32 = parts[1].parse().unwrap();
    let day: u32 = parts[2].parse().unwrap();
    assert!((1..=12).contains(&month) && (1..=31).contains(&day));

    let time = SnippetConfig::builtin_expansion(";time").unwrap();
    assert_eq!(time.len(), 5);
    assert_eq!(&time[2..3], ":");
    let hour: u32 = time[0..2].parse().unwrap();
    let minute: u32 = time[3..5].parse().unwrap();
    assert!(hour < 24 && minute < 60);

    let datetime = SnippetConfig::builtin_expansion(";datetime").unwrap();
    assert_eq!(datetime.len(), 16);
    assert_eq!(&datetime[10..11], " ");

    let now = SnippetConfig::builtin_expansion(";now").unwrap();
    assert_eq!(&now[10..11], "T");
    assert_eq!(&now[now.len() - 3..now.len() - 2], ":");
    assert!(now[now.len() - 6..].starts_with('+') || now[now.len() - 6..].starts_with('-'));

    assert_eq!(SnippetConfig::builtin_expansion(";other"), None);
}
