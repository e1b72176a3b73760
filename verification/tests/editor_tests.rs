use ferrite::cursor::{Cursor, Selection};
use ferrite::editor::FerriteEditor;
use ferrite::input::InputModifiers;
use ferrite::settings::{EditorFont, KeyCode};
use std::hash::{DefaultHasher, Hash, Hasher};

fn no_mods() -> InputModifiers {
    InputModifiers { ctrl: false, command: false, shift: false, alt: false }
}

fn text_of(editor: &FerriteEditor) -> String {
    editor.buffer().to_string()
}

#[test]
fn test_new_editor() {
    let editor = FerriteEditor::new();
    assert!(editor.is_empty());
    assert_eq!(editor.line_count(), 1);
    assert_eq!(editor.cursor(), Cursor::start());
    assert!(!editor.has_selection());
}

#[test]
fn editor_test_from_string() {
    let editor = FerriteEditor::from_string("Hello\nWorld\nTest");
    assert!(!editor.is_empty());
    assert_eq!(editor.line_count(), 3);
}

#[test]
fn test_from_string_empty() {
    let editor = FerriteEditor::from_string("");
    assert!(editor.is_empty());
    assert_eq!(editor.line_count(), 1);
}

#[test]
fn editor_test_default() {
    let editor = FerriteEditor::default();
    assert!(editor.is_empty());
}

#[test]
fn test_set_cursor() {
    let mut editor = FerriteEditor::from_string("Hello\nWorld");

    editor.set_cursor(Cursor::new(1, 3));
    assert_eq!(editor.cursor(), Cursor::new(1, 3));
    assert!(!editor.has_selection());

    editor.set_cursor(Cursor::new(100, 0));
    assert_eq!(editor.cursor().line, 1);

    editor.set_cursor(Cursor::new(0, 100));
    assert_eq!(editor.cursor().column, 5);
}

#[test]
fn test_selection() {
    let mut editor = FerriteEditor::from_string("Hello\nWorld");

    let sel = Selection::new(Cursor::new(0, 0), Cursor::new(0, 5));
    editor.set_selection(sel);

    assert!(editor.has_selection());
    assert_eq!(editor.selection().anchor, Cursor::new(0, 0));
    assert_eq!(editor.selection().head, Cursor::new(0, 5));
    assert_eq!(editor.cursor(), Cursor::new(0, 5));
}

#[test]
fn test_selected_text() {
    let mut editor = FerriteEditor::from_string("Hello World");

    assert_eq!(editor.selected_text(), "");

    editor.set_selection(Selection::new(Cursor::new(0, 0), Cursor::new(0, 5)));
    assert_eq!(editor.selected_text(), "Hello");

    editor.set_selection(Selection::new(Cursor::new(0, 6), Cursor::new(0, 11)));
    assert_eq!(editor.selected_text(), "World");
}

#[test]
fn test_selected_text_multiline() {
    let mut editor = FerriteEditor::from_string("Hello\nWorld\nTest");

    editor.set_selection(Selection::new(Cursor::new(0, 1), Cursor::new(1, 3)));
    assert_eq!(editor.selected_text(), "ello\nWor");
}

#[test]
fn test_delete_selection() {
    let mut editor = FerriteEditor::from_string("Hello World");

    assert!(!editor.delete_selection());
    assert_eq!(editor.buffer().to_string(), "Hello World");

    editor.set_selection(Selection::new(Cursor::new(0, 0), Cursor::new(0, 6)));
    assert!(editor.delete_selection());
    assert_eq!(editor.buffer().to_string(), "World");
    assert!(!editor.has_selection());
    assert_eq!(editor.cursor(), Cursor::new(0, 0));
}

#[test]
fn test_buffer_access() {
    let mut editor = FerriteEditor::from_string("Test");
    assert_eq!(editor.buffer().line_count(), 1);
    {
        let _buffer = editor.buffer_mut();
    }
    assert!(editor.is_content_dirty());
}

#[test]
fn test_history_access() {
    let mut editor = FerriteEditor::new();
    assert!(!editor.history().can_undo());
    assert!(!editor.history().can_redo());
    editor.history_mut().clear();
}

#[test]
fn test_mark_dirty() {
    let mut editor = FerriteEditor::new();
    editor.mark_dirty();
    assert!(editor.is_content_dirty());
}

#[test]
fn test_large_buffer() {
    let content: String = (0..1000).map(|i| format!("Line {i}\n")).collect();
    let editor = FerriteEditor::from_string(&content);
    assert_eq!(editor.line_count(), 1001);
}

#[test]
fn editor_test_unicode_content() {
    let editor = FerriteEditor::from_string("こんにちは\n世界\n🌍🌎🌏");
    assert_eq!(editor.line_count(), 3);
}

#[test]
fn test_cursor_with_unicode() {
    let mut editor = FerriteEditor::from_string("こんにちは");

    editor.set_cursor(Cursor::new(0, 2));
    assert_eq!(editor.cursor().column, 2);

    editor.set_cursor(Cursor::new(0, 100));
    assert_eq!(editor.cursor().column, 5);
}

#[test]
fn test_long_lines_content() {
    let long_line = "x".repeat(500);
    let content = format!("{long_line}\nShort\n{long_line}");
    let editor = FerriteEditor::from_string(&content);

    assert_eq!(editor.line_count(), 3);
    if let Some(line) = editor.buffer().get_line(0) {
        let line_len = line.trim_end_matches(['\r', '\n']).chars().count();
        assert_eq!(line_len, 500);
    }
}

// ─────────────────────────────────────────────────────────────────────────────
// Position conversions
// ─────────────────────────────────────────────────────────────────────────────

#[test]
fn test_char_pos_and_line_conversions() {
    let editor = FerriteEditor::from_string("ab\ncde\nf");
    assert_eq!(editor.char_pos_to_line(0), 0);
    assert_eq!(editor.char_pos_to_line(3), 1);
    assert_eq!(editor.char_pos_to_line(7), 2);
    assert_eq!(editor.char_pos_to_line(100), 2);
    assert_eq!(editor.line_to_char_pos(0), 0);
    assert_eq!(editor.line_to_char_pos(1), 3);
    assert_eq!(editor.line_to_char_pos(2), 7);
    assert_eq!(editor.line_to_char_pos(9), 8);
    assert_eq!(editor.cursor_to_char_pos(Cursor::new(1, 2)), 5);
    assert_eq!(editor.char_pos_to_cursor(5), Cursor::new(1, 2));
    assert_eq!(editor.char_pos_to_cursor(100), Cursor::new(2, 1));
    assert_eq!(editor.byte_pos_to_line(4), 1);
}

// ─────────────────────────────────────────────────────────────────────────────
// Multiple cursors
// ─────────────────────────────────────────────────────────────────────────────

#[test]
fn test_add_cursor_merges_duplicates() {
    let mut editor = FerriteEditor::from_string("one\ntwo\nthree");
    assert_eq!(editor.cursor_count(), 1);
    editor.add_cursor(Cursor::new(1, 0));
    assert_eq!(editor.cursor_count(), 2);
    assert!(editor.has_multiple_cursors());
    // A cursor where one already is merges away.
    editor.add_cursor(Cursor::new(1, 0));
    assert_eq!(editor.cursor_count(), 2);
    editor.clear_extra_cursors();
    assert_eq!(editor.cursor_count(), 1);
}

#[test]
fn test_insert_text_at_all_cursors() {
    let mut editor = FerriteEditor::from_string("ab\ncd");
    editor.set_cursor(Cursor::new(0, 1));
    editor.add_cursor(Cursor::new(1, 1));
    editor.insert_text_at_all_cursors("X");
    assert_eq!(text_of(&editor), "aXb\ncXd");
    assert!(editor.history().can_undo());
    assert!(editor.is_content_dirty());
}

#[test]
fn test_backspace_at_all_cursors() {
    let mut editor = FerriteEditor::from_string("ab\ncd");
    editor.set_cursor(Cursor::new(0, 1));
    editor.add_cursor(Cursor::new(1, 1));
    editor.backspace_at_all_cursors();
    assert_eq!(text_of(&editor), "b\nd");
}

#[test]
fn test_delete_at_all_cursors() {
    let mut editor = FerriteEditor::from_string("ab\ncd");
    editor.set_cursor(Cursor::new(0, 0));
    editor.add_cursor(Cursor::new(1, 0));
    editor.delete_at_all_cursors();
    assert_eq!(text_of(&editor), "b\nd");
}

#[test]
fn test_backspace_at_start_does_nothing() {
    let mut editor = FerriteEditor::from_string("ab");
    editor.set_cursor(Cursor::new(0, 0));
    editor.backspace_at_all_cursors();
    assert_eq!(text_of(&editor), "ab");
}

#[test]
fn test_move_all_cursors_right() {
    let mut editor = FerriteEditor::from_string("ab\ncd");
    editor.set_cursor(Cursor::new(0, 0));
    editor.add_cursor(Cursor::new(1, 0));
    editor.move_all_cursors(KeyCode::ArrowRight, &no_mods());
    let heads: Vec<Cursor> = editor.selections().iter().map(|s| s.head).collect();
    assert!(heads.contains(&Cursor::new(0, 1)));
    assert!(heads.contains(&Cursor::new(1, 1)));
}

// ─────────────────────────────────────────────────────────────────────────────
// Find and replace
// ─────────────────────────────────────────────────────────────────────────────

#[test]
fn test_replace_current_match() {
    let mut editor = FerriteEditor::from_string("foo bar foo");
    editor.set_search_matches(vec![(0, 3), (8, 11)], 0, false);
    assert_eq!(editor.current_match_text(), Some("foo".to_string()));
    assert!(editor.replace_current_match("baz!"));
    assert_eq!(text_of(&editor), "baz! bar foo");
    // The remaining match moved by one byte and is now current.
    assert_eq!(editor.current_match_text(), Some("foo".to_string()));
    assert!(editor.replace_current_match("x"));
    assert_eq!(text_of(&editor), "baz! bar x");
    assert!(!editor.replace_current_match("y"));
}

#[test]
fn test_replace_all_matches() {
    let mut editor = FerriteEditor::from_string("a-a-a");
    editor.set_search_matches(vec![(0, 1), (2, 3), (4, 5)], 0, false);
    assert_eq!(editor.replace_all_matches("bb"), 3);
    assert_eq!(text_of(&editor), "bb-bb-bb");
    assert_eq!(editor.replace_all_matches("c"), 0);
    assert_eq!(editor.current_match_text(), None);
}

#[test]
fn test_configure_highlights() {
    let mut editor = FerriteEditor::from_string("x\ny");
    editor.configure_highlights(Some(vec![(2, 3)]), 0, true, true, None);
    assert!(editor.is_bracket_matching_enabled());
    assert_eq!(editor.search_matches.len(), 1);
    assert_eq!(editor.search_matches[0].line, 1);
    assert_eq!(editor.bracket_colors(), None);
    editor.configure_highlights(None, 0, false, false, None);
    assert!(editor.search_matches.is_empty());
    assert!(!editor.is_bracket_matching_enabled());
}

// ─────────────────────────────────────────────────────────────────────────────
// Auto-close
// ─────────────────────────────────────────────────────────────────────────────

#[test]
fn test_closing_brackets() {
    assert_eq!(FerriteEditor::get_closing_bracket('('), Some(')'));
    assert_eq!(FerriteEditor::get_closing_bracket('['), Some(']'));
    assert_eq!(FerriteEditor::get_closing_bracket('{'), Some('}'));
    assert_eq!(FerriteEditor::get_closing_bracket('"'), Some('"'));
    assert_eq!(FerriteEditor::get_closing_bracket('a'), None);
    assert!(FerriteEditor::is_closing_bracket(')'));
    assert!(!FerriteEditor::is_closing_bracket('('));
}

#[test]
fn test_handle_auto_close_inserts_pair() {
    let mut editor = FerriteEditor::from_string("");
    editor.set_auto_close_brackets(true);
    assert!(editor.handle_auto_close('('));
    assert_eq!(text_of(&editor), "()");
    assert_eq!(editor.cursor(), Cursor::new(0, 1));
    // Typing the closer right before itself only moves past it.
    assert!(editor.handle_auto_close(')'));
    assert_eq!(text_of(&editor), "()");
    assert_eq!(editor.cursor(), Cursor::new(0, 2));
}

#[test]
fn test_handle_auto_close_disabled() {
    let mut editor = FerriteEditor::from_string("");
    assert!(!editor.handle_auto_close('('));
    assert_eq!(text_of(&editor), "");
}

#[test]
fn test_char_at_and_before_cursor() {
    let mut editor = FerriteEditor::from_string("ab");
    editor.set_cursor(Cursor::new(0, 1));
    assert_eq!(editor.char_at_cursor(), Some('b'));
    assert_eq!(editor.char_before_cursor(), Some('a'));
    editor.set_cursor(Cursor::new(0, 2));
    assert_eq!(editor.char_at_cursor(), None);
}

// ─────────────────────────────────────────────────────────────────────────────
// Settings carried by the editor
// ─────────────────────────────────────────────────────────────────────────────

#[test]
fn test_wrap_and_preferred_column() {
    let mut editor = FerriteEditor::new();
    assert!(!editor.is_wrap_enabled());
    editor.enable_wrap();
    assert!(editor.is_wrap_enabled());
    editor.set_preferred_column(Some(4));
    assert_eq!(editor.preferred_column(), Some(4));
    editor.disable_wrap();
    assert!(!editor.is_wrap_enabled());
}

#[test]
fn test_take_cache_invalidation() {
    let mut editor = FerriteEditor::from_string("abc");
    editor.enable_wrap();
    assert!(editor.take_cache_invalidation());
    assert!(!editor.take_cache_invalidation());
}

#[test]
fn test_search_highlight_ranges() {
    let mut editor = FerriteEditor::from_string("foo bar foo");
    editor.set_search_matches(vec![(0, 3), (8, 11)], 1, false);
    assert_eq!(editor.search_highlight_ranges(0, 1), vec![(0, 3, false), (8, 11, true)]);

    let mut editor = FerriteEditor::from_string("a\nfoo\nb");
    editor.set_search_matches(vec![(2, 5)], 0, false);
    assert_eq!(editor.search_highlight_ranges(0, 1), vec![]);
    assert_eq!(editor.search_highlight_ranges(1, 2), vec![(2, 5, true)]);
    assert_eq!(editor.search_highlight_ranges(2, 3), vec![]);
}

#[test]
fn test_quote_not_paired_after_letter() {
    let mut editor = FerriteEditor::from_string("don");
    editor.set_auto_close_brackets(true);
    editor.set_cursor(Cursor::new(0, 3));
    assert!(!editor.handle_auto_close('\''));
    assert_eq!(text_of(&editor), "don");
    editor.set_cursor(Cursor::new(0, 0));
    assert!(editor.handle_auto_close('"'));
    assert_eq!(text_of(&editor), "\"\"don");
}

fn byte_hash(b: u8) -> u64 {
    let mut hasher = DefaultHasher::new();
    b.hash(&mut hasher);
    hasher.finish()
}

#[test]
fn test_syntax_theme_hash_follows_mode_and_name() {
    let mut editor = FerriteEditor::new();
    editor.set_syntax_dark_mode(false);
    assert_eq!(editor.syntax_theme_hash(), byte_hash(2));
    editor.set_syntax_dark_mode(true);
    assert_eq!(editor.syntax_theme_hash(), byte_hash(1));
    editor.configure_syntax(true, Some("rust".to_string()), true, Some("Monokai".to_string()));
    assert_eq!(editor.syntax_theme_hash(), ferrite::line_cache::hash_content("Monokai"));
    assert!(editor.take_cache_invalidation());
}

#[test]
fn test_set_font_family_invalidates_on_change() {
    let mut editor = FerriteEditor::new();
    assert_eq!(*editor.font_family(), EditorFont::Inter);
    editor.set_font_family(EditorFont::Inter);
    assert!(!editor.take_cache_invalidation());
    editor.set_font_family(EditorFont::JetBrainsMono);
    assert_eq!(*editor.font_family(), EditorFont::JetBrainsMono);
    assert!(editor.take_cache_invalidation());
    editor.set_font_family(EditorFont::Custom("Fira".to_string()));
    assert!(editor.take_cache_invalidation());
    editor.set_font_family(EditorFont::Custom("Fira".to_string()));
    assert!(!editor.take_cache_invalidation());
}

#[test]
fn test_overlapping_selections_merge_in_order() {
    let mut editor = FerriteEditor::from_string("abcdefghij");
    editor.set_selection(Selection::new(Cursor::new(0, 6), Cursor::new(0, 8)));
    editor.add_selection(Selection::new(Cursor::new(0, 1), Cursor::new(0, 3)));
    editor.add_selection(Selection::new(Cursor::new(0, 2), Cursor::new(0, 5)));
    let sels: Vec<Selection> = editor.selections().to_vec();
    assert_eq!(sels.len(), 2);
    // In document order, each ending before the next starts.
    assert_eq!(sels[0].start_pos(), Cursor::new(0, 1));
    assert_eq!(sels[0].end_pos(), Cursor::new(0, 5));
    assert_eq!(sels[1].start_pos(), Cursor::new(0, 6));
    assert_eq!(sels[1].end_pos(), Cursor::new(0, 8));
}

#[test]
fn test_insert_then_remove_restores_buffer() {
    let mut editor = FerriteEditor::from_string("hello world");
    editor.buffer_mut().insert(5, ",");
    assert_eq!(editor.buffer().slice(5, 6), ",");
    editor.buffer_mut().remove(5, 1);
    assert_eq!(text_of(&editor), "hello world");
}

#[test]
fn test_select_all_undo_redo() {
    let mut editor = FerriteEditor::from_string("ab\ncd");
    editor.select_all();
    assert_eq!(editor.selected_text(), "ab\ncd");
    assert_eq!(editor.selection().head, Cursor::new(1, 2));

    editor.set_cursor(Cursor::new(0, 1));
    editor.insert_text_at_all_cursors("X");
    assert_eq!(text_of(&editor), "aXb\ncd");
    assert!(editor.undo());
    assert_eq!(text_of(&editor), "ab\ncd");
    assert_eq!(editor.cursor(), Cursor::new(0, 1));
    assert!(editor.redo());
    assert_eq!(text_of(&editor), "aXb\ncd");
    assert_eq!(editor.cursor(), Cursor::new(0, 2));
    assert!(!editor.redo());
    assert!(editor.take_cache_invalidation());
}
