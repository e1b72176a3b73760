use ferrite::buffer::TextBuffer;
use ferrite::cursor::Cursor;
use ferrite::input::keyboard::handle_key_press;
use ferrite::input::{InputModifiers, InputResult, ViewLayout};
use ferrite::settings::KeyCode;

fn create_test_buffer(content: &str) -> TextBuffer {
    TextBuffer::from_string(content)
}

/// No modifier held.
fn no_mods() -> InputModifiers {
    InputModifiers { ctrl: false, command: false, shift: false, alt: false }
}

/// Ctrl held.
fn ctrl_mods() -> InputModifiers {
    InputModifiers { ctrl: true, command: false, shift: false, alt: false }
}

/// An unwrapped view that shows ten lines per page.
fn default_view() -> ViewLayout {
    ViewLayout { wrap_enabled: false, visual_rows: Vec::new(), page_lines: 10 }
}

#[test]
fn test_insert_newline() {
    let mut buffer = create_test_buffer("HelloWorld");
    let mut cursor = Cursor::new(0, 5);
    let view = default_view();

    let result = handle_key_press(KeyCode::Enter, &no_mods(), &mut buffer, &mut cursor, &view);

    assert_eq!(result, InputResult::TextChanged);
    assert_eq!(buffer.to_string(), "Hello\nWorld");
    assert_eq!(cursor.line, 1);
    assert_eq!(cursor.column, 0);
}

#[test]
fn test_backspace_within_line() {
    let mut buffer = create_test_buffer("Hello");
    let mut cursor = Cursor::new(0, 5);
    let view = default_view();

    let result = handle_key_press(KeyCode::Backspace, &no_mods(), &mut buffer, &mut cursor, &view);

    assert_eq!(result, InputResult::TextChanged);
    assert_eq!(buffer.to_string(), "Hell");
    assert_eq!(cursor.column, 4);
}

#[test]
fn test_backspace_joins_lines() {
    let mut buffer = create_test_buffer("Hello\nWorld");
    let mut cursor = Cursor::new(1, 0);
    let view = default_view();

    handle_key_press(KeyCode::Backspace, &no_mods(), &mut buffer, &mut cursor, &view);

    assert_eq!(buffer.to_string(), "HelloWorld");
    assert_eq!(cursor.line, 0);
    assert_eq!(cursor.column, 5);
}

#[test]
fn test_backspace_at_document_start() {
    let mut buffer = create_test_buffer("Hello");
    let mut cursor = Cursor::new(0, 0);
    let view = default_view();

    let result = handle_key_press(KeyCode::Backspace, &no_mods(), &mut buffer, &mut cursor, &view);

    assert_eq!(result, InputResult::NoChange);
    assert_eq!(buffer.to_string(), "Hello");
}

#[test]
fn test_delete_forward() {
    let mut buffer = create_test_buffer("Hello");
    let mut cursor = Cursor::new(0, 0);
    let view = default_view();

    let result = handle_key_press(KeyCode::Delete, &no_mods(), &mut buffer, &mut cursor, &view);

    assert_eq!(result, InputResult::TextChanged);
    assert_eq!(buffer.to_string(), "ello");
    assert_eq!(cursor.column, 0);
}

#[test]
fn test_delete_joins_lines() {
    let mut buffer = create_test_buffer("Hello\nWorld");
    let mut cursor = Cursor::new(0, 5);
    let view = default_view();

    handle_key_press(KeyCode::Delete, &no_mods(), &mut buffer, &mut cursor, &view);

    assert_eq!(buffer.to_string(), "HelloWorld");
}

#[test]
fn test_arrow_left() {
    let mut buffer = create_test_buffer("Hello");
    let mut cursor = Cursor::new(0, 3);
    let view = default_view();

    let result = handle_key_press(KeyCode::ArrowLeft, &no_mods(), &mut buffer, &mut cursor, &view);

    assert_eq!(result, InputResult::CursorMoved);
    assert_eq!(cursor.column, 2);
}

#[test]
fn test_arrow_left_wraps_to_previous_line() {
    let mut buffer = create_test_buffer("Hello\nWorld");
    let mut cursor = Cursor::new(1, 0);
    let view = default_view();

    handle_key_press(KeyCode::ArrowLeft, &no_mods(), &mut buffer, &mut cursor, &view);

    assert_eq!(cursor.line, 0);
    assert_eq!(cursor.column, 5);
}

#[test]
fn test_arrow_right() {
    let mut buffer = create_test_buffer("Hello");
    let mut cursor = Cursor::new(0, 2);
    let view = default_view();

    handle_key_press(KeyCode::ArrowRight, &no_mods(), &mut buffer, &mut cursor, &view);

    assert_eq!(cursor.column, 3);
}

#[test]
fn test_arrow_right_wraps_to_next_line() {
    let mut buffer = create_test_buffer("Hello\nWorld");
    let mut cursor = Cursor::new(0, 5);
    let view = default_view();

    handle_key_press(KeyCode::ArrowRight, &no_mods(), &mut buffer, &mut cursor, &view);

    assert_eq!(cursor.line, 1);
    assert_eq!(cursor.column, 0);
}

#[test]
fn test_arrow_up() {
    let mut buffer = create_test_buffer("Hello\nWorld");
    let mut cursor = Cursor::new(1, 3);
    let view = default_view();

    handle_key_press(KeyCode::ArrowUp, &no_mods(), &mut buffer, &mut cursor, &view);

    assert_eq!(cursor.line, 0);
    assert_eq!(cursor.column, 3);
}

#[test]
fn test_arrow_up_clamps_column() {
    let mut buffer = create_test_buffer("Hi\nWorld");
    let mut cursor = Cursor::new(1, 5);
    let view = default_view();

    handle_key_press(KeyCode::ArrowUp, &no_mods(), &mut buffer, &mut cursor, &view);

    assert_eq!(cursor.line, 0);
    assert_eq!(cursor.column, 2); // "Hi" only has 2 chars
}

#[test]
fn test_arrow_down() {
    let mut buffer = create_test_buffer("Hello\nWorld");
    let mut cursor = Cursor::new(0, 3);
    let view = default_view();

    handle_key_press(KeyCode::ArrowDown, &no_mods(), &mut buffer, &mut cursor, &view);

    assert_eq!(cursor.line, 1);
    assert_eq!(cursor.column, 3);
}

#[test]
fn test_home() {
    let mut buffer = create_test_buffer("Hello");
    let mut cursor = Cursor::new(0, 3);
    let view = default_view();

    handle_key_press(KeyCode::Home, &no_mods(), &mut buffer, &mut cursor, &view);

    assert_eq!(cursor.column, 0);
}

#[test]
fn test_ctrl_home() {
    let mut buffer = create_test_buffer("Hello\nWorld\nTest");
    let mut cursor = Cursor::new(2, 3);
    let view = default_view();

    handle_key_press(KeyCode::Home, &ctrl_mods(), &mut buffer, &mut cursor, &view);

    assert_eq!(cursor.line, 0);
    assert_eq!(cursor.column, 0);
}

#[test]
fn test_end() {
    let mut buffer = create_test_buffer("Hello");
    let mut cursor = Cursor::new(0, 2);
    let view = default_view();

    handle_key_press(KeyCode::End, &no_mods(), &mut buffer, &mut cursor, &view);

    assert_eq!(cursor.column, 5);
}

#[test]
fn test_ctrl_end() {
    let mut buffer = create_test_buffer("Hello\nWorld\nTest");
    let mut cursor = Cursor::new(0, 0);
    let view = default_view();

    handle_key_press(KeyCode::End, &ctrl_mods(), &mut buffer, &mut cursor, &view);

    assert_eq!(cursor.line, 2);
    assert_eq!(cursor.column, 4); // "Test" has 4 chars
}

#[test]
fn test_ctrl_arrow_left_word() {
    let mut buffer = create_test_buffer("Hello World Test");
    let mut cursor = Cursor::new(0, 11); // At "T" of "Test"
    let view = default_view();

    handle_key_press(KeyCode::ArrowLeft, &ctrl_mods(), &mut buffer, &mut cursor, &view);

    // Should move to start of "World"
    assert_eq!(cursor.column, 6);
}

#[test]
fn test_ctrl_arrow_right_word() {
    let mut buffer = create_test_buffer("Hello World Test");
    let mut cursor = Cursor::new(0, 0);
    let view = default_view();

    handle_key_press(KeyCode::ArrowRight, &ctrl_mods(), &mut buffer, &mut cursor, &view);

    // Should move past "Hello " to start of "World"
    assert_eq!(cursor.column, 6);
}

#[test]
fn test_page_down() {
    let content: String = (0..50).map(|i| format!("Line {i}\n")).collect();
    let mut buffer = create_test_buffer(&content);
    let mut cursor = Cursor::new(0, 0);
    let mut view = default_view();
    view.page_lines = 10; // 10 visible lines

    handle_key_press(KeyCode::PageDown, &no_mods(), &mut buffer, &mut cursor, &view);

    // Should move down by ~10 lines
    assert_eq!(cursor.line, 10);
}

#[test]
fn test_page_up() {
    let content: String = (0..50).map(|i| format!("Line {i}\n")).collect();
    let mut buffer = create_test_buffer(&content);
    let mut cursor = Cursor::new(30, 0);
    let mut view = default_view();
    view.page_lines = 10; // 10 visible lines

    handle_key_press(KeyCode::PageUp, &no_mods(), &mut buffer, &mut cursor, &view);

    // Should move up by ~10 lines
    assert_eq!(cursor.line, 20);
}
