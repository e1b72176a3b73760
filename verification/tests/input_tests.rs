use ferrite::buffer::TextBuffer;
use ferrite::cursor::Cursor;
use ferrite::input::{InputEvent, InputHandler, InputModifiers, InputResult, ViewLayout};
use ferrite::settings::KeyCode;

fn create_test_buffer(content: &str) -> TextBuffer {
    TextBuffer::from_string(content)
}

/// An unwrapped view that shows ten lines per page.
fn default_view() -> ViewLayout {
    ViewLayout { wrap_enabled: false, visual_rows: Vec::new(), page_lines: 10 }
}

#[test]
fn test_insert_character() {
    let mut buffer = create_test_buffer("Hello");
    let mut cursor = Cursor::new(0, 5);
    let view = default_view();

    let result = InputHandler::handle_event(
        &InputEvent::Text("!".to_string()),
        &mut buffer,
        &mut cursor,
        &view,
    );

    assert_eq!(result, InputResult::TextChanged);
    assert_eq!(buffer.to_string(), "Hello!");
    assert_eq!(cursor.column, 6);
}

#[test]
fn test_insert_at_middle() {
    let mut buffer = create_test_buffer("Helo");
    let mut cursor = Cursor::new(0, 2);
    let view = default_view();

    InputHandler::handle_event(
        &InputEvent::Text("l".to_string()),
        &mut buffer,
        &mut cursor,
        &view,
    );

    assert_eq!(buffer.to_string(), "Hello");
    assert_eq!(cursor.column, 3);
}

#[test]
fn test_no_change_on_key_release() {
    let mut buffer = create_test_buffer("Hello");
    let mut cursor = Cursor::new(0, 5);
    let view = default_view();

    let result = InputHandler::handle_event(
        &InputEvent::Key {
            key: KeyCode::A,
            pressed: false, // Key release
            modifiers: InputModifiers { ctrl: false, command: false, shift: false, alt: false },
        },
        &mut buffer,
        &mut cursor,
        &view,
    );

    assert_eq!(result, InputResult::NoChange);
}

#[test]
fn test_unicode_input() {
    let mut buffer = create_test_buffer("");
    let mut cursor = Cursor::new(0, 0);
    let view = default_view();

    // Insert Japanese text
    InputHandler::handle_event(
        &InputEvent::Text("こんにちは".to_string()),
        &mut buffer,
        &mut cursor,
        &view,
    );

    assert_eq!(buffer.to_string(), "こんにちは");
    assert_eq!(cursor.column, 5); // 5 Japanese characters
}

#[test]
fn test_emoji_input() {
    let mut buffer = create_test_buffer("Hello ");
    let mut cursor = Cursor::new(0, 6);
    let view = default_view();

    InputHandler::handle_event(
        &InputEvent::Text("🌍".to_string()),
        &mut buffer,
        &mut cursor,
        &view,
    );

    assert_eq!(buffer.to_string(), "Hello 🌍");
    assert_eq!(cursor.column, 7);
}
