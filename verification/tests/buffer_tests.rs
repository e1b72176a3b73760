use ferrite::buffer::TextBuffer;

#[test]
fn test_new_empty_buffer() {
    let buffer = TextBuffer::new();
    assert_eq!(buffer.len(), 0);
    assert!(buffer.is_empty());
    assert_eq!(buffer.line_count(), 1); // Empty buffer has one empty line
}

#[test]
fn buffer_test_from_string() {
    let buffer = TextBuffer::from_string("Hello\nWorld");
    assert_eq!(buffer.len(), 11);
    assert_eq!(buffer.line_count(), 2);
    assert!(!buffer.is_empty());
}

#[test]
fn test_insert() {
    let mut buffer = TextBuffer::from_string("HelloWorld");
    buffer.insert(5, " ");
    assert_eq!(buffer.to_string(), "Hello World");
    assert_eq!(buffer.len(), 11);
}

#[test]
fn test_insert_at_start() {
    let mut buffer = TextBuffer::from_string("World");
    buffer.insert(0, "Hello ");
    assert_eq!(buffer.to_string(), "Hello World");
}

#[test]
fn test_insert_at_end() {
    let mut buffer = TextBuffer::from_string("Hello");
    buffer.insert(5, " World");
    assert_eq!(buffer.to_string(), "Hello World");
}

#[test]
fn test_remove() {
    let mut buffer = TextBuffer::from_string("Hello World");
    buffer.remove(5, 6); // Remove " World"
    assert_eq!(buffer.to_string(), "Hello");
}

#[test]
fn test_remove_zero_length() {
    let mut buffer = TextBuffer::from_string("Hello");
    buffer.remove(2, 0); // Should do nothing
    assert_eq!(buffer.to_string(), "Hello");
}

#[test]
fn test_line() {
    let buffer = TextBuffer::from_string("Line 1\nLine 2\nLine 3");
    assert_eq!(buffer.line(0).as_str(), "Line 1\n");
    assert_eq!(buffer.line(1).as_str(), "Line 2\n");
    assert_eq!(buffer.line(2).as_str(), "Line 3");
}

#[test]
fn test_get_line() {
    let buffer = TextBuffer::from_string("Line 1\nLine 2");
    assert!(buffer.get_line(0).is_some());
    assert!(buffer.get_line(1).is_some());
    assert!(buffer.get_line(2).is_none());
    assert!(buffer.get_line(100).is_none());
}

#[test]
fn test_line_count() {
    let buffer = TextBuffer::from_string("Line 1\nLine 2\nLine 3");
    assert_eq!(buffer.line_count(), 3);

    let buffer_with_trailing = TextBuffer::from_string("Line 1\n");
    assert_eq!(buffer_with_trailing.line_count(), 2);
}

#[test]
fn test_line_to_char() {
    let buffer = TextBuffer::from_string("Hello\nWorld\nTest");
    assert_eq!(buffer.line_to_char(0), 0);
    assert_eq!(buffer.line_to_char(1), 6); // After "Hello\n"
    assert_eq!(buffer.line_to_char(2), 12); // After "Hello\nWorld\n"
}

#[test]
fn test_char_to_line() {
    let buffer = TextBuffer::from_string("Hello\nWorld\nTest");
    assert_eq!(buffer.char_to_line(0), 0); // 'H' on line 0
    assert_eq!(buffer.char_to_line(5), 0); // '\n' on line 0
    assert_eq!(buffer.char_to_line(6), 1); // 'W' on line 1
    assert_eq!(buffer.char_to_line(11), 1); // '\n' on line 1
    assert_eq!(buffer.char_to_line(12), 2); // 'T' on line 2
}

#[test]
fn test_try_methods() {
    let buffer = TextBuffer::from_string("Hello\nWorld");

    // Valid indices
    assert_eq!(buffer.try_line_to_char(0), Some(0));
    assert_eq!(buffer.try_line_to_char(1), Some(6));
    assert_eq!(buffer.try_char_to_line(0), Some(0));
    assert_eq!(buffer.try_char_to_line(6), Some(1));

    // Invalid indices
    assert_eq!(buffer.try_line_to_char(100), None);
    assert_eq!(buffer.try_char_to_line(100), None);
}

#[test]
fn test_len_bytes() {
    let buffer = TextBuffer::from_string("Hello");
    assert_eq!(buffer.len_bytes(), 5);

    // Test with multi-byte characters
    let buffer_unicode = TextBuffer::from_string("こんにちは"); // "Hello" in Japanese
    assert_eq!(buffer_unicode.len(), 5); // 5 characters
    assert_eq!(buffer_unicode.len_bytes(), 15); // 15 bytes (3 bytes per character)
}

#[test]
fn test_from_traits() {
    let buffer1: TextBuffer = "Hello".into();
    assert_eq!(buffer1.to_string(), "Hello");

    let buffer2: TextBuffer = String::from("World").into();
    assert_eq!(buffer2.to_string(), "World");
}

#[test]
fn test_display() {
    let buffer = TextBuffer::from_string("Hello World");
    assert_eq!(buffer.to_string(), "Hello World");
}

#[test]
fn buffer_test_default() {
    let buffer = TextBuffer::default();
    assert!(buffer.is_empty());
}

#[test]
fn test_multiline_operations() {
    let mut buffer = TextBuffer::from_string("Line 1\nLine 2\nLine 3");

    // Insert a new line
    let pos = buffer.line_to_char(1);
    buffer.insert(pos, "Inserted\n");

    assert_eq!(buffer.line_count(), 4);
    assert_eq!(buffer.line(1).trim_end(), "Inserted");
    assert_eq!(buffer.line(2).trim_end(), "Line 2");
}

#[test]
fn test_unicode_handling() {
    // "Hello " (6) + "世界" (2) + " " (1) + "🌍" (1) = 10 characters
    let buffer = TextBuffer::from_string("Hello 世界 🌍");
    assert_eq!(buffer.len(), 10);
    assert_eq!(buffer.line_count(), 1);

    // Test line with unicode
    // "こんにちは" (5) + "\n" (1) + "世界" (2) = 8 characters, 2 lines
    let buffer_multiline = TextBuffer::from_string("こんにちは\n世界");
    assert_eq!(buffer_multiline.line_count(), 2);
    assert_eq!(buffer_multiline.line(0).trim_end(), "こんにちは");
    assert_eq!(buffer_multiline.line(1).as_str(), "世界");
}

#[test]
fn test_rope_access() {
    let mut buffer = TextBuffer::from_string("Test");

    // Test read access
    assert_eq!(buffer.rope().len_chars(), 4);

    // Test write access
    buffer.rope_mut().insert(0, "Pre ");
    assert_eq!(buffer.to_string(), "Pre Test");
}

#[test]
fn test_byte_to_line() {
    let buffer = TextBuffer::from_string("Hello\nWorld\nTest");
    assert_eq!(buffer.byte_to_line(0), 0); // 'H' on line 0
    assert_eq!(buffer.byte_to_line(5), 0); // '\n' on line 0
    assert_eq!(buffer.byte_to_line(6), 1); // 'W' on line 1
    assert_eq!(buffer.byte_to_line(11), 1); // '\n' on line 1
    assert_eq!(buffer.byte_to_line(12), 2); // 'T' on line 2
}

#[test]
fn test_byte_to_line_unicode() {
    // Japanese text: "こんにちは" is 5 characters but 15 bytes (3 bytes each)
    let buffer = TextBuffer::from_string("こんにちは\n世界");
    // First line: 15 bytes + 1 newline = 16 bytes
    assert_eq!(buffer.byte_to_line(0), 0); // First byte of first char
    assert_eq!(buffer.byte_to_line(14), 0); // Last byte of 5th char
    assert_eq!(buffer.byte_to_line(15), 0); // '\n' is still on line 0
    assert_eq!(buffer.byte_to_line(16), 1); // First byte of 世 is on line 1
}

#[test]
fn test_try_byte_to_line() {
    let buffer = TextBuffer::from_string("Hello\nWorld");

    // Valid indices
    assert_eq!(buffer.try_byte_to_line(0), Some(0));
    assert_eq!(buffer.try_byte_to_line(6), Some(1));
    assert_eq!(buffer.try_byte_to_line(11), Some(1)); // One-past-end

    // Invalid indices
    assert_eq!(buffer.try_byte_to_line(100), None);
}

#[test]
fn test_byte_to_char() {
    let buffer = TextBuffer::from_string("Hello");
    assert_eq!(buffer.byte_to_char(0), 0);
    assert_eq!(buffer.byte_to_char(3), 3);
    assert_eq!(buffer.byte_to_char(5), 5); // One-past-end
}

#[test]
fn test_byte_to_char_unicode() {
    // Each Japanese char is 3 bytes
    let buffer = TextBuffer::from_string("こんにちは"); // 5 chars, 15 bytes
    assert_eq!(buffer.byte_to_char(0), 0); // First char
    assert_eq!(buffer.byte_to_char(3), 1); // Second char starts at byte 3
    assert_eq!(buffer.byte_to_char(6), 2); // Third char starts at byte 6
    assert_eq!(buffer.byte_to_char(1), 0); // Middle of first char returns that char
}

#[test]
fn test_try_byte_to_char() {
    let buffer = TextBuffer::from_string("Hello");

    // Valid indices
    assert_eq!(buffer.try_byte_to_char(0), Some(0));
    assert_eq!(buffer.try_byte_to_char(5), Some(5)); // One-past-end

    // Invalid indices
    assert_eq!(buffer.try_byte_to_char(100), None);
}

#[test]
fn test_char_to_byte() {
    let buffer = TextBuffer::from_string("Hello\nWorld");
    assert_eq!(buffer.char_to_byte(0), 0);
    assert_eq!(buffer.char_to_byte(5), 5); // '\n'
    assert_eq!(buffer.char_to_byte(6), 6); // 'W'
    assert_eq!(buffer.char_to_byte(11), 11); // End of buffer
}

#[test]
fn test_char_to_byte_unicode() {
    // Japanese: "こんにちは" = 5 chars, 15 bytes
    let buffer = TextBuffer::from_string("こんにちは");
    assert_eq!(buffer.char_to_byte(0), 0);
    assert_eq!(buffer.char_to_byte(1), 3);
    assert_eq!(buffer.char_to_byte(2), 6);
    assert_eq!(buffer.char_to_byte(5), 15); // End of buffer
}

#[test]
fn test_try_char_to_byte() {
    let buffer = TextBuffer::from_string("Hello");
    assert_eq!(buffer.try_char_to_byte(0), Some(0));
    assert_eq!(buffer.try_char_to_byte(5), Some(5)); // End of buffer
    assert_eq!(buffer.try_char_to_byte(100), None); // Out of bounds
}

#[test]
fn test_slice_lines_to_string() {
    let buffer = TextBuffer::from_string("Line 0\nLine 1\nLine 2\nLine 3");

    // Extract middle lines
    let (text, start_char) = buffer.slice_lines_to_string(1, 3);
    assert_eq!(text, "Line 1\nLine 2\n");
    assert_eq!(start_char, 7); // "Line 0\n" = 7 chars

    // Extract from start
    let (text, start_char) = buffer.slice_lines_to_string(0, 2);
    assert_eq!(text, "Line 0\nLine 1\n");
    assert_eq!(start_char, 0);

    // Extract to end
    let (text, start_char) = buffer.slice_lines_to_string(2, 4);
    assert_eq!(text, "Line 2\nLine 3");
    assert_eq!(start_char, 14); // "Line 0\nLine 1\n" = 14 chars

    // Out of bounds clamped
    let (text, start_char) = buffer.slice_lines_to_string(3, 100);
    assert_eq!(text, "Line 3");
    assert_eq!(start_char, 21);

    // Empty range
    let (text, _) = buffer.slice_lines_to_string(2, 2);
    assert_eq!(text, "");
}

#[test]
fn test_slice_lines_to_string_single_line() {
    let buffer = TextBuffer::from_string("Just one line");
    let (text, start_char) = buffer.slice_lines_to_string(0, 1);
    assert_eq!(text, "Just one line");
    assert_eq!(start_char, 0);
}

#[test]
fn test_slice_lines_to_string_empty_buffer() {
    let buffer = TextBuffer::new();
    let (text, start_char) = buffer.slice_lines_to_string(0, 10);
    assert_eq!(text, "");
    assert_eq!(start_char, 0);
}
