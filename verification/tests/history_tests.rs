use ferrite::buffer::TextBuffer;
use ferrite::history::{EditHistory, EditOperation};

#[test]
fn test_new_history() {
    let history = EditHistory::new();
    assert!(!history.can_undo());
    assert!(!history.can_redo());
    assert_eq!(history.undo_count(), 0);
    assert_eq!(history.redo_count(), 0);
}

#[test]
fn test_default_history() {
    let history = EditHistory::default();
    assert!(!history.can_undo());
    assert!(!history.can_redo());
}

#[test]
fn test_record_operation() {
    let mut history = EditHistory::new();

    history.record_operation(EditOperation::Insert {
        pos: 0,
        text: "Hello".to_string(),
    });

    assert!(history.can_undo());
    assert!(!history.can_redo());
    assert_eq!(history.undo_count(), 1);
}

#[test]
fn test_simple_undo() {
    let mut buffer = TextBuffer::from_string("Hello");
    let mut history = EditHistory::new();

    // Insert " World"
    buffer.insert(5, " World");
    history.record_operation(EditOperation::Insert {
        pos: 5,
        text: " World".to_string(),
    });
    assert_eq!(buffer.to_string(), "Hello World");

    // Undo
    let cursor_pos = history.undo(&mut buffer);
    assert!(cursor_pos.is_some());
    assert_eq!(cursor_pos.unwrap(), 5); // Cursor at start of undone insert
    assert_eq!(buffer.to_string(), "Hello");
    assert!(history.can_redo());
}

#[test]
fn test_simple_redo() {
    let mut buffer = TextBuffer::from_string("Hello");
    let mut history = EditHistory::new();

    // Insert and undo
    buffer.insert(5, " World");
    history.record_operation(EditOperation::Insert {
        pos: 5,
        text: " World".to_string(),
    });
    history.undo(&mut buffer);

    // Redo
    let cursor_pos = history.redo(&mut buffer);
    assert!(cursor_pos.is_some());
    assert_eq!(cursor_pos.unwrap(), 11); // Cursor at end of redone insert (5 + 6 chars)
    assert_eq!(buffer.to_string(), "Hello World");
    assert!(history.can_undo());
    assert!(!history.can_redo());
}

#[test]
fn test_delete_undo_redo() {
    let mut buffer = TextBuffer::from_string("Hello World");
    let mut history = EditHistory::new();

    // Delete " World"
    let deleted_text = " World";
    history.record_operation(EditOperation::Delete {
        pos: 5,
        text: deleted_text.to_string(),
    });
    buffer.remove(5, deleted_text.len());
    assert_eq!(buffer.to_string(), "Hello");

    // Undo should restore
    let cursor_pos = history.undo(&mut buffer);
    assert!(cursor_pos.is_some());
    assert_eq!(cursor_pos.unwrap(), 11); // Cursor at end of restored text (5 + 6 chars)
    assert_eq!(buffer.to_string(), "Hello World");

    // Redo should delete again
    let cursor_pos = history.redo(&mut buffer);
    assert!(cursor_pos.is_some());
    assert_eq!(cursor_pos.unwrap(), 5); // Cursor at delete position
    assert_eq!(buffer.to_string(), "Hello");
}

#[test]
fn test_new_operation_clears_redo() {
    let mut buffer = TextBuffer::from_string("Hello");
    let mut history = EditHistory::new();

    // Insert, undo, then insert something new
    buffer.insert(5, " World");
    history.record_operation(EditOperation::Insert {
        pos: 5,
        text: " World".to_string(),
    });

    history.undo(&mut buffer);
    assert!(history.can_redo());

    // New operation should clear redo stack
    buffer.insert(5, "!");
    history.record_operation(EditOperation::Insert {
        pos: 5,
        text: "!".to_string(),
    });
    assert!(!history.can_redo());
}

#[test]
fn test_empty_undo_redo() {
    let mut buffer = TextBuffer::from_string("Hello");
    let mut history = EditHistory::new();

    // Undo with empty stack
    assert!(history.undo(&mut buffer).is_none());
    assert_eq!(buffer.to_string(), "Hello");

    // Redo with empty stack
    assert!(history.redo(&mut buffer).is_none());
    assert_eq!(buffer.to_string(), "Hello");
}

#[test]
fn test_clear() {
    let mut history = EditHistory::new();

    history.record_operation(EditOperation::Insert {
        pos: 0,
        text: "test".to_string(),
    });
    assert!(history.can_undo());

    history.clear();
    assert!(!history.can_undo());
    assert!(!history.can_redo());
    assert_eq!(history.undo_count(), 0);
    assert_eq!(history.redo_count(), 0);
}

#[test]
fn test_operation_inverse() {
    let insert = EditOperation::Insert {
        pos: 5,
        text: "test".to_string(),
    };
    let delete = EditOperation::Delete {
        pos: 5,
        text: "test".to_string(),
    };

    assert_eq!(insert.inverse(), delete);
    assert_eq!(delete.inverse(), insert);
}

#[test]
fn test_operation_apply() {
    let mut buffer = TextBuffer::from_string("Hello");

    // Test insert apply
    let insert = EditOperation::Insert {
        pos: 5,
        text: " World".to_string(),
    };
    insert.apply(&mut buffer);
    assert_eq!(buffer.to_string(), "Hello World");

    // Test delete apply
    let delete = EditOperation::Delete {
        pos: 5,
        text: " World".to_string(),
    };
    delete.apply(&mut buffer);
    assert_eq!(buffer.to_string(), "Hello");
}

#[test]
fn test_multiple_undo_redo() {
    let mut buffer = TextBuffer::new();
    let mut history = EditHistory::new();

    // Perform multiple operations with breaks between them
    buffer.insert(0, "A");
    history.record_operation(EditOperation::Insert {
        pos: 0,
        text: "A".to_string(),
    });
    history.break_group();

    buffer.insert(1, "B");
    history.record_operation(EditOperation::Insert {
        pos: 1,
        text: "B".to_string(),
    });
    history.break_group();

    buffer.insert(2, "C");
    history.record_operation(EditOperation::Insert {
        pos: 2,
        text: "C".to_string(),
    });

    assert_eq!(buffer.to_string(), "ABC");
    assert_eq!(history.undo_count(), 3);

    // Undo all
    history.undo(&mut buffer);
    assert_eq!(buffer.to_string(), "AB");

    history.undo(&mut buffer);
    assert_eq!(buffer.to_string(), "A");

    history.undo(&mut buffer);
    assert_eq!(buffer.to_string(), "");

    // Redo all
    history.redo(&mut buffer);
    assert_eq!(buffer.to_string(), "A");

    history.redo(&mut buffer);
    assert_eq!(buffer.to_string(), "AB");

    history.redo(&mut buffer);
    assert_eq!(buffer.to_string(), "ABC");
}

#[test]
fn test_operation_grouping_within_threshold() {
    let mut history = EditHistory::new();

    // Record multiple operations quickly (should group)
    history.record_operation(EditOperation::Insert {
        pos: 0,
        text: "A".to_string(),
    });
    history.record_operation(EditOperation::Insert {
        pos: 1,
        text: "B".to_string(),
    });
    history.record_operation(EditOperation::Insert {
        pos: 2,
        text: "C".to_string(),
    });

    // All should be in one group
    assert_eq!(history.undo_count(), 1);
}

#[test]
fn test_break_group() {
    let mut history = EditHistory::new();

    history.record_operation(EditOperation::Insert {
        pos: 0,
        text: "A".to_string(),
    });
    history.break_group();

    history.record_operation(EditOperation::Insert {
        pos: 1,
        text: "B".to_string(),
    });

    // Should be in separate groups
    assert_eq!(history.undo_count(), 2);
}


#[test]
fn test_grouped_undo() {
    let mut buffer = TextBuffer::new();
    let mut history = EditHistory::new();

    // Record grouped operations
    buffer.insert(0, "H");
    history.record_operation(EditOperation::Insert {
        pos: 0,
        text: "H".to_string(),
    });
    buffer.insert(1, "i");
    history.record_operation(EditOperation::Insert {
        pos: 1,
        text: "i".to_string(),
    });

    assert_eq!(buffer.to_string(), "Hi");
    assert_eq!(history.undo_count(), 1);

    // Single undo should revert all grouped operations
    history.undo(&mut buffer);
    assert_eq!(buffer.to_string(), "");
}

#[test]
fn test_unicode_operations() {
    let mut buffer = TextBuffer::new();
    let mut history = EditHistory::new();

    // Insert unicode text
    buffer.insert(0, "こんにちは");
    history.record_operation(EditOperation::Insert {
        pos: 0,
        text: "こんにちは".to_string(),
    });

    assert_eq!(buffer.to_string(), "こんにちは");

    // Undo
    history.undo(&mut buffer);
    assert_eq!(buffer.to_string(), "");

    // Redo
    history.redo(&mut buffer);
    assert_eq!(buffer.to_string(), "こんにちは");
}

#[test]
fn test_emoji_operations() {
    let mut buffer = TextBuffer::new();
    let mut history = EditHistory::new();

    // Insert emoji
    buffer.insert(0, "Hello 🌍 World");
    history.record_operation(EditOperation::Insert {
        pos: 0,
        text: "Hello 🌍 World".to_string(),
    });

    // Undo
    history.undo(&mut buffer);
    assert_eq!(buffer.to_string(), "");

    // Redo
    history.redo(&mut buffer);
    assert_eq!(buffer.to_string(), "Hello 🌍 World");
}

/// Test multiple insert/delete/undo/redo sequences
#[test]
fn test_extensive_operations() {
    let mut buffer = TextBuffer::from_string("Initial content");
    let mut history = EditHistory::new();
    let initial = buffer.to_string();

    // Perform 100 operations
    for i in 0..100 {
        history.break_group(); // Force separate groups for testing

        if i % 2 == 0 {
            // Insert
            let text = format!("[{i}]");
            let pos = buffer.len().min(i % (buffer.len() + 1));
            buffer.insert(pos, &text);
            history.record_operation(EditOperation::Insert {
                pos,
                text: text.clone(),
            });
        } else {
            // Delete (if there's content)
            if buffer.len() > 5 {
                let pos = i % (buffer.len().saturating_sub(3));
                let len = (i % 3).max(1).min(buffer.len() - pos);
                // Get the text to be deleted
                let deleted: String = buffer.rope().slice(pos..pos + len).to_string();
                history.record_operation(EditOperation::Delete {
                    pos,
                    text: deleted,
                });
                buffer.remove(pos, len);
            }
        }
    }

    // Undo all
    while history.can_undo() {
        history.undo(&mut buffer);
    }

    // After undoing all, should be back to the initial text
    assert_eq!(buffer.to_string(), initial);

    // Redo all
    while history.can_redo() {
        history.redo(&mut buffer);
    }

    // Undo all again to verify cycle
    while history.can_undo() {
        history.undo(&mut buffer);
    }

    assert_eq!(buffer.to_string(), initial);
}

fn ins(pos: usize, text: &str) -> EditOperation {
    EditOperation::Insert { pos, text: text.to_string() }
}

#[test]
fn test_record_operation_after_threshold() {
    let mut history = EditHistory::new();
    // With no earlier record, grouping is closed: a new group.
    history.record_operation_after(ins(0, "a"), Some(10));
    assert_eq!(history.undo_count(), 1);

    // `record_operation` opens grouping; 10 ms later joins, 500 ms later does not.
    history.record_operation(ins(1, "b"));
    assert_eq!(history.undo_count(), 2);
    history.record_operation_after(ins(2, "c"), Some(10));
    assert_eq!(history.undo_count(), 2);
    history.record_operation_after(ins(3, "d"), Some(499));
    assert_eq!(history.undo_count(), 2);
    history.record_operation_after(ins(4, "e"), Some(500));
    assert_eq!(history.undo_count(), 3);
    history.record_operation_after(ins(5, "f"), None);
    assert_eq!(history.undo_count(), 4);

    history.break_group();
    history.record_operation_after(ins(6, "g"), Some(1));
    assert_eq!(history.undo_count(), 5);
}
