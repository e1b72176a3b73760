use ferrite::cursor::{Cursor, Selection};

// ─────────────────────────────────────────────────────────────────────────────
// Cursor Tests
// ─────────────────────────────────────────────────────────────────────────────

#[test]
fn test_cursor_new() {
    let cursor = Cursor::new(5, 10);
    assert_eq!(cursor.line, 5);
    assert_eq!(cursor.column, 10);
}

#[test]
fn test_cursor_start() {
    let cursor = Cursor::start();
    assert_eq!(cursor.line, 0);
    assert_eq!(cursor.column, 0);
}

#[test]
fn test_cursor_default() {
    let cursor = Cursor::default();
    assert_eq!(cursor.line, 0);
    assert_eq!(cursor.column, 0);
}

#[test]
fn test_cursor_equality() {
    let cursor1 = Cursor::new(3, 7);
    let cursor2 = Cursor::new(3, 7);
    let cursor3 = Cursor::new(3, 8);

    assert_eq!(cursor1, cursor2);
    assert_ne!(cursor1, cursor3);
}

#[test]
fn test_cursor_clone() {
    let cursor1 = Cursor::new(10, 20);
    let cursor2 = cursor1;
    assert_eq!(cursor1, cursor2);
}

#[test]
fn test_cursor_ordering() {
    let a = Cursor::new(0, 5);
    let b = Cursor::new(0, 10);
    let c = Cursor::new(1, 0);
    let d = Cursor::new(1, 5);

    assert!(a < b);
    assert!(b < c);
    assert!(c < d);
    assert!(a < d);

    // Same position
    let e = Cursor::new(0, 5);
    assert!(a == e);
    assert!(!(a < e));
    assert!(!(a > e));
}

// ─────────────────────────────────────────────────────────────────────────────
// Selection Tests
// ─────────────────────────────────────────────────────────────────────────────

#[test]
fn test_selection_collapsed() {
    let sel = Selection::collapsed(Cursor::new(5, 10));
    assert_eq!(sel.anchor, Cursor::new(5, 10));
    assert_eq!(sel.head, Cursor::new(5, 10));
    assert!(sel.is_collapsed());
    assert!(!sel.is_range());
}

#[test]
fn test_selection_range() {
    let sel = Selection::new(Cursor::new(0, 5), Cursor::new(0, 10));
    assert!(!sel.is_collapsed());
    assert!(sel.is_range());
    assert_eq!(sel.cursor(), Cursor::new(0, 10)); // head is the cursor
}

#[test]
fn test_selection_ordered_forward() {
    // Anchor before head
    let sel = Selection::new(Cursor::new(0, 5), Cursor::new(0, 10));
    let (start, end) = sel.ordered();
    assert_eq!(start, Cursor::new(0, 5));
    assert_eq!(end, Cursor::new(0, 10));
}

#[test]
fn test_selection_ordered_backward() {
    // Head before anchor (selecting backwards)
    let sel = Selection::new(Cursor::new(0, 10), Cursor::new(0, 5));
    let (start, end) = sel.ordered();
    assert_eq!(start, Cursor::new(0, 5));
    assert_eq!(end, Cursor::new(0, 10));
}

#[test]
fn test_selection_multiline_ordered() {
    // Selection spanning multiple lines, anchor on line 2
    let sel = Selection::new(Cursor::new(2, 5), Cursor::new(0, 3));
    let (start, end) = sel.ordered();
    assert_eq!(start, Cursor::new(0, 3));
    assert_eq!(end, Cursor::new(2, 5));
}

#[test]
fn test_selection_start() {
    let sel = Selection::start();
    assert!(sel.is_collapsed());
    assert_eq!(sel.head, Cursor::start());
}

#[test]
fn test_selection_collapse_operations() {
    let sel = Selection::new(Cursor::new(0, 5), Cursor::new(2, 10));

    // Collapse to head
    let collapsed_head = sel.collapse_to_head();
    assert_eq!(collapsed_head.anchor, Cursor::new(2, 10));
    assert_eq!(collapsed_head.head, Cursor::new(2, 10));

    // Collapse to anchor
    let collapsed_anchor = sel.collapse_to_anchor();
    assert_eq!(collapsed_anchor.anchor, Cursor::new(0, 5));
    assert_eq!(collapsed_anchor.head, Cursor::new(0, 5));

    // Collapse to start
    let collapsed_start = sel.collapse_to_start();
    assert_eq!(collapsed_start.head, Cursor::new(0, 5));

    // Collapse to end
    let collapsed_end = sel.collapse_to_end();
    assert_eq!(collapsed_end.head, Cursor::new(2, 10));
}

#[test]
fn test_selection_with_head() {
    let sel = Selection::new(Cursor::new(0, 5), Cursor::new(0, 10));
    let extended = sel.with_head(Cursor::new(1, 3));
    
    assert_eq!(extended.anchor, Cursor::new(0, 5)); // anchor unchanged
    assert_eq!(extended.head, Cursor::new(1, 3)); // head moved
}

#[test]
fn test_selection_extend_to() {
    let sel = Selection::collapsed(Cursor::new(0, 5));
    let extended = sel.extend_to(Cursor::new(0, 10));
    
    assert_eq!(extended.anchor, Cursor::new(0, 5));
    assert_eq!(extended.head, Cursor::new(0, 10));
    assert!(extended.is_range());
}

#[test]
fn test_selection_contains() {
    let sel = Selection::new(Cursor::new(0, 5), Cursor::new(0, 10));
    
    // Inside
    assert!(sel.contains(Cursor::new(0, 5)));
    assert!(sel.contains(Cursor::new(0, 7)));
    assert!(sel.contains(Cursor::new(0, 9)));
    
    // Outside
    assert!(!sel.contains(Cursor::new(0, 4)));
    assert!(!sel.contains(Cursor::new(0, 10))); // end is exclusive
    assert!(!sel.contains(Cursor::new(1, 0)));
}

#[test]
fn test_selection_contains_multiline() {
    let sel = Selection::new(Cursor::new(1, 5), Cursor::new(3, 10));
    
    // Line 1, column >= 5
    assert!(sel.contains(Cursor::new(1, 5)));
    assert!(sel.contains(Cursor::new(1, 100)));
    
    // Line 2, any column
    assert!(sel.contains(Cursor::new(2, 0)));
    assert!(sel.contains(Cursor::new(2, 50)));
    
    // Line 3, column < 10
    assert!(sel.contains(Cursor::new(3, 0)));
    assert!(sel.contains(Cursor::new(3, 9)));
    
    // Outside
    assert!(!sel.contains(Cursor::new(0, 0)));
    assert!(!sel.contains(Cursor::new(1, 4)));
    assert!(!sel.contains(Cursor::new(3, 10)));
    assert!(!sel.contains(Cursor::new(4, 0)));
}

#[test]
fn test_selection_touches_line() {
    let sel = Selection::new(Cursor::new(2, 5), Cursor::new(4, 10));
    
    assert!(!sel.touches_line(0));
    assert!(!sel.touches_line(1));
    assert!(sel.touches_line(2));
    assert!(sel.touches_line(3));
    assert!(sel.touches_line(4));
    assert!(!sel.touches_line(5));
}

#[test]
fn test_selection_default() {
    let sel = Selection::default();
    assert!(sel.is_collapsed());
    assert_eq!(sel.head, Cursor::default());
}
