//! Cursor positions and text selections.
//!
//! A selection consists of two positions: the anchor (where the selection
//! started) and the head (the moving end, where the cursor is). The two may be
//! in any order; `Selection::ordered` yields them in document order.

use vstd::prelude::*;

verus! {

/// Cursor position in the document, as zero-indexed (line, column).
///
/// Positions are ordered first by line, then by column (the derived `Ord`
/// compares the fields in declaration order).
#[derive(Debug, Clone, Copy, PartialEq, Eq, Structural, PartialOrd, Ord, Hash)]
pub struct Cursor {
    /// Zero-indexed line number.
    pub line: usize,
    /// Zero-indexed column (character offset within the line).
    pub column: usize,
}

/// Document order on cursors: `a` comes before or at `b`.
pub open spec fn cursor_le(a: Cursor, b: Cursor) -> bool {
    a.line < b.line || (a.line == b.line && a.column <= b.column)
}

/// Strict document order on cursors: `a` comes before `b`.
pub open spec fn cursor_lt(a: Cursor, b: Cursor) -> bool {
    a.line < b.line || (a.line == b.line && a.column < b.column)
}

/// The later of two cursors in document order.
pub open spec fn cursor_max(a: Cursor, b: Cursor) -> Cursor {
    if cursor_le(a, b) { b } else { a }
}

/// Executable form of `cursor_le`.
pub fn cursor_is_le(a: Cursor, b: Cursor) -> (r: bool)
    ensures
        r == cursor_le(a, b),
{
    a.line < b.line || (a.line == b.line && a.column <= b.column)
}

/// Executable form of `cursor_lt`.
pub fn cursor_is_lt(a: Cursor, b: Cursor) -> (r: bool)
    ensures
        r == cursor_lt(a, b),
{
    a.line < b.line || (a.line == b.line && a.column < b.column)
}

/// The document order on cursors is total, antisymmetric and transitive, and
/// the strict order is the order without equality.
pub proof fn lemma_cursor_order(a: Cursor, b: Cursor, c: Cursor)
    ensures
        cursor_le(a, b) || cursor_le(b, a),
        cursor_le(a, b) && cursor_le(b, a) ==> a == b,
        cursor_le(a, b) && cursor_le(b, c) ==> cursor_le(a, c),
        cursor_lt(a, b) <==> (cursor_le(a, b) && a != b),
{
}

impl Cursor {
    /// Creates a new cursor at the given position.
    pub fn new(line: usize, column: usize) -> (c: Self)
        ensures
            c.line == line,
            c.column == column,
    {
        Self { line, column }
    }

    /// Creates a cursor at the start of the document.
    pub fn start() -> (c: Self)
        ensures
            c.line == 0,
            c.column == 0,
    {
        Self { line: 0, column: 0 }
    }
}

impl Default for Cursor {
    /// The start of the document.
    fn default() -> (c: Self)
        ensures
            c.line == 0,
            c.column == 0,
    {
        Self::start()
    }
}

/// Text selection between an anchor (fixed end) and a head (moving end).
#[derive(Debug, Clone, Copy, PartialEq, Eq, Structural, Hash)]
pub struct Selection {
    /// The anchor point, where the selection started.
    pub anchor: Cursor,
    /// The head point, where the cursor is.
    pub head: Cursor,
}

impl Selection {
    /// The start of the selection in document order.
    pub open spec fn spec_start(self) -> Cursor {
        if cursor_le(self.anchor, self.head) { self.anchor } else { self.head }
    }

    /// The end of the selection in document order.
    pub open spec fn spec_end(self) -> Cursor {
        if cursor_le(self.anchor, self.head) { self.head } else { self.anchor }
    }

    /// Creates a new selection with the given anchor and head.
    pub fn new(anchor: Cursor, head: Cursor) -> (s: Self)
        ensures
            s.anchor == anchor,
            s.head == head,
    {
        Self { anchor, head }
    }

    /// Creates a collapsed selection (a plain cursor) at the given position.
    pub fn collapsed(cursor: Cursor) -> (s: Self)
        ensures
            s.anchor == cursor,
            s.head == cursor,
    {
        Self { anchor: cursor, head: cursor }
    }

    /// Creates a collapsed selection at the start of the document.
    pub fn start() -> (s: Self)
        ensures
            s.anchor == (Cursor { line: 0, column: 0 }),
            s.head == (Cursor { line: 0, column: 0 }),
    {
        Self::collapsed(Cursor::start())
    }

    /// Returns whether this selection covers a non-empty range.
    pub fn is_range(&self) -> (r: bool)
        ensures
            r == (self.anchor != self.head),
    {
        self.anchor != self.head
    }

    /// Returns whether this selection is collapsed (anchor equals head).
    pub fn is_collapsed(&self) -> (r: bool)
        ensures
            r == (self.anchor == self.head),
    {
        self.anchor == self.head
    }

    /// Returns the cursor position, which is the head.
    pub fn cursor(&self) -> (c: Cursor)
        ensures
            c == self.head,
    {
        self.head
    }

    /// Returns (start, end) in document order.
    pub fn ordered(&self) -> (r: (Cursor, Cursor))
        ensures
            r.0 == self.spec_start(),
            r.1 == self.spec_end(),
            cursor_le(r.0, r.1),
    {
        if cursor_is_le(self.anchor, self.head) {
            (self.anchor, self.head)
        } else {
            (self.head, self.anchor)
        }
    }

    /// Returns the start position (the earlier of anchor and head).
    pub fn start_pos(&self) -> (c: Cursor)
        ensures
            c == self.spec_start(),
    {
        self.ordered().0
    }

    /// Returns the end position (the later of anchor and head).
    pub fn end_pos(&self) -> (c: Cursor)
        ensures
            c == self.spec_end(),
    {
        self.ordered().1
    }

    /// Collapses the selection to its head.
    pub fn collapse_to_head(self) -> (s: Self)
        ensures
            s.anchor == self.head,
            s.head == self.head,
    {
        Self::collapsed(self.head)
    }

    /// Collapses the selection to its anchor.
    pub fn collapse_to_anchor(self) -> (s: Self)
        ensures
            s.anchor == self.anchor,
            s.head == self.anchor,
    {
        Self::collapsed(self.anchor)
    }

    /// Collapses the selection to its start in document order.
    pub fn collapse_to_start(self) -> (s: Self)
        ensures
            s.anchor == self.spec_start(),
            s.head == self.spec_start(),
    {
        Self::collapsed(self.start_pos())
    }

    /// Collapses the selection to its end in document order.
    pub fn collapse_to_end(self) -> (s: Self)
        ensures
            s.anchor == self.spec_end(),
            s.head == self.spec_end(),
    {
        Self::collapsed(self.end_pos())
    }

    /// Returns the selection with the head moved; the anchor is unchanged.
    pub fn with_head(self, head: Cursor) -> (s: Self)
        ensures
            s.anchor == self.anchor,
            s.head == head,
    {
        Self { anchor: self.anchor, head }
    }

    /// Returns a collapsed selection at the given position.
    pub fn with_cursor(cursor: Cursor) -> (s: Self)
        ensures
            s.anchor == cursor,
            s.head == cursor,
    {
        Self::collapsed(cursor)
    }

    /// Extends the selection to a new head; the anchor is unchanged.
    pub fn extend_to(self, new_head: Cursor) -> (s: Self)
        ensures
            s.anchor == self.anchor,
            s.head == new_head,
    {
        Self { anchor: self.anchor, head: new_head }
    }

    /// Checks whether a position lies in the selection: at or after its start
    /// and strictly before its end.
    pub fn contains(&self, cursor: Cursor) -> (r: bool)
        ensures
            r == (cursor_le(self.spec_start(), cursor) && cursor_lt(cursor, self.spec_end())),
    {
        let (start, end) = self.ordered();
        cursor_is_le(start, cursor) && cursor_is_lt(cursor, end)
    }

    /// Checks whether a line is touched by the selection.
    pub fn touches_line(&self, line: usize) -> (r: bool)
        ensures
            r == (self.spec_start().line <= line && line <= self.spec_end().line),
    {
        let (start, end) = self.ordered();
        line >= start.line && line <= end.line
    }
}

impl Default for Selection {
    /// A collapsed selection at the start of the document.
    fn default() -> (s: Self)
        ensures
            s.anchor == (Cursor { line: 0, column: 0 }),
            s.head == (Cursor { line: 0, column: 0 }),
    {
        Self::start()
    }
}

/// A collapsed selection contains no position, and the start and end of any
/// selection are its two ends in document order.
pub proof fn lemma_selection_shape(s: Selection, c: Cursor)
    ensures
        s.anchor == s.head ==> !(cursor_le(s.spec_start(), c) && cursor_lt(c, s.spec_end())),
        cursor_le(s.spec_start(), s.spec_end()),
        (s.spec_start() == s.anchor && s.spec_end() == s.head)
            || (s.spec_start() == s.head && s.spec_end() == s.anchor),
{
}

} // verus!
