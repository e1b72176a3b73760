//! Keyboard input for the editor: character insertion, cursor movement,
//! deletion and selection.
//!
//! Positions are (line, column) cursors over the buffer's characters; a
//! cursor past the last line or past the end of its line is read as the
//! nearest position inside the text.

pub mod keyboard;

use vstd::prelude::*;
use crate::buffer::TextBuffer;
use crate::cursor::{Cursor, Selection};
use crate::settings::KeyCode;
use crate::text::{chars_vec, line_count_of, line_start, line_text, trimmed_len};

verus! {

broadcast use vstd::string::group_string_axioms;

/// Result of processing an input event.
#[derive(Debug, Clone, Copy, PartialEq, Eq, Structural)]
pub enum InputResult {
    /// No change was made.
    NoChange,
    /// The cursor moved but text was not modified.
    CursorMoved,
    /// Text was modified (insert/delete).
    TextChanged,
    /// The view scrolled (mouse wheel, etc.) without cursor movement.
    ViewScrolled,
}

/// The modifier keys held during a key press.
#[derive(Debug, Clone, Copy, PartialEq, Eq, Structural)]
pub struct InputModifiers {
    /// Ctrl.
    pub ctrl: bool,
    /// Command on macOS, Ctrl elsewhere.
    pub command: bool,
    /// Shift.
    pub shift: bool,
    /// Alt (Option on macOS).
    pub alt: bool,
}

/// What the keyboard logic reads of the view: whether lines wrap, how many
/// visual rows each line takes, and how many lines a page holds.
#[derive(Debug)]
pub struct ViewLayout {
    /// Whether word wrap is on.
    pub wrap_enabled: bool,
    /// The number of visual rows of each line; a line not listed takes one.
    pub visual_rows: Vec<usize>,
    /// The number of lines that fit in the viewport.
    pub page_lines: usize,
}

/// An input event, as far as the text logic reads it.
#[derive(Debug)]
pub enum InputEvent {
    /// Typed text.
    Text(String),
    /// A key went down or up.
    Key { key: KeyCode, pressed: bool, modifiers: InputModifiers },
    /// Anything else (pointer events, focus, ...).
    Other,
}

// ─────────────────────────────────────────────────────────────────────────
// The model of positions
// ─────────────────────────────────────────────────────────────────────────

/// The index of the last line (a text always has at least one line).
pub open spec fn last_line(s: Seq<char>) -> int {
    line_count_of(s) - 1
}

/// The length of a line without its trailing CR/LF characters; 0 for a line
/// that does not exist.
pub open spec fn line_len(s: Seq<char>, line: int) -> int {
    if 0 <= line < line_count_of(s) {
        trimmed_len(line_text(s, line as nat)) as int
    } else {
        0
    }
}

/// The characters of a line without its trailing CR/LF characters.
pub open spec fn trimmed_line(s: Seq<char>, line: int) -> Seq<char> {
    line_text(s, line as nat).take(trimmed_len(line_text(s, line as nat)) as int)
}

/// A line index moved into the text: past the last line reads as the last.
pub open spec fn clamp_line(s: Seq<char>, line: int) -> int {
    if line < last_line(s) {
        line
    } else {
        last_line(s)
    }
}

/// The character position of a cursor: the start of its (clamped) line plus
/// its column, but never past the end of the text.
pub open spec fn char_pos(s: Seq<char>, c: Cursor) -> int {
    let p = line_start(s, clamp_line(s, c.line as int) as nat) + c.column;
    if p < s.len() {
        p
    } else {
        s.len() as int
    }
}

/// The sum of line start and column that `char_pos` forms fits in a `usize`.
pub open spec fn pos_fits(s: Seq<char>, c: Cursor) -> bool {
    line_start(s, clamp_line(s, c.line as int) as nat) + c.column <= usize::MAX
}

/// Where a cursor ends up after typing `t`: one line down per LF (to column
/// 0), one column right per other character.
pub open spec fn advance(c: Cursor, t: Seq<char>) -> (int, int)
    decreases t.len(),
{
    if t.len() == 0 {
        (c.line as int, c.column as int)
    } else {
        let p = advance(c, t.drop_last());
        if t.last() == '\n' {
            (p.0 + 1, 0)
        } else {
            (p.0, p.1 + 1)
        }
    }
}

/// Typing `t` at `c` keeps line and column within `usize` all along.
pub open spec fn insert_fits(c: Cursor, t: Seq<char>) -> bool {
    forall|i: int|
        0 <= i <= t.len() ==> #[trigger] advance(c, t.take(i)).0 <= usize::MAX && advance(
            c,
            t.take(i),
        ).1 <= usize::MAX
}

/// The cursor after typing `t` at `c`.
pub open spec fn cursor_after(c: Cursor, t: Seq<char>) -> Cursor {
    Cursor { line: advance(c, t).0 as usize, column: advance(c, t).1 as usize }
}

/// The text after inserting `t` at the cursor's character position.
pub open spec fn text_after_insert(s: Seq<char>, c: Cursor, t: Seq<char>) -> Seq<char> {
    s.take(char_pos(s, c)) + t + s.skip(char_pos(s, c))
}

/// The text without the character at position `p`.
pub open spec fn remove_at(s: Seq<char>, p: int) -> Seq<char> {
    s.take(p) + s.skip(p + 1)
}

/// The text without the characters between two cursors.
pub open spec fn remove_between(s: Seq<char>, a: Cursor, b: Cursor) -> Seq<char> {
    s.take(char_pos(s, a)) + s.skip(char_pos(s, b))
}

/// A selection's range can be removed: its start does not come after its end
/// as character positions, and both positions can be formed.
pub open spec fn range_removable(s: Seq<char>, sel: Selection) -> bool {
    &&& pos_fits(s, sel.spec_start())
    &&& pos_fits(s, sel.spec_end())
    &&& char_pos(s, sel.spec_start()) <= char_pos(s, sel.spec_end())
}

/// Whether a string is typed text that the editor inserts: not empty and not
/// a lone line break.
pub open spec fn is_typed_text(t: Seq<char>) -> bool {
    t.len() > 0 && t != seq!['\n'] && t != seq!['\r']
}

/// A line start never exceeds the text length.
pub proof fn lemma_char_pos_bounds(s: Seq<char>, c: Cursor)
    ensures
        0 <= char_pos(s, c) <= s.len(),
        0 <= clamp_line(s, c.line as int) <= last_line(s),
{
    crate::buffer::lemma_line_start_bounds(s, clamp_line(s, c.line as int) as nat);
}

/// The text of a line is at most as long as the text.
pub proof fn lemma_line_len_bounds(s: Seq<char>, line: int)
    ensures
        0 <= line_len(s, line) <= s.len(),
        line_len(s, line) == trimmed_line(s, line).len() || !(0 <= line < line_count_of(s)),
{
    if 0 <= line < line_count_of(s) {
        crate::buffer::lemma_line_start_bounds(s, line as nat);
        crate::buffer::lemma_line_start_mono(s, line as nat, (line + 1) as nat);
        crate::buffer::lemma_line_start_bounds(s, (line + 1) as nat);
        lemma_trimmed_len_bound(line_text(s, line as nat));
    }
}

/// Trimming never lengthens.
pub proof fn lemma_trimmed_len_bound(t: Seq<char>)
    ensures
        trimmed_len(t) <= t.len(),
    decreases t.len(),
{
    if t.len() > 0 && (t.last() == '\r' || t.last() == '\n') {
        lemma_trimmed_len_bound(t.drop_last());
    }
}

/// Trailing CR/LF characters of `v`, counted from the end: the length of `v`
/// without them.
fn trimmed_length(v: &Vec<char>) -> (n: usize)
    ensures
        n == trimmed_len(v@),
{
    let mut k = v.len();
    proof {
        assert(v@.take(k as int) =~= v@);
    }
    while k > 0 && (v[k - 1] == '\r' || v[k - 1] == '\n')
        invariant
            k <= v@.len(),
            trimmed_len(v@) == trimmed_len(v@.take(k as int)),
        decreases k,
    {
        proof {
            assert(v@.take(k as int).drop_last() =~= v@.take(k - 1));
        }
        k = k - 1;
    }
    proof {
        if k > 0 {
            assert(v@.take(k as int).last() == v@[k - 1]);
        }
    }
    k
}

/// Handles keyboard input for the editor.
pub struct InputHandler;

impl InputHandler {
    /// The character position of a cursor: its line is clamped to the last
    /// line, and the position to the end of the text.
    pub fn cursor_to_char_pos(buffer: &TextBuffer, cursor: &Cursor) -> (p: usize)
        requires
            pos_fits(buffer@, *cursor),
        ensures
            p == char_pos(buffer@, *cursor),
            p <= buffer@.len(),
    {
        proof {
            lemma_char_pos_bounds(buffer@, *cursor);
        }
        let line_count = buffer.line_count();
        let last = if line_count > 0 { line_count - 1 } else { 0 };
        let clamped_line = if cursor.line < last { cursor.line } else { last };
        let len = buffer.len();
        let line_start = match buffer.try_line_to_char(clamped_line) {
            Some(p) => p,
            None => len,
        };
        let p = line_start + cursor.column;
        if p < len {
            p
        } else {
            len
        }
    }

    /// The length of a line without its line break (CR, LF or CRLF); 0 for
    /// a line that does not exist.
    pub fn line_length(buffer: &TextBuffer, line: usize) -> (n: usize)
        ensures
            n == line_len(buffer@, line as int),
    {
        match buffer.get_line(line) {
            Some(l) => {
                let v = chars_vec(l.as_str());
                trimmed_length(&v)
            },
            None => 0,
        }
    }

    /// The characters of a line without its line break, and their number
    /// (the line must exist).
    fn trimmed_chars(buffer: &TextBuffer, line: usize) -> (r: (Vec<char>, usize))
        requires
            line < line_count_of(buffer@),
        ensures
            r.1 <= r.0@.len(),
            r.0@.take(r.1 as int) == trimmed_line(buffer@, line as int),
            r.1 == line_len(buffer@, line as int),
    {
        let l = buffer.line(line);
        let v = chars_vec(l.as_str());
        let n = trimmed_length(&v);
        proof {
            lemma_trimmed_len_bound(v@);
        }
        (v, n)
    }

    /// Applies an input event. Typed text (not empty, not a lone CR or LF)
    /// is inserted at the cursor; a key press goes to `handle_key_press`;
    /// anything else changes nothing.
    pub fn handle_event(
        event: &InputEvent,
        buffer: &mut TextBuffer,
        cursor: &mut Cursor,
        view: &ViewLayout,
    ) -> (r: InputResult)
        requires
            match event {
                InputEvent::Text(t) => is_typed_text(t@) ==> pos_fits(old(buffer)@, *old(cursor))
                    && insert_fits(*old(cursor), t@),
                InputEvent::Key { key, pressed, modifiers } => *pressed ==> keyboard::key_ok(
                    old(buffer)@,
                    *old(cursor),
                    *key,
                    *modifiers,
                    *view,
                ),
                InputEvent::Other => true,
            },
        ensures
            match event {
                InputEvent::Text(t) => if is_typed_text(t@) {
                    &&& final(buffer)@ == text_after_insert(old(buffer)@, *old(cursor), t@)
                    &&& *final(cursor) == cursor_after(*old(cursor), t@)
                    &&& r == InputResult::TextChanged
                } else {
                    final(buffer)@ == old(buffer)@ && *final(cursor) == *old(cursor) && r
                        == InputResult::NoChange
                },
                InputEvent::Key { key, pressed, modifiers } => if *pressed {
                    (final(buffer)@, *final(cursor), r) == keyboard::key_press(
                        old(buffer)@,
                        *old(cursor),
                        *key,
                        *modifiers,
                        *view,
                    )
                } else {
                    final(buffer)@ == old(buffer)@ && *final(cursor) == *old(cursor) && r
                        == InputResult::NoChange
                },
                InputEvent::Other => final(buffer)@ == old(buffer)@ && *final(cursor) == *old(
                    cursor,
                ) && r == InputResult::NoChange,
            },
    {
        match event {
            InputEvent::Text(text) => {
                if Self::is_typed(text.as_str()) {
                    keyboard::insert_text(buffer, cursor, text.as_str());
                    return InputResult::TextChanged;
                }
                InputResult::NoChange
            },
            InputEvent::Key { key, pressed, modifiers } => {
                if *pressed {
                    keyboard::handle_key_press(*key, modifiers, buffer, cursor, view)
                } else {
                    InputResult::NoChange
                }
            },
            InputEvent::Other => InputResult::NoChange,
        }
    }

    /// Applies an input event to a selection. Typed text replaces the
    /// selected range (if any) and leaves the cursor after it; a key press
    /// goes to `handle_key_press_with_selection`; anything else changes
    /// nothing.
    pub fn handle_event_with_selection(
        event: &InputEvent,
        buffer: &mut TextBuffer,
        selection: &mut Selection,
        view: &ViewLayout,
    ) -> (r: InputResult)
        requires
            match event {
                InputEvent::Text(t) => is_typed_text(t@) ==> keyboard::type_ok(
                    old(buffer)@,
                    *old(selection),
                    t@,
                ),
                InputEvent::Key { key, pressed, modifiers } => *pressed ==> keyboard::key_ok_sel(
                    old(buffer)@,
                    *old(selection),
                    *key,
                    *modifiers,
                    *view,
                ),
                InputEvent::Other => true,
            },
        ensures
            match event {
                InputEvent::Text(t) => if is_typed_text(t@) {
                    (final(buffer)@, *final(selection)) == keyboard::type_over(
                        old(buffer)@,
                        *old(selection),
                        t@,
                    ) && r == InputResult::TextChanged
                } else {
                    final(buffer)@ == old(buffer)@ && *final(selection) == *old(selection) && r
                        == InputResult::NoChange
                },
                InputEvent::Key { key, pressed, modifiers } => if *pressed {
                    (final(buffer)@, *final(selection), r) == keyboard::key_press_sel(
                        old(buffer)@,
                        *old(selection),
                        *key,
                        *modifiers,
                        *view,
                    )
                } else {
                    final(buffer)@ == old(buffer)@ && *final(selection) == *old(selection) && r
                        == InputResult::NoChange
                },
                InputEvent::Other => final(buffer)@ == old(buffer)@ && *final(selection)
                    == *old(selection) && r == InputResult::NoChange,
            },
    {
        match event {
            InputEvent::Text(text) => {
                if Self::is_typed(text.as_str()) {
                    keyboard::type_text(buffer, selection, text.as_str());
                    return InputResult::TextChanged;
                }
                InputResult::NoChange
            },
            InputEvent::Key { key, pressed, modifiers } => {
                if *pressed {
                    keyboard::handle_key_press_with_selection(*key, modifiers, buffer, selection, view)
                } else {
                    InputResult::NoChange
                }
            },
            InputEvent::Other => InputResult::NoChange,
        }
    }

    /// Whether typed text is inserted: it is not empty and not a lone CR or
    /// LF.
    fn is_typed(t: &str) -> (r: bool)
        ensures
            r == is_typed_text(t@),
    {
        let v = chars_vec(t);
        if v.len() == 0 {
            return false;
        }
        if v.len() == 1 && (v[0] == '\n' || v[0] == '\r') {
            assert(v@ =~= seq![v@[0]]);
            return false;
        }
        proof {
            if v@.len() == 1 {
                assert(v@ != seq!['\n']) by {
                    assert(seq!['\n'][0] == '\n');
                }
                assert(v@ != seq!['\r']) by {
                    assert(seq!['\r'][0] == '\r');
                }
            }
        }
        true
    }
}

} // verus!
