//! Key presses: cursor movement, insertion and deletion, with and without a
//! selection.

use vstd::prelude::*;
use crate::buffer::TextBuffer;
use crate::cursor::{Cursor, Selection, cursor_le};
use crate::settings::KeyCode;
use crate::text::{chars_vec, is_whitespace, is_white_space, line_count_of, breaks_before};
use super::{InputHandler, InputResult, InputModifiers, ViewLayout, last_line, line_len,
    trimmed_line, char_pos, pos_fits, advance, insert_fits, cursor_after, text_after_insert,
    remove_at, remove_between, range_removable, lemma_char_pos_bounds, lemma_line_len_bounds};

verus! {

broadcast use vstd::string::group_string_axioms;

// ─────────────────────────────────────────────────────────────────────────
// The model of each movement
// ─────────────────────────────────────────────────────────────────────────

/// The cursor at (line, column).
pub open spec fn at(line: int, column: int) -> Cursor {
    Cursor { line: line as usize, column: column as usize }
}

/// The smaller of two integers.
pub open spec fn min_of(a: int, b: int) -> int {
    if a <= b {
        a
    } else {
        b
    }
}

/// A divisor that is at least one (`max(1)`).
pub open spec fn at_least_one(x: int) -> int {
    if x > 0 {
        x
    } else {
        1
    }
}

/// The visual rows of a line; a line not listed takes one.
pub open spec fn rows_of(view: ViewLayout, line: int) -> int {
    if 0 <= line < view.visual_rows@.len() {
        view.visual_rows@[line] as int
    } else {
        1
    }
}

/// The estimated number of characters per visual row of a line of `len`
/// characters spread over `rows` rows.
pub open spec fn per_row(len: int, rows: int) -> int {
    (len + rows - 1) / rows
}

/// Skips white space backward from column `col` of `cs`.
pub open spec fn skip_space_back(cs: Seq<char>, col: int) -> int
    decreases col,
{
    if 0 < col <= cs.len() && is_white_space(cs[col - 1]) {
        skip_space_back(cs, col - 1)
    } else {
        col
    }
}

/// Skips non-white-space backward from column `col` of `cs`.
pub open spec fn skip_word_back(cs: Seq<char>, col: int) -> int
    decreases col,
{
    if 0 < col <= cs.len() && !is_white_space(cs[col - 1]) {
        skip_word_back(cs, col - 1)
    } else {
        col
    }
}

/// Skips non-white-space forward from column `col` of `cs`.
pub open spec fn skip_word_fwd(cs: Seq<char>, col: int) -> int
    decreases cs.len() - col,
{
    if 0 <= col < cs.len() && !is_white_space(cs[col]) {
        skip_word_fwd(cs, col + 1)
    } else {
        col
    }
}

/// Skips white space forward from column `col` of `cs`.
pub open spec fn skip_space_fwd(cs: Seq<char>, col: int) -> int
    decreases cs.len() - col,
{
    if 0 <= col < cs.len() && is_white_space(cs[col]) {
        skip_space_fwd(cs, col + 1)
    } else {
        col
    }
}

/// One word left: from the start of a line to the end of the previous one;
/// else back over white space, then over the word before it.
pub open spec fn word_left(s: Seq<char>, c: Cursor) -> Cursor {
    if c.column == 0 {
        if c.line > 0 {
            at(c.line - 1, line_len(s, c.line - 1))
        } else {
            c
        }
    } else if c.line < line_count_of(s) {
        let cs = trimmed_line(s, c.line as int);
        at(c.line as int, skip_word_back(cs, skip_space_back(cs, min_of(c.column as int, cs.len() as int))))
    } else {
        c
    }
}

/// One word right: from the end of a line to the start of the next one;
/// else over the word at the cursor, then over the white space after it.
pub open spec fn word_right(s: Seq<char>, c: Cursor) -> Cursor {
    if c.column >= line_len(s, c.line as int) {
        if c.line < last_line(s) {
            at(c.line + 1, 0)
        } else {
            c
        }
    } else {
        let cs = trimmed_line(s, c.line as int);
        at(c.line as int, skip_space_fwd(cs, skip_word_fwd(cs, c.column as int)))
    }
}

/// One character (or word) left; from the start of a line to the end of
/// the previous one.
pub open spec fn move_left(s: Seq<char>, c: Cursor, word: bool) -> Cursor {
    if word {
        word_left(s, c)
    } else if c.column > 0 {
        at(c.line as int, c.column - 1)
    } else if c.line > 0 {
        at(c.line - 1, line_len(s, c.line - 1))
    } else {
        c
    }
}

/// One character (or word) right; from the end of a line to the start of
/// the next one.
pub open spec fn move_right(s: Seq<char>, c: Cursor, word: bool) -> Cursor {
    if word {
        word_right(s, c)
    } else if c.column < line_len(s, c.line as int) {
        at(c.line as int, c.column + 1)
    } else if c.line < last_line(s) {
        at(c.line + 1, 0)
    } else {
        c
    }
}

/// One line up, the column clamped to the line's length.
pub open spec fn move_up(s: Seq<char>, c: Cursor) -> Cursor {
    if c.line > 0 {
        at(c.line - 1, min_of(c.column as int, line_len(s, c.line - 1)))
    } else {
        c
    }
}

/// One line down, the column clamped to the line's length.
pub open spec fn move_down(s: Seq<char>, c: Cursor) -> Cursor {
    if c.line < last_line(s) {
        at(c.line + 1, min_of(c.column as int, line_len(s, c.line + 1)))
    } else {
        c
    }
}

/// One visual row up: within a wrapped line to the row above (the column
/// estimated from an even spread of the characters over the rows), from its
/// first row to the last row of the previous line.
pub open spec fn up_visual(s: Seq<char>, c: Cursor, view: ViewLayout) -> Cursor {
    let rows = rows_of(view, c.line as int);
    let len = line_len(s, c.line as int);
    if !view.wrap_enabled || rows <= 1 || len == 0 {
        move_up(s, c)
    } else {
        let cpr = per_row(len, rows);
        let row = (c.column as int) / at_least_one(cpr);
        if row > 0 {
            at(c.line as int, min_of((row - 1) * cpr + (c.column as int) % at_least_one(cpr), len))
        } else if c.line > 0 {
            let pl = line_len(s, c.line - 1);
            let prows = rows_of(view, c.line - 1);
            if prows > 1 {
                let pcpr = per_row(pl, prows);
                at(c.line - 1, min_of((prows - 1) * pcpr + (c.column as int) % at_least_one(pcpr), pl))
            } else {
                at(c.line - 1, min_of(c.column as int, pl))
            }
        } else {
            c
        }
    }
}

/// The sums that `up_visual` forms fit in a `usize`.
pub open spec fn up_visual_ok(s: Seq<char>, c: Cursor, view: ViewLayout) -> bool {
    let rows = rows_of(view, c.line as int);
    let len = line_len(s, c.line as int);
    view.wrap_enabled && rows > 1 && len > 0 ==> {
        &&& len + rows <= usize::MAX
        &&& ((c.column as int) / at_least_one(per_row(len, rows)) == 0 && c.line > 0 && rows_of(view, c.line - 1) > 1)
            ==> line_len(s, c.line - 1) + rows_of(view, c.line - 1) <= usize::MAX
    }
}

/// One visual row down: within a wrapped line to the row below, from its
/// last row to the first row of the next line.
pub open spec fn down_visual(s: Seq<char>, c: Cursor, view: ViewLayout) -> Cursor {
    let rows = rows_of(view, c.line as int);
    let len = line_len(s, c.line as int);
    if !view.wrap_enabled || rows <= 1 || len == 0 {
        move_down(s, c)
    } else {
        let cpr = per_row(len, rows);
        let row = (c.column as int) / at_least_one(cpr);
        if row < rows - 1 {
            at(c.line as int, min_of((row + 1) * cpr + (c.column as int) % at_least_one(cpr), len))
        } else if c.line < last_line(s) {
            at(c.line + 1, min_of((c.column as int) % at_least_one(cpr), line_len(s, c.line + 1)))
        } else {
            c
        }
    }
}

/// The sum that `down_visual` forms fits in a `usize`.
pub open spec fn down_visual_ok(s: Seq<char>, c: Cursor, view: ViewLayout) -> bool {
    let rows = rows_of(view, c.line as int);
    let len = line_len(s, c.line as int);
    view.wrap_enabled && rows > 1 && len > 0 ==> len + rows <= usize::MAX
}

/// One page up: `page` lines up (stopping at the first line), the column
/// clamped to the line's length.
pub open spec fn page_up(s: Seq<char>, c: Cursor, page: int) -> Cursor {
    let l = if c.line >= page { c.line - page } else { 0 };
    at(l, min_of(c.column as int, line_len(s, l)))
}

/// One page down: `page` lines down (stopping at the last line), the column
/// clamped to the line's length.
pub open spec fn page_down(s: Seq<char>, c: Cursor, page: int) -> Cursor {
    let l = min_of(c.line + page, last_line(s));
    at(l, min_of(c.column as int, line_len(s, l)))
}

/// Home: the start of the line, or of the document with Ctrl.
pub open spec fn home(c: Cursor, doc: bool) -> Cursor {
    if doc {
        at(0, 0)
    } else {
        at(c.line as int, 0)
    }
}

/// End: the end of the line, or of the document with Ctrl.
pub open spec fn end(s: Seq<char>, c: Cursor, doc: bool) -> Cursor {
    if doc {
        at(last_line(s), line_len(s, last_line(s)))
    } else {
        at(c.line as int, line_len(s, c.line as int))
    }
}

/// Backspace: the text, the cursor, and whether a character was removed.
/// Within a line the character before the cursor goes; at the start of a
/// line the character before it (the line break) goes and the cursor moves
/// to the end of the previous line.
pub open spec fn backspace(s: Seq<char>, c: Cursor) -> (Seq<char>, Cursor, bool) {
    if c.column > 0 {
        (remove_at(s, char_pos(s, c) - 1), at(c.line as int, c.column - 1), true)
    } else if c.line > 0 {
        (remove_at(s, char_pos(s, c) - 1), at(c.line - 1, line_len(s, c.line - 1)), true)
    } else {
        (s, c, false)
    }
}

/// Backspace can run: where it removes, the position before the cursor
/// exists.
pub open spec fn backspace_ok(s: Seq<char>, c: Cursor) -> bool {
    (c.column > 0 || c.line > 0) ==> pos_fits(s, c) && char_pos(s, c) >= 1
}

/// Whether Ctrl or Command is held.
pub open spec fn ctrl_or_cmd(m: InputModifiers) -> bool {
    m.ctrl || m.command
}

/// A key press on a plain cursor: the new text, the new cursor and what
/// changed.
pub open spec fn key_press(
    s: Seq<char>,
    c: Cursor,
    key: KeyCode,
    m: InputModifiers,
    view: ViewLayout,
) -> (Seq<char>, Cursor, InputResult) {
    match key {
        KeyCode::Enter => (
            text_after_insert(s, c, seq!['\n']),
            cursor_after(c, seq!['\n']),
            InputResult::TextChanged,
        ),
        KeyCode::Backspace => {
            let d = backspace(s, c);
            (d.0, d.1, if d.2 {
                InputResult::TextChanged
            } else {
                InputResult::NoChange
            })
        },
        KeyCode::Delete => if char_pos(s, c) < s.len() {
            (remove_at(s, char_pos(s, c)), c, InputResult::TextChanged)
        } else {
            (s, c, InputResult::NoChange)
        },
        KeyCode::ArrowLeft => (s, move_left(s, c, ctrl_or_cmd(m)), InputResult::CursorMoved),
        KeyCode::ArrowRight => (s, move_right(s, c, ctrl_or_cmd(m)), InputResult::CursorMoved),
        KeyCode::ArrowUp => (s, up_visual(s, c, view), InputResult::CursorMoved),
        KeyCode::ArrowDown => (s, down_visual(s, c, view), InputResult::CursorMoved),
        KeyCode::Home => (s, home(c, ctrl_or_cmd(m)), InputResult::CursorMoved),
        KeyCode::End => (s, end(s, c, ctrl_or_cmd(m)), InputResult::CursorMoved),
        KeyCode::PageUp => (s, page_up(s, c, view.page_lines as int), InputResult::CursorMoved),
        KeyCode::PageDown => (s, page_down(s, c, view.page_lines as int), InputResult::CursorMoved),
        _ => (s, c, InputResult::NoChange),
    }
}

/// A key press on a plain cursor can run without overflow or a position
/// before the start.
pub open spec fn key_ok(
    s: Seq<char>,
    c: Cursor,
    key: KeyCode,
    m: InputModifiers,
    view: ViewLayout,
) -> bool {
    match key {
        KeyCode::Enter => pos_fits(s, c) && insert_fits(c, seq!['\n']),
        KeyCode::Backspace => backspace_ok(s, c),
        KeyCode::Delete => pos_fits(s, c),
        KeyCode::ArrowUp => up_visual_ok(s, c, view),
        KeyCode::ArrowDown => down_visual_ok(s, c, view),
        KeyCode::PageDown => c.line + view.page_lines <= usize::MAX,
        _ => true,
    }
}

/// A selection collapsed to one position.
pub open spec fn collapsed_at(c: Cursor) -> Selection {
    Selection { anchor: c, head: c }
}

/// The selection with its head moved, or collapsed at the new head when
/// Shift is not held.
pub open spec fn moved(sel: Selection, head: Cursor, shift: bool) -> Selection {
    if shift {
        Selection { anchor: sel.anchor, head }
    } else {
        collapsed_at(head)
    }
}

/// Removing the selected range (if any): the text and the selection,
/// collapsed at the range's start.
pub open spec fn delete_range(s: Seq<char>, sel: Selection) -> (Seq<char>, Selection) {
    if sel.anchor != sel.head {
        (remove_between(s, sel.spec_start(), sel.spec_end()), collapsed_at(sel.spec_start()))
    } else {
        (s, sel)
    }
}

/// Typing `t` over a selection: the range is removed, then `t` is inserted
/// at the cursor, which ends up after it.
pub open spec fn type_over(s: Seq<char>, sel: Selection, t: Seq<char>) -> (Seq<char>, Selection) {
    let d = delete_range(s, sel);
    (text_after_insert(d.0, d.1.head, t), collapsed_at(cursor_after(d.1.head, t)))
}

/// Typing `t` over a selection can run.
pub open spec fn type_ok(s: Seq<char>, sel: Selection, t: Seq<char>) -> bool {
    let d = delete_range(s, sel);
    &&& sel.anchor != sel.head ==> range_removable(s, sel)
    &&& pos_fits(d.0, d.1.head)
    &&& insert_fits(d.1.head, t)
}

/// A key press on a selection: the new text, the new selection and what
/// changed. Shift extends the selection; without it the selection collapses.
pub open spec fn key_press_sel(
    s: Seq<char>,
    sel: Selection,
    key: KeyCode,
    m: InputModifiers,
    view: ViewLayout,
) -> (Seq<char>, Selection, InputResult) {
    let h = sel.head;
    let range = sel.anchor != sel.head;
    match key {
        KeyCode::Enter => {
            let t = type_over(s, sel, seq!['\n']);
            (t.0, t.1, InputResult::TextChanged)
        },
        KeyCode::Backspace => if range {
            let d = delete_range(s, sel);
            (d.0, d.1, InputResult::TextChanged)
        } else {
            let d = backspace(s, h);
            if d.2 {
                (d.0, collapsed_at(d.1), InputResult::TextChanged)
            } else {
                (s, sel, InputResult::NoChange)
            }
        },
        KeyCode::Delete => if range {
            let d = delete_range(s, sel);
            (d.0, d.1, InputResult::TextChanged)
        } else if char_pos(s, h) < s.len() {
            (remove_at(s, char_pos(s, h)), collapsed_at(h), InputResult::TextChanged)
        } else {
            (s, sel, InputResult::NoChange)
        },
        KeyCode::ArrowLeft => (s, if m.shift {
            moved(sel, move_left(s, h, ctrl_or_cmd(m)), true)
        } else if range {
            collapsed_at(sel.spec_start())
        } else {
            collapsed_at(move_left(s, h, ctrl_or_cmd(m)))
        }, InputResult::CursorMoved),
        KeyCode::ArrowRight => (s, if m.shift {
            moved(sel, move_right(s, h, ctrl_or_cmd(m)), true)
        } else if range {
            collapsed_at(sel.spec_end())
        } else {
            collapsed_at(move_right(s, h, ctrl_or_cmd(m)))
        }, InputResult::CursorMoved),
        KeyCode::ArrowUp => (s, moved(sel, up_visual(s, h, view), m.shift), InputResult::CursorMoved),
        KeyCode::ArrowDown => (
            s,
            moved(sel, down_visual(s, h, view), m.shift),
            InputResult::CursorMoved,
        ),
        KeyCode::Home => (s, moved(sel, home(h, ctrl_or_cmd(m)), m.shift), InputResult::CursorMoved),
        KeyCode::End => (
            s,
            moved(sel, end(s, h, ctrl_or_cmd(m)), m.shift),
            InputResult::CursorMoved,
        ),
        KeyCode::PageUp => (
            s,
            moved(sel, page_up(s, h, view.page_lines as int), m.shift),
            InputResult::CursorMoved,
        ),
        KeyCode::PageDown => (
            s,
            moved(sel, page_down(s, h, view.page_lines as int), m.shift),
            InputResult::CursorMoved,
        ),
        _ => (s, sel, InputResult::NoChange),
    }
}

/// A key press on a selection can run without overflow or a position
/// before the start.
pub open spec fn key_ok_sel(
    s: Seq<char>,
    sel: Selection,
    key: KeyCode,
    m: InputModifiers,
    view: ViewLayout,
) -> bool {
    let h = sel.head;
    let range = sel.anchor != sel.head;
    match key {
        KeyCode::Enter => type_ok(s, sel, seq!['\n']),
        KeyCode::Backspace => if range {
            range_removable(s, sel)
        } else {
            backspace_ok(s, h)
        },
        KeyCode::Delete => if range {
            range_removable(s, sel)
        } else {
            pos_fits(s, h)
        },
        KeyCode::ArrowUp => up_visual_ok(s, h, view),
        KeyCode::ArrowDown => down_visual_ok(s, h, view),
        KeyCode::PageDown => h.line + view.page_lines <= usize::MAX,
        _ => true,
    }
}

// ─────────────────────────────────────────────────────────────────────────
// Editing and movement
// ─────────────────────────────────────────────────────────────────────────

/// Inserts `text` at the cursor and moves the cursor to the end of the
/// inserted text.
pub fn insert_text(buffer: &mut TextBuffer, cursor: &mut Cursor, text: &str)
    requires
        pos_fits(old(buffer)@, *old(cursor)),
        insert_fits(*old(cursor), text@),
    ensures
        final(buffer)@ == text_after_insert(old(buffer)@, *old(cursor), text@),
        *final(cursor) == cursor_after(*old(cursor), text@),
{
    let char_pos = InputHandler::cursor_to_char_pos(buffer, cursor);
    proof {
        lemma_char_pos_bounds(buffer@, *cursor);
    }
    buffer.insert(char_pos, text);
    let ghost t = text@;
    let ghost c0 = *cursor;
    let chars = chars_vec(text);
    let mut new_line = cursor.line;
    let mut new_col = cursor.column;
    let mut i: usize = 0;
    proof {
        assert(t.take(0) =~= Seq::<char>::empty());
    }
    while i < chars.len()
        invariant
            chars@ == t,
            i <= t.len(),
            insert_fits(c0, t),
            advance(c0, t.take(i as int)) == (new_line as int, new_col as int),
        decreases t.len() - i,
    {
        proof {
            assert(t.take(i + 1).drop_last() =~= t.take(i as int));
            assert(t.take(i + 1).last() == t[i as int]);
            assert(advance(c0, t.take(i + 1)).0 <= usize::MAX);
        }
        if chars[i] == '\n' {
            new_line = new_line + 1;
            new_col = 0;
        } else {
            new_col = new_col + 1;
        }
        i = i + 1;
    }
    proof {
        assert(t.take(t.len() as int) =~= t);
    }
    cursor.line = new_line;
    cursor.column = new_col;
}

/// Deletes the character before the cursor (Backspace); at the start of a
/// line, joins it with the previous line. Returns whether a character was
/// deleted.
fn delete_backward(buffer: &mut TextBuffer, cursor: &mut Cursor) -> (r: bool)
    requires
        backspace_ok(old(buffer)@, *old(cursor)),
    ensures
        (final(buffer)@, *final(cursor), r) == backspace(old(buffer)@, *old(cursor)),
{
    proof {
        lemma_char_pos_bounds(buffer@, *cursor);
    }
    if cursor.column > 0 {
        let char_pos = InputHandler::cursor_to_char_pos(buffer, cursor);
        buffer.remove(char_pos - 1, 1);
        cursor.column = cursor.column - 1;
        true
    } else if cursor.line > 0 {
        let prev_line_len = InputHandler::line_length(buffer, cursor.line - 1);
        let char_pos = InputHandler::cursor_to_char_pos(buffer, cursor);
        buffer.remove(char_pos - 1, 1);
        cursor.line = cursor.line - 1;
        cursor.column = prev_line_len;
        true
    } else {
        false
    }
}

/// Deletes the character after the cursor (Delete). Returns whether a
/// character was deleted.
fn delete_forward(buffer: &mut TextBuffer, cursor: &Cursor) -> (r: bool)
    requires
        pos_fits(old(buffer)@, *cursor),
    ensures
        r == (char_pos(old(buffer)@, *cursor) < old(buffer)@.len()),
        r ==> final(buffer)@ == remove_at(old(buffer)@, char_pos(old(buffer)@, *cursor)),
        !r ==> final(buffer)@ == old(buffer)@,
{
    let char_pos = InputHandler::cursor_to_char_pos(buffer, cursor);
    let total_chars = buffer.len();
    if char_pos < total_chars {
        buffer.remove(char_pos, 1);
        true
    } else {
        false
    }
}

/// Moves the cursor one character left, or one word left in word mode.
fn move_cursor_left(buffer: &TextBuffer, cursor: &mut Cursor, word_mode: bool)
    ensures
        *final(cursor) == move_left(buffer@, *old(cursor), word_mode),
{
    if word_mode {
        move_cursor_word_left(buffer, cursor);
    } else if cursor.column > 0 {
        cursor.column = cursor.column - 1;
    } else if cursor.line > 0 {
        cursor.line = cursor.line - 1;
        cursor.column = InputHandler::line_length(buffer, cursor.line);
    }
}

/// Moves the cursor one character right, or one word right in word mode.
fn move_cursor_right(buffer: &TextBuffer, cursor: &mut Cursor, word_mode: bool)
    ensures
        *final(cursor) == move_right(buffer@, *old(cursor), word_mode),
{
    if word_mode {
        move_cursor_word_right(buffer, cursor);
    } else {
        let line_len = InputHandler::line_length(buffer, cursor.line);
        let last = buffer.line_count() - 1;
        if cursor.column < line_len {
            cursor.column = cursor.column + 1;
        } else if cursor.line < last {
            cursor.line = cursor.line + 1;
            cursor.column = 0;
        }
    }
}

/// Moves the cursor one line up, clamping the column to the line's length.
fn move_cursor_up(buffer: &TextBuffer, cursor: &mut Cursor)
    ensures
        *final(cursor) == move_up(buffer@, *old(cursor)),
{
    if cursor.line > 0 {
        cursor.line = cursor.line - 1;
        let line_len = InputHandler::line_length(buffer, cursor.line);
        if line_len < cursor.column {
            cursor.column = line_len;
        }
    }
}

/// Moves the cursor one line down, clamping the column to the line's length.
fn move_cursor_down(buffer: &TextBuffer, cursor: &mut Cursor)
    ensures
        *final(cursor) == move_down(buffer@, *old(cursor)),
{
    let last_line = buffer.line_count() - 1;
    if cursor.line < last_line {
        cursor.line = cursor.line + 1;
        let line_len = InputHandler::line_length(buffer, cursor.line);
        if line_len < cursor.column {
            cursor.column = line_len;
        }
    }
}

/// The visual rows of a line; a line not listed takes one.
fn view_rows(view: &ViewLayout, line: usize) -> (r: usize)
    ensures
        r == rows_of(*view, line as int),
{
    if line < view.visual_rows.len() {
        view.visual_rows[line]
    } else {
        1
    }
}

/// Moves the cursor up by one visual row when lines wrap (by one line
/// otherwise). The row is estimated from an even spread of the line's
/// characters over its visual rows.
pub fn move_cursor_up_visual(buffer: &TextBuffer, cursor: &mut Cursor, view: &ViewLayout)
    requires
        up_visual_ok(buffer@, *old(cursor), *view),
    ensures
        *final(cursor) == up_visual(buffer@, *old(cursor), *view),
{
    if !view.wrap_enabled {
        move_cursor_up(buffer, cursor);
        return;
    }
    let visual_rows = view_rows(view, cursor.line);
    if visual_rows <= 1 {
        move_cursor_up(buffer, cursor);
        return;
    }
    let line_len = InputHandler::line_length(buffer, cursor.line);
    if line_len == 0 {
        move_cursor_up(buffer, cursor);
        return;
    }
    let chars_per_row = (line_len + visual_rows - 1) / visual_rows;
    proof {
        assert(chars_per_row >= 1) by (nonlinear_arith)
            requires
                line_len >= 1,
                visual_rows >= 2,
                chars_per_row == (line_len + visual_rows - 1) / visual_rows as int,
        ;
    }
    let cpr1 = if chars_per_row > 0 { chars_per_row } else { 1 };
    let current_visual_row = cursor.column / cpr1;
    if current_visual_row > 0 {
        let col = cursor.column;
        proof {
            assert((current_visual_row - 1) * chars_per_row + col % cpr1 <= col) by (nonlinear_arith)
                requires
                    cpr1 == chars_per_row,
                    cpr1 >= 1,
                    current_visual_row == col / cpr1,
                    current_visual_row >= 1,
            ;
            assert((current_visual_row - 1) * chars_per_row <= col) by (nonlinear_arith)
                requires
                    cpr1 == chars_per_row,
                    cpr1 >= 1,
                    current_visual_row == col / cpr1,
                    current_visual_row >= 1,
            ;
        }
        let new_col = (current_visual_row - 1) * chars_per_row + (col % cpr1);
        cursor.column = if new_col < line_len { new_col } else { line_len };
    } else if cursor.line > 0 {
        let col = cursor.column;
        cursor.line = cursor.line - 1;
        let prev_line_len = InputHandler::line_length(buffer, cursor.line);
        let prev_visual_rows = view_rows(view, cursor.line);
        if prev_visual_rows > 1 {
            let total = prev_line_len + prev_visual_rows - 1;
            let cpr = total / prev_visual_rows;
            let p1 = if cpr > 0 { cpr } else { 1 };
            proof {
                assert((prev_visual_rows - 1) * cpr + col % p1 <= total) by (nonlinear_arith)
                    requires
                        prev_visual_rows >= 2,
                        cpr == total as int / prev_visual_rows as int,
                        p1 == if cpr > 0 { cpr } else { 1 },
                        total >= prev_visual_rows - 1,
                ;
                assert((prev_visual_rows - 1) * cpr <= total) by (nonlinear_arith)
                    requires
                        prev_visual_rows >= 2,
                        cpr == total as int / prev_visual_rows as int,
                        total >= 0,
                ;
            }
            let last_row_start = (prev_visual_rows - 1) * cpr;
            let v = last_row_start + (col % p1);
            cursor.column = if v < prev_line_len { v } else { prev_line_len };
        } else {
            cursor.column = if col < prev_line_len { col } else { prev_line_len };
        }
    }
}

/// Moves the cursor down by one visual row when lines wrap (by one line
/// otherwise).
pub fn move_cursor_down_visual(buffer: &TextBuffer, cursor: &mut Cursor, view: &ViewLayout)
    requires
        down_visual_ok(buffer@, *old(cursor), *view),
    ensures
        *final(cursor) == down_visual(buffer@, *old(cursor), *view),
{
    if !view.wrap_enabled {
        move_cursor_down(buffer, cursor);
        return;
    }
    let visual_rows = view_rows(view, cursor.line);
    let line_len = InputHandler::line_length(buffer, cursor.line);
    if visual_rows <= 1 || line_len == 0 {
        move_cursor_down(buffer, cursor);
    } else {
        let total = line_len + visual_rows - 1;
        let chars_per_row = total / visual_rows;
        proof {
            assert(chars_per_row >= 1) by (nonlinear_arith)
                requires
                    line_len >= 1,
                    visual_rows >= 2,
                    total == line_len + visual_rows - 1,
                    chars_per_row == total as int / visual_rows as int,
            ;
        }
        let cpr1 = if chars_per_row > 0 { chars_per_row } else { 1 };
        let col = cursor.column;
        let current_visual_row = col / cpr1;
        if current_visual_row < visual_rows - 1 {
            proof {
                assert((current_visual_row + 1) * chars_per_row + col % cpr1 <= total) by (nonlinear_arith)
                    requires
                        cpr1 == chars_per_row,
                        cpr1 >= 1,
                        chars_per_row == total as int / visual_rows as int,
                        visual_rows >= 2,
                        current_visual_row + 1 <= visual_rows - 1,
                        total >= 0,
                ;
                assert((current_visual_row + 1) * chars_per_row <= total) by (nonlinear_arith)
                    requires
                        cpr1 == chars_per_row,
                        cpr1 >= 1,
                        chars_per_row == total as int / visual_rows as int,
                        visual_rows >= 2,
                        current_visual_row + 1 <= visual_rows - 1,
                        total >= 0,
                ;
            }
            let new_col = (current_visual_row + 1) * chars_per_row + (col % cpr1);
            cursor.column = if new_col < line_len { new_col } else { line_len };
        } else {
            let last_line = buffer.line_count() - 1;
            if cursor.line < last_line {
                cursor.line = cursor.line + 1;
                let next_line_len = InputHandler::line_length(buffer, cursor.line);
                let m = col % cpr1;
                cursor.column = if m < next_line_len { m } else { next_line_len };
            }
        }
    }
}

/// Moves the cursor one word left: from the start of a line to the end of
/// the previous one, else back over white space and then over a word.
fn move_cursor_word_left(buffer: &TextBuffer, cursor: &mut Cursor)
    ensures
        *final(cursor) == word_left(buffer@, *old(cursor)),
{
    if cursor.column == 0 {
        if cursor.line > 0 {
            cursor.line = cursor.line - 1;
            cursor.column = InputHandler::line_length(buffer, cursor.line);
        }
        return;
    }
    if cursor.line < buffer.line_count() {
        let (chars, n) = InputHandler::trimmed_chars(buffer, cursor.line);
        let ghost cs = trimmed_line(buffer@, cursor.line as int);
        let mut col = if cursor.column < n { cursor.column } else { n };
        let ghost col0 = col as int;
        proof {
            assert(cs == chars@.take(n as int));
        }
        while col > 0 && is_whitespace(chars[col - 1])
            invariant
                cs == chars@.take(n as int),
                n <= chars@.len(),
                col <= n,
                skip_space_back(cs, col0) == skip_space_back(cs, col as int),
            decreases col,
        {
            col = col - 1;
        }
        let ghost mid = col as int;
        while col > 0 && !is_whitespace(chars[col - 1])
            invariant
                cs == chars@.take(n as int),
                n <= chars@.len(),
                col <= n,
                skip_word_back(cs, mid) == skip_word_back(cs, col as int),
            decreases col,
        {
            col = col - 1;
        }
        cursor.column = col;
    }
}

/// Moves the cursor one word right: from the end of a line to the start of
/// the next one, else over a word and then over white space.
fn move_cursor_word_right(buffer: &TextBuffer, cursor: &mut Cursor)
    ensures
        *final(cursor) == word_right(buffer@, *old(cursor)),
{
    let line_len = InputHandler::line_length(buffer, cursor.line);
    if cursor.column >= line_len {
        let last_line = buffer.line_count() - 1;
        if cursor.line < last_line {
            cursor.line = cursor.line + 1;
            cursor.column = 0;
        }
        return;
    }
    let (chars, n) = InputHandler::trimmed_chars(buffer, cursor.line);
    let ghost cs = trimmed_line(buffer@, cursor.line as int);
    let mut col = cursor.column;
    let ghost col0 = col as int;
    while col < n && !is_whitespace(chars[col])
        invariant
            cs == chars@.take(n as int),
            n <= chars@.len(),
            col0 <= col <= n,
            skip_word_fwd(cs, col0) == skip_word_fwd(cs, col as int),
        decreases n - col,
    {
        col = col + 1;
    }
    let ghost mid = col as int;
    while col < n && is_whitespace(chars[col])
        invariant
            cs == chars@.take(n as int),
            n <= chars@.len(),
            mid <= col <= n,
            skip_space_fwd(cs, mid) == skip_space_fwd(cs, col as int),
        decreases n - col,
    {
        col = col + 1;
    }
    cursor.column = col;
}

/// Moves the cursor up by `page_lines` lines, clamping the column.
fn move_page_up(buffer: &TextBuffer, cursor: &mut Cursor, page_lines: usize)
    ensures
        *final(cursor) == page_up(buffer@, *old(cursor), page_lines as int),
{
    let new_line = if cursor.line >= page_lines { cursor.line - page_lines } else { 0 };
    cursor.line = new_line;
    let line_len = InputHandler::line_length(buffer, cursor.line);
    if line_len < cursor.column {
        cursor.column = line_len;
    }
}

/// Moves the cursor down by `page_lines` lines (at most to the last line),
/// clamping the column.
fn move_page_down(buffer: &TextBuffer, cursor: &mut Cursor, page_lines: usize)
    requires
        old(cursor).line + page_lines <= usize::MAX,
    ensures
        *final(cursor) == page_down(buffer@, *old(cursor), page_lines as int),
{
    let last_line = buffer.line_count() - 1;
    let target = cursor.line + page_lines;
    let new_line = if target <= last_line { target } else { last_line };
    cursor.line = new_line;
    let line_len = InputHandler::line_length(buffer, cursor.line);
    if line_len < cursor.column {
        cursor.column = line_len;
    }
}

/// Applies a key press to a plain cursor: Enter inserts a line break,
/// Backspace and Delete remove a character, the arrows, Home, End, Page Up
/// and Page Down move (Ctrl or Command: by word, or to the document's
/// start or end). Other keys change nothing.
pub fn handle_key_press(
    key: KeyCode,
    modifiers: &InputModifiers,
    buffer: &mut TextBuffer,
    cursor: &mut Cursor,
    view: &ViewLayout,
) -> (r: InputResult)
    requires
        key_ok(old(buffer)@, *old(cursor), key, *modifiers, *view),
    ensures
        (final(buffer)@, *final(cursor), r) == key_press(
            old(buffer)@,
            *old(cursor),
            key,
            *modifiers,
            *view,
        ),
{
    let word = modifiers.ctrl || modifiers.command;
    match key {
        KeyCode::Enter => {
            proof {
                reveal_strlit("\n");
                assert("\n"@ =~= seq!['\n']);
            }
            insert_text(buffer, cursor, "\n");
            InputResult::TextChanged
        },
        KeyCode::Backspace => {
            if delete_backward(buffer, cursor) {
                InputResult::TextChanged
            } else {
                InputResult::NoChange
            }
        },
        KeyCode::Delete => {
            if delete_forward(buffer, cursor) {
                InputResult::TextChanged
            } else {
                InputResult::NoChange
            }
        },
        KeyCode::ArrowLeft => {
            move_cursor_left(buffer, cursor, word);
            InputResult::CursorMoved
        },
        KeyCode::ArrowRight => {
            move_cursor_right(buffer, cursor, word);
            InputResult::CursorMoved
        },
        KeyCode::ArrowUp => {
            if view.wrap_enabled {
                move_cursor_up_visual(buffer, cursor, view);
            } else {
                move_cursor_up(buffer, cursor);
            }
            InputResult::CursorMoved
        },
        KeyCode::ArrowDown => {
            if view.wrap_enabled {
                move_cursor_down_visual(buffer, cursor, view);
            } else {
                move_cursor_down(buffer, cursor);
            }
            InputResult::CursorMoved
        },
        KeyCode::Home => {
            if word {
                cursor.line = 0;
                cursor.column = 0;
            } else {
                cursor.column = 0;
            }
            InputResult::CursorMoved
        },
        KeyCode::End => {
            if word {
                let last_line = buffer.line_count() - 1;
                cursor.line = last_line;
                cursor.column = InputHandler::line_length(buffer, last_line);
            } else {
                cursor.column = InputHandler::line_length(buffer, cursor.line);
            }
            InputResult::CursorMoved
        },
        KeyCode::PageUp => {
            move_page_up(buffer, cursor, view.page_lines);
            InputResult::CursorMoved
        },
        KeyCode::PageDown => {
            move_page_down(buffer, cursor, view.page_lines);
            InputResult::CursorMoved
        },
        _ => InputResult::NoChange,
    }
}

/// Removes the selected range, if any, and collapses the selection at its
/// start.
fn delete_selected(buffer: &mut TextBuffer, selection: &mut Selection)
    requires
        old(selection).anchor != old(selection).head ==> range_removable(old(buffer)@, *old(selection)),
    ensures
        (final(buffer)@, *final(selection)) == delete_range(old(buffer)@, *old(selection)),
{
    if selection.is_range() {
        let (start, end) = selection.ordered();
        let start_pos = InputHandler::cursor_to_char_pos(buffer, &start);
        let end_pos = InputHandler::cursor_to_char_pos(buffer, &end);
        proof {
            lemma_char_pos_bounds(buffer@, end);
            assert(buffer@.take(start_pos as int) + buffer@.skip(start_pos as int) =~= buffer@);
        }
        buffer.remove(start_pos, end_pos - start_pos);
        *selection = Selection::collapsed(start);
    }
}

/// Types `text` over a selection: the selected range is removed first, then
/// the text is inserted and the selection collapses after it.
pub fn type_text(buffer: &mut TextBuffer, selection: &mut Selection, text: &str)
    requires
        type_ok(old(buffer)@, *old(selection), text@),
    ensures
        (final(buffer)@, *final(selection)) == type_over(old(buffer)@, *old(selection), text@),
{
    delete_selected(buffer, selection);
    let mut cursor = selection.head;
    insert_text(buffer, &mut cursor, text);
    *selection = Selection::collapsed(cursor);
}

/// Applies a key press to a selection. Enter, Backspace and Delete remove
/// a selected range first (Backspace and Delete stop there); movement keys
/// move the head, extending the selection with Shift and collapsing it
/// otherwise (Left and Right without Shift collapse a range to its start or
/// end). Other keys change nothing.
pub fn handle_key_press_with_selection(
    key: KeyCode,
    modifiers: &InputModifiers,
    buffer: &mut TextBuffer,
    selection: &mut Selection,
    view: &ViewLayout,
) -> (r: InputResult)
    requires
        key_ok_sel(old(buffer)@, *old(selection), key, *modifiers, *view),
    ensures
        (final(buffer)@, *final(selection), r) == key_press_sel(
            old(buffer)@,
            *old(selection),
            key,
            *modifiers,
            *view,
        ),
{
    let shift = modifiers.shift;
    let ctrl_or_cmd = modifiers.ctrl || modifiers.command;
    match key {
        KeyCode::Enter => {
            proof {
                reveal_strlit("\n");
                assert("\n"@ =~= seq!['\n']);
            }
            type_text(buffer, selection, "\n");
            InputResult::TextChanged
        },
        KeyCode::Backspace => {
            if selection.is_range() {
                delete_selected(buffer, selection);
                InputResult::TextChanged
            } else {
                let mut cursor = selection.head;
                if delete_backward(buffer, &mut cursor) {
                    *selection = Selection::collapsed(cursor);
                    InputResult::TextChanged
                } else {
                    InputResult::NoChange
                }
            }
        },
        KeyCode::Delete => {
            if selection.is_range() {
                delete_selected(buffer, selection);
                InputResult::TextChanged
            } else {
                let cursor = selection.head;
                if delete_forward(buffer, &cursor) {
                    *selection = Selection::collapsed(cursor);
                    InputResult::TextChanged
                } else {
                    InputResult::NoChange
                }
            }
        },
        KeyCode::ArrowLeft => {
            let mut new_cursor = selection.head;
            move_cursor_left(buffer, &mut new_cursor, ctrl_or_cmd);
            if shift {
                *selection = selection.with_head(new_cursor);
            } else if selection.is_range() {
                *selection = Selection::collapsed(selection.start_pos());
            } else {
                *selection = Selection::collapsed(new_cursor);
            }
            InputResult::CursorMoved
        },
        KeyCode::ArrowRight => {
            let mut new_cursor = selection.head;
            move_cursor_right(buffer, &mut new_cursor, ctrl_or_cmd);
            if shift {
                *selection = selection.with_head(new_cursor);
            } else if selection.is_range() {
                *selection = Selection::collapsed(selection.end_pos());
            } else {
                *selection = Selection::collapsed(new_cursor);
            }
            InputResult::CursorMoved
        },
        KeyCode::ArrowUp => {
            let mut new_cursor = selection.head;
            if view.wrap_enabled {
                move_cursor_up_visual(buffer, &mut new_cursor, view);
            } else {
                move_cursor_up(buffer, &mut new_cursor);
            }
            place_head(selection, new_cursor, shift);
            InputResult::CursorMoved
        },
        KeyCode::ArrowDown => {
            let mut new_cursor = selection.head;
            if view.wrap_enabled {
                move_cursor_down_visual(buffer, &mut new_cursor, view);
            } else {
                move_cursor_down(buffer, &mut new_cursor);
            }
            place_head(selection, new_cursor, shift);
            InputResult::CursorMoved
        },
        KeyCode::Home => {
            let new_cursor = if ctrl_or_cmd {
                Cursor::new(0, 0)
            } else {
                Cursor::new(selection.head.line, 0)
            };
            place_head(selection, new_cursor, shift);
            InputResult::CursorMoved
        },
        KeyCode::End => {
            let new_cursor = if ctrl_or_cmd {
                let last_line = buffer.line_count() - 1;
                let last_col = InputHandler::line_length(buffer, last_line);
                Cursor::new(last_line, last_col)
            } else {
                let line_len = InputHandler::line_length(buffer, selection.head.line);
                Cursor::new(selection.head.line, line_len)
            };
            place_head(selection, new_cursor, shift);
            InputResult::CursorMoved
        },
        KeyCode::PageUp => {
            let mut cursor = selection.head;
            move_page_up(buffer, &mut cursor, view.page_lines);
            place_head(selection, cursor, shift);
            InputResult::CursorMoved
        },
        KeyCode::PageDown => {
            let mut cursor = selection.head;
            move_page_down(buffer, &mut cursor, view.page_lines);
            place_head(selection, cursor, shift);
            InputResult::CursorMoved
        },
        _ => InputResult::NoChange,
    }
}

/// Moves the selection's head to `head`, keeping the anchor with Shift and
/// collapsing the selection otherwise.
fn place_head(selection: &mut Selection, head: Cursor, shift: bool)
    ensures
        *final(selection) == moved(*old(selection), head, shift),
{
    if shift {
        *selection = selection.with_head(head);
    } else {
        *selection = Selection::collapsed(head);
    }
}

// ─────────────────────────────────────────────────────────────────────────
// Laws
// ─────────────────────────────────────────────────────────────────────────

/// A cursor inside the text: on an existing line, at most at its end.
pub open spec fn cursor_in_text(s: Seq<char>, c: Cursor) -> bool {
    c.line <= last_line(s) && c.column <= line_len(s, c.line as int)
}

/// The keys that only move the cursor.
pub open spec fn is_movement_key(key: KeyCode) -> bool {
    key == KeyCode::ArrowLeft || key == KeyCode::ArrowRight || key == KeyCode::ArrowUp || key
        == KeyCode::ArrowDown || key == KeyCode::Home || key == KeyCode::End || key
        == KeyCode::PageUp || key == KeyCode::PageDown
}

proof fn lemma_skip_back_bounds(cs: Seq<char>, col: int)
    requires
        0 <= col,
    ensures
        0 <= skip_space_back(cs, col) <= col,
        0 <= skip_word_back(cs, col) <= col,
    decreases col,
{
    if col > 0 {
        lemma_skip_back_bounds(cs, col - 1);
    }
}

proof fn lemma_skip_fwd_bounds(cs: Seq<char>, col: int)
    requires
        0 <= col <= cs.len(),
    ensures
        col <= skip_word_fwd(cs, col) <= cs.len(),
        col <= skip_space_fwd(cs, col) <= cs.len(),
    decreases cs.len() - col,
{
    if col < cs.len() {
        lemma_skip_fwd_bounds(cs, col + 1);
    }
}

/// A cursor at column `x` of line `l`, with `0 <= x <= line_len(l)`, is
/// inside the text.
proof fn lemma_at_in_text(s: Seq<char>, l: int, x: int)
    requires
        s.len() <= usize::MAX,
        0 <= l <= last_line(s),
        0 <= x <= line_len(s, l),
    ensures
        cursor_in_text(s, at(l, x)),
{
    lemma_line_len_bounds(s, l);
    lemma_breaks_before_bound(s, s.len() as int);
}

/// At most one line break ends at each position.
proof fn lemma_breaks_before_bound(s: Seq<char>, k: int)
    ensures
        breaks_before(s, k) <= if k > 0 { k } else { 0 },
    decreases k,
{
    if k > 0 {
        lemma_breaks_before_bound(s, k - 1);
    }
}

/// Left and right moves keep a cursor inside the text.
proof fn lemma_horizontal_in_text(s: Seq<char>, c: Cursor, word: bool)
    requires
        s.len() <= usize::MAX,
        cursor_in_text(s, c),
    ensures
        cursor_in_text(s, move_left(s, c, word)),
        cursor_in_text(s, move_right(s, c, word)),
{
    let l = c.line as int;
    let col = c.column as int;
    lemma_line_len_bounds(s, l);
    if l > 0 {
        lemma_at_in_text(s, l - 1, line_len(s, l - 1));
    }
    if l < last_line(s) {
        lemma_at_in_text(s, l + 1, 0);
    }
    if col > 0 {
        lemma_at_in_text(s, l, col - 1);
    }
    if col < line_len(s, l) {
        lemma_at_in_text(s, l, col + 1);
        let cs = trimmed_line(s, l);
        lemma_skip_fwd_bounds(cs, col);
        lemma_skip_fwd_bounds(cs, skip_word_fwd(cs, col));
        lemma_at_in_text(s, l, skip_space_fwd(cs, skip_word_fwd(cs, col)));
    }
    if col > 0 && l < line_count_of(s) {
        let cs = trimmed_line(s, l);
        let c0 = min_of(col, cs.len() as int);
        lemma_skip_back_bounds(cs, c0);
        lemma_skip_back_bounds(cs, skip_space_back(cs, c0));
        lemma_at_in_text(s, l, skip_word_back(cs, skip_space_back(cs, c0)));
    }
}

/// Line, page, Home and End moves keep a cursor inside the text.
proof fn lemma_vertical_in_text(s: Seq<char>, c: Cursor, page: int, doc: bool)
    requires
        s.len() <= usize::MAX,
        cursor_in_text(s, c),
        page >= 0,
    ensures
        cursor_in_text(s, move_up(s, c)),
        cursor_in_text(s, move_down(s, c)),
        cursor_in_text(s, page_up(s, c, page)),
        cursor_in_text(s, page_down(s, c, page)),
        cursor_in_text(s, home(c, doc)),
        cursor_in_text(s, end(s, c, doc)),
{
    let l = c.line as int;
    let col = c.column as int;
    lemma_line_len_bounds(s, l);
    if l > 0 {
        lemma_line_len_bounds(s, l - 1);
        lemma_at_in_text(s, l - 1, min_of(col, line_len(s, l - 1)));
    }
    if l < last_line(s) {
        lemma_line_len_bounds(s, l + 1);
        lemma_at_in_text(s, l + 1, min_of(col, line_len(s, l + 1)));
    }
    lemma_at_in_text(s, l, 0);
    lemma_at_in_text(s, 0, 0);
    lemma_at_in_text(s, l, line_len(s, l));
    lemma_line_len_bounds(s, last_line(s));
    lemma_at_in_text(s, last_line(s), line_len(s, last_line(s)));
    let pl = if l >= page { l - page } else { 0 };
    lemma_line_len_bounds(s, pl);
    lemma_at_in_text(s, pl, min_of(col, line_len(s, pl)));
    let nl = min_of(l + page, last_line(s));
    lemma_line_len_bounds(s, nl);
    lemma_at_in_text(s, nl, min_of(col, line_len(s, nl)));
}

/// Visual-row moves keep a cursor inside the text.
proof fn lemma_visual_in_text(s: Seq<char>, c: Cursor, view: ViewLayout)
    requires
        s.len() <= usize::MAX,
        cursor_in_text(s, c),
    ensures
        cursor_in_text(s, up_visual(s, c, view)),
        cursor_in_text(s, down_visual(s, c, view)),
{
    lemma_vertical_in_text(s, c, 0, false);
    let l = c.line as int;
    let col = c.column as int;
    let rows = rows_of(view, l);
    let len = line_len(s, l);
    lemma_line_len_bounds(s, l);
    if view.wrap_enabled && rows > 1 && len > 0 {
        let cpr = per_row(len, rows);
        assert(cpr >= 1) by (nonlinear_arith)
            requires
                len >= 1,
                rows >= 2,
                cpr == (len + rows - 1) / rows,
        ;
        let row = col / at_least_one(cpr);
        let md = col % at_least_one(cpr);
        assert(row >= 0 && md >= 0) by (nonlinear_arith)
            requires
                col >= 0,
                cpr >= 1,
                row == col / cpr,
                md == col % cpr,
        ;
        assert((row - 1) * cpr + md >= 0 || row == 0) by (nonlinear_arith)
            requires
                row >= 0,
                cpr >= 1,
                md >= 0,
        ;
        assert((row + 1) * cpr + md >= 0) by (nonlinear_arith)
            requires
                row >= 0,
                cpr >= 1,
                md >= 0,
        ;
        if row > 0 {
            lemma_at_in_text(s, l, min_of((row - 1) * cpr + md, len));
        }
        if row < rows - 1 {
            lemma_at_in_text(s, l, min_of((row + 1) * cpr + md, len));
        }
        if l < last_line(s) {
            lemma_line_len_bounds(s, l + 1);
            lemma_at_in_text(s, l + 1, min_of(md, line_len(s, l + 1)));
        }
        if l > 0 {
            let pln = line_len(s, l - 1);
            let prows = rows_of(view, l - 1);
            lemma_line_len_bounds(s, l - 1);
            lemma_at_in_text(s, l - 1, min_of(col, pln));
            if prows > 1 {
                let pcpr = per_row(pln, prows);
                let pmd = col % at_least_one(pcpr);
                assert(pcpr >= 0 && pmd >= 0 && (prows - 1) * pcpr >= 0) by (nonlinear_arith)
                    requires
                        pln >= 0,
                        prows >= 2,
                        pcpr == (pln + prows - 1) / prows,
                        col >= 0,
                        pmd == col % (if pcpr > 0 { pcpr } else { 1 }),
                ;
                lemma_at_in_text(s, l - 1, min_of((prows - 1) * pcpr + pmd, pln));
            }
        }
    }
}

/// The cursor moves of one key keep a cursor inside the text.
proof fn lemma_move_in_text(s: Seq<char>, c: Cursor, key: KeyCode, m: InputModifiers, view: ViewLayout)
    requires
        s.len() <= usize::MAX,
        cursor_in_text(s, c),
        is_movement_key(key),
    ensures
        cursor_in_text(s, key_press(s, c, key, m, view).1),
{
    lemma_horizontal_in_text(s, c, ctrl_or_cmd(m));
    lemma_vertical_in_text(s, c, view.page_lines as int, ctrl_or_cmd(m));
    lemma_visual_in_text(s, c, view);
}

/// Movement keys never change the text and keep a cursor that is inside the
/// text inside it; what they report is that the cursor moved.
pub proof fn lemma_movement_keeps_cursor_in_text(
    s: Seq<char>,
    c: Cursor,
    key: KeyCode,
    m: InputModifiers,
    view: ViewLayout,
)
    requires
        s.len() <= usize::MAX,
        cursor_in_text(s, c),
        is_movement_key(key),
    ensures
        key_press(s, c, key, m, view).0 == s,
        cursor_in_text(s, key_press(s, c, key, m, view).1),
        key_press(s, c, key, m, view).2 == InputResult::CursorMoved,
{
    lemma_move_in_text(s, c, key, m, view);
}

/// Movement keys on a selection never change the text and keep both ends of
/// a selection that lies inside the text inside it; with Shift the anchor
/// stays where it was, without it the selection collapses.
pub proof fn lemma_selection_movement_in_text(
    s: Seq<char>,
    sel: Selection,
    key: KeyCode,
    m: InputModifiers,
    view: ViewLayout,
)
    requires
        s.len() <= usize::MAX,
        cursor_in_text(s, sel.head),
        cursor_in_text(s, sel.anchor),
        is_movement_key(key),
    ensures
        key_press_sel(s, sel, key, m, view).0 == s,
        cursor_in_text(s, key_press_sel(s, sel, key, m, view).1.head),
        cursor_in_text(s, key_press_sel(s, sel, key, m, view).1.anchor),
        m.shift ==> key_press_sel(s, sel, key, m, view).1.anchor == sel.anchor,
        !m.shift ==> key_press_sel(s, sel, key, m, view).1.anchor == key_press_sel(
            s,
            sel,
            key,
            m,
            view,
        ).1.head,
        key_press_sel(s, sel, key, m, view).2 == InputResult::CursorMoved,
{
    lemma_move_in_text(s, sel.head, key, m, view);
    if key == KeyCode::ArrowLeft || key == KeyCode::ArrowRight {
        assert(key_press(s, sel.head, key, m, view).1 == if key == KeyCode::ArrowLeft {
            move_left(s, sel.head, ctrl_or_cmd(m))
        } else {
            move_right(s, sel.head, ctrl_or_cmd(m))
        });
    }
}

/// ArrowLeft and ArrowRight without Ctrl or Command move one character:
/// Left one column back, or from the start of a line after the first to the
/// end of the previous line; Right one column on, or from the end of a line
/// before the last to the start of the next line. At the document's start
/// (Left) or end (Right) the cursor stays. The text never changes.
pub proof fn lemma_horizontal_arrow_steps(
    s: Seq<char>,
    c: Cursor,
    m: InputModifiers,
    view: ViewLayout,
)
    requires
        s.len() <= usize::MAX,
        !m.ctrl,
        !m.command,
    ensures
        key_press(s, c, KeyCode::ArrowLeft, m, view).0 == s,
        key_press(s, c, KeyCode::ArrowRight, m, view).0 == s,
        ({
            let r = key_press(s, c, KeyCode::ArrowLeft, m, view).1;
            &&& c.column > 0 ==> r.line == c.line && r.column == c.column - 1
            &&& (c.column == 0 && c.line > 0) ==> r.line == c.line - 1 && r.column == line_len(s, c.line - 1)
            &&& (c.column == 0 && c.line == 0) ==> r == c
        }),
        ({
            let r = key_press(s, c, KeyCode::ArrowRight, m, view).1;
            let n = line_len(s, c.line as int);
            &&& c.column < n ==> r.line == c.line && r.column == c.column + 1
            &&& (c.column >= n && c.line < last_line(s)) ==> r.line == c.line + 1 && r.column == 0
            &&& (c.column >= n && c.line >= last_line(s)) ==> r == c
        }),
{
    lemma_breaks_before_bound(s, s.len() as int);
    lemma_line_len_bounds(s, c.line as int);
    lemma_line_len_bounds(s, c.line - 1);
}

/// Home goes to the start of the cursor's line, End to its end (its
/// length); with Ctrl or Command, Home goes to the document's start and End
/// to the end of its last line. The text never changes.
pub proof fn lemma_home_end_keys(s: Seq<char>, c: Cursor, m: InputModifiers, view: ViewLayout)
    requires
        s.len() <= usize::MAX,
    ensures
        key_press(s, c, KeyCode::Home, m, view).0 == s,
        key_press(s, c, KeyCode::End, m, view).0 == s,
        !m.ctrl && !m.command ==> key_press(s, c, KeyCode::Home, m, view).1 == (Cursor { line: c.line, column: 0 }),
        !m.ctrl && !m.command ==> key_press(s, c, KeyCode::End, m, view).1.line == c.line
            && key_press(s, c, KeyCode::End, m, view).1.column == line_len(s, c.line as int),
        (m.ctrl || m.command) ==> key_press(s, c, KeyCode::Home, m, view).1 == (Cursor { line: 0, column: 0 }),
        (m.ctrl || m.command) ==> key_press(s, c, KeyCode::End, m, view).1.line == last_line(s)
            && key_press(s, c, KeyCode::End, m, view).1.column == line_len(s, last_line(s)),
{
    lemma_breaks_before_bound(s, s.len() as int);
    lemma_line_len_bounds(s, c.line as int);
    lemma_line_len_bounds(s, last_line(s));
}

/// PageUp goes `page_lines` lines up and PageDown that many down, stopping
/// at the first and the last line; the column is kept, clamped to the
/// length of the line they land on.
pub proof fn lemma_page_keys(s: Seq<char>, c: Cursor, m: InputModifiers, view: ViewLayout)
    requires
        s.len() <= usize::MAX,
        c.line <= last_line(s),
    ensures
        ({
            let r = key_press(s, c, KeyCode::PageUp, m, view).1;
            let l = if c.line >= view.page_lines { c.line - view.page_lines } else { 0 };
            let n = line_len(s, l);
            &&& key_press(s, c, KeyCode::PageUp, m, view).0 == s
            &&& r.line == l
            &&& c.column <= n ==> r.column == c.column
            &&& c.column > n ==> r.column == n
        }),
        ({
            let r = key_press(s, c, KeyCode::PageDown, m, view).1;
            let l = if c.line + view.page_lines <= last_line(s) { c.line + view.page_lines } else { last_line(s) };
            let n = line_len(s, l);
            &&& key_press(s, c, KeyCode::PageDown, m, view).0 == s
            &&& r.line == l
            &&& c.column <= n ==> r.column == c.column
            &&& c.column > n ==> r.column == n
        }),
{
    lemma_breaks_before_bound(s, s.len() as int);
    let l1 = if c.line >= view.page_lines { c.line - view.page_lines } else { 0 };
    let l2 = if c.line + view.page_lines <= last_line(s) { c.line + view.page_lines } else { last_line(s) };
    lemma_line_len_bounds(s, l1);
    lemma_line_len_bounds(s, l2);
}

/// Delete removes the character at the cursor, which stays; at the end of
/// the text nothing changes. Backspace removes the character before the
/// cursor: within a line the cursor goes one column back, at the start of a
/// line after the first it goes to the end of the previous line; at the
/// document's start nothing changes.
pub proof fn lemma_delete_and_backspace(s: Seq<char>, c: Cursor, m: InputModifiers, view: ViewLayout)
    requires
        s.len() <= usize::MAX,
        cursor_in_text(s, c),
    ensures
        ({
            let p = char_pos(s, c);
            let r = key_press(s, c, KeyCode::Delete, m, view);
            &&& p < s.len() ==> r.0 == s.take(p) + s.skip(p + 1) && r.1 == c && r.2 == InputResult::TextChanged
            &&& p >= s.len() ==> r.0 == s && r.1 == c && r.2 == InputResult::NoChange
        }),
        ({
            let p = char_pos(s, c);
            let r = key_press(s, c, KeyCode::Backspace, m, view);
            &&& (c.column > 0 || c.line > 0) ==> r.0 == s.take(p - 1) + s.skip(p) && r.2 == InputResult::TextChanged
            &&& c.column > 0 ==> r.1.line == c.line && r.1.column == c.column - 1
            &&& (c.column == 0 && c.line > 0) ==> r.1.line == c.line - 1 && r.1.column == line_len(s, c.line - 1)
            &&& (c.column == 0 && c.line == 0) ==> r.0 == s && r.1 == c && r.2 == InputResult::NoChange
        }),
{
    lemma_breaks_before_bound(s, s.len() as int);
    lemma_line_len_bounds(s, c.line - 1);
}

/// On a selection, every movement key moves the head to where it takes a
/// plain cursor at the head, except ArrowLeft and ArrowRight without Shift
/// on a range, which collapse it. With Shift the anchor stays, so the
/// selection extends; without it the selection collapses at the new head.
pub proof fn lemma_selection_follows_cursor(
    s: Seq<char>,
    sel: Selection,
    key: KeyCode,
    m: InputModifiers,
    view: ViewLayout,
)
    requires
        is_movement_key(key),
        m.shift || sel.anchor == sel.head || !(key == KeyCode::ArrowLeft || key == KeyCode::ArrowRight),
    ensures
        key_press_sel(s, sel, key, m, view).0 == s,
        key_press_sel(s, sel, key, m, view).1.head == key_press(s, sel.head, key, m, view).1,
        m.shift ==> key_press_sel(s, sel, key, m, view).1.anchor == sel.anchor,
        !m.shift ==> key_press_sel(s, sel, key, m, view).1.anchor == key_press(s, sel.head, key, m, view).1,
{
}

/// ArrowDown never moves a cursor back in the document and at most one
/// line down; ArrowUp never moves it forward and at most one line up. This
/// holds with and without word wrap.
pub proof fn lemma_vertical_arrow_direction(s: Seq<char>, c: Cursor, m: InputModifiers, view: ViewLayout)
    requires
        s.len() <= usize::MAX,
        cursor_in_text(s, c),
    ensures
        cursor_le(c, key_press(s, c, KeyCode::ArrowDown, m, view).1),
        key_press(s, c, KeyCode::ArrowDown, m, view).1.line <= c.line + 1,
        cursor_le(key_press(s, c, KeyCode::ArrowUp, m, view).1, c),
        key_press(s, c, KeyCode::ArrowUp, m, view).1.line + 1 >= c.line,
{
    lemma_visual_in_text(s, c, view);
    lemma_breaks_before_bound(s, s.len() as int);
    let l = c.line as int;
    let col = c.column as int;
    let rows = rows_of(view, l);
    let len = line_len(s, l);
    lemma_line_len_bounds(s, l);
    if view.wrap_enabled && rows > 1 && len > 0 {
        let cpr = per_row(len, rows);
        assert(cpr >= 1) by (nonlinear_arith)
            requires
                len >= 1,
                rows >= 2,
                cpr == (len + rows - 1) / rows,
        ;
        let row = col / at_least_one(cpr);
        let md = col % at_least_one(cpr);
        vstd::arithmetic::div_mod::lemma_fundamental_div_mod(col, cpr);
        assert((row + 1) * cpr + md == col + cpr && (row - 1) * cpr + md == col - cpr) by (nonlinear_arith)
            requires
                col == cpr * row + md,
        ;
    }
}

/// Backspace and Delete on a range remove exactly the selected characters,
/// from the earlier of anchor and head to the later, and leave the cursor
/// at the earlier one; Enter replaces the range by a line break and leaves
/// the cursor at the start of the new line.
pub proof fn lemma_edit_keys_on_range(
    s: Seq<char>,
    sel: Selection,
    m: InputModifiers,
    view: ViewLayout,
)
    requires
        sel.anchor != sel.head,
    ensures
        ({
            let earlier = if cursor_le(sel.anchor, sel.head) { sel.anchor } else { sel.head };
            let later = if cursor_le(sel.anchor, sel.head) { sel.head } else { sel.anchor };
            let rest = s.take(char_pos(s, earlier)) + s.skip(char_pos(s, later));
            let b = key_press_sel(s, sel, KeyCode::Backspace, m, view);
            let d = key_press_sel(s, sel, KeyCode::Delete, m, view);
            let e = key_press_sel(s, sel, KeyCode::Enter, m, view);
            &&& b.0 == rest && b.1.anchor == earlier && b.1.head == earlier && b.2 == InputResult::TextChanged
            &&& d.0 == rest && d.1.anchor == earlier && d.1.head == earlier && d.2 == InputResult::TextChanged
            &&& e.0 == rest.take(char_pos(rest, earlier)) + seq!['\n'] + rest.skip(char_pos(rest, earlier))
            &&& e.1.anchor == e.1.head
            &&& earlier.line < usize::MAX ==> e.1.head.line == earlier.line + 1 && e.1.head.column == 0
            &&& e.2 == InputResult::TextChanged
        }),
{
    let earlier = if cursor_le(sel.anchor, sel.head) { sel.anchor } else { sel.head };
    let t = seq!['\n'];
    assert(t.drop_last() =~= Seq::<char>::empty());
    assert(advance(earlier, t.drop_last()) == (earlier.line as int, earlier.column as int));
    assert(t.last() == '\n');
    assert(advance(earlier, t) == (earlier.line + 1, 0int));
}

/// Backspace and Delete on a selection without a range do what they do on a
/// plain cursor at its head, and leave the selection collapsed there.
pub proof fn lemma_edit_keys_without_range(
    s: Seq<char>,
    sel: Selection,
    m: InputModifiers,
    view: ViewLayout,
)
    requires
        sel.anchor == sel.head,
    ensures
        ({
            let b = key_press_sel(s, sel, KeyCode::Backspace, m, view);
            let pb = key_press(s, sel.head, KeyCode::Backspace, m, view);
            let d = key_press_sel(s, sel, KeyCode::Delete, m, view);
            let pd = key_press(s, sel.head, KeyCode::Delete, m, view);
            &&& b.0 == pb.0 && b.1.head == pb.1 && b.1.anchor == pb.1 && b.2 == pb.2
            &&& d.0 == pd.0 && d.1.head == pd.1 && d.1.anchor == pd.1 && d.2 == pd.2
        }),
{
}

/// ArrowUp and ArrowDown on a line that is not wrapped move to the line
/// above or below and keep the column, clamped to the length of the line
/// they land on; on the first line (up) or the last line (down) the cursor
/// stays. The text never changes.
pub proof fn lemma_vertical_arrow_clamps_column(
    s: Seq<char>,
    c: Cursor,
    m: InputModifiers,
    view: ViewLayout,
)
    requires
        s.len() <= usize::MAX,
        !view.wrap_enabled,
    ensures
        key_press(s, c, KeyCode::ArrowDown, m, view).0 == s,
        key_press(s, c, KeyCode::ArrowUp, m, view).0 == s,
        c.line < last_line(s) ==> {
            let r = key_press(s, c, KeyCode::ArrowDown, m, view).1;
            let n = line_len(s, c.line + 1);
            &&& r.line == c.line + 1
            &&& c.column <= n ==> r.column == c.column
            &&& c.column > n ==> r.column == n
        },
        c.line >= last_line(s) ==> key_press(s, c, KeyCode::ArrowDown, m, view).1 == c,
        c.line > 0 ==> {
            let r = key_press(s, c, KeyCode::ArrowUp, m, view).1;
            let n = line_len(s, c.line - 1);
            &&& r.line == c.line - 1
            &&& c.column <= n ==> r.column == c.column
            &&& c.column > n ==> r.column == n
        },
        c.line == 0 ==> key_press(s, c, KeyCode::ArrowUp, m, view).1 == c,
{
    lemma_breaks_before_bound(s, s.len() as int);
    if c.line < last_line(s) {
        lemma_line_len_bounds(s, c.line + 1);
    }
    if c.line > 0 {
        lemma_line_len_bounds(s, c.line - 1);
    }
}

/// ArrowLeft or ArrowRight without Shift on a selection that holds a range
/// collapses it without moving: Left to the earlier of anchor and head,
/// Right to the later one. The text never changes.
pub proof fn lemma_arrow_collapses_range(
    s: Seq<char>,
    sel: Selection,
    m: InputModifiers,
    view: ViewLayout,
)
    requires
        sel.anchor != sel.head,
        !m.shift,
    ensures
        ({
            let r = key_press_sel(s, sel, KeyCode::ArrowRight, m, view);
            let later = if cursor_le(sel.anchor, sel.head) { sel.head } else { sel.anchor };
            &&& r.0 == s
            &&& r.1.anchor == later
            &&& r.1.head == later
            &&& cursor_le(sel.anchor, r.1.head)
            &&& cursor_le(sel.head, r.1.head)
        }),
        ({
            let r = key_press_sel(s, sel, KeyCode::ArrowLeft, m, view);
            let earlier = if cursor_le(sel.anchor, sel.head) { sel.anchor } else { sel.head };
            &&& r.0 == s
            &&& r.1.anchor == earlier
            &&& r.1.head == earlier
            &&& cursor_le(r.1.head, sel.anchor)
            &&& cursor_le(r.1.head, sel.head)
        }),
{
}

} // verus!
