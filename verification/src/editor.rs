//! The editor's text state: buffer, undo history, selections (with several
//! cursors), search matches and the editing commands that act on all
//! cursors at once.
//!
//! Layout, painting, scrolling and fonts are not held here; the flag
//! `cache_invalidated` tells the layer that draws when its cached line
//! layouts no longer hold.

use vstd::prelude::*;
use std::hash::{DefaultHasher, Hash, Hasher};
use crate::buffer::TextBuffer;
use crate::cursor::{Cursor, Selection, cursor_le, cursor_lt, cursor_is_le, cursor_is_lt, lemma_cursor_order};
use crate::history::{EditHistory, EditOperation, undo_ok, redo_ok, undo_seq, redo_seq, undo_cursor, redo_cursor};
use crate::settings::{EditorFont, KeyCode};
use crate::input::{InputHandler, InputModifiers, last_line, line_len, char_pos, pos_fits, lemma_char_pos_bounds,
    lemma_line_len_bounds};
use crate::input::keyboard::{at, min_of};
use crate::line_cache::{hash_content, content_hash};
use crate::text::{breaks_before, ends_line_break, next_line_start, line_count_of, line_start, char_text, same_text};

verus! {

broadcast use vstd::string::group_string_axioms;

/// egui's RGBA colour, carried through as the bracket-matching colours.
#[verifier::external_type_specification]
#[verifier::external_body]
pub struct ExColor32(egui::Color32);

/// A search match: its byte range in the buffer and the line it starts on.
#[derive(Debug, Clone, Copy, PartialEq, Eq, Structural)]
pub struct SearchMatch {
    /// Start byte position in the buffer.
    pub start_byte: usize,
    /// End byte position in the buffer.
    pub end_byte: usize,
    /// The line (0-indexed) the match starts on.
    pub line: usize,
}

/// The hash std's `DefaultHasher` gives a single byte.
pub uninterp spec fn byte_hash(b: u8) -> u64;

/// Hashes one byte with std's `DefaultHasher` (fixed keys, so the same byte
/// gives the same hash within one build of std). The result is named
/// `byte_hash` of the byte.
#[verifier::external_body]
fn hash_byte(b: u8) -> (h: u64)
    ensures
        h == byte_hash(b),
{
    let mut hasher = DefaultHasher::new();
    b.hash(&mut hasher);
    hasher.finish()
}

/// The hash of a syntax theme: of its name when one is given and not empty,
/// else of a marker for dark (1) or light (2) mode.
pub open spec fn theme_hash(theme_name: Option<Seq<char>>, dark_mode: bool) -> u64 {
    match theme_name {
        Some(n) if n.len() > 0 => content_hash(n),
        _ => byte_hash(if dark_mode { 1u8 } else { 2u8 }),
    }
}

/// Whether two font choices name the same font.
pub open spec fn same_font(a: EditorFont, b: EditorFont) -> bool {
    match (a, b) {
        (EditorFont::Inter, EditorFont::Inter) => true,
        (EditorFont::JetBrainsMono, EditorFont::JetBrainsMono) => true,
        (EditorFont::Custom(x), EditorFont::Custom(y)) => x@ == y@,
        _ => false,
    }
}

/// Executable form of `same_font`.
fn fonts_equal(a: &EditorFont, b: &EditorFont) -> (r: bool)
    ensures
        r == same_font(*a, *b),
{
    match (a, b) {
        (EditorFont::Inter, EditorFont::Inter) => true,
        (EditorFont::JetBrainsMono, EditorFont::JetBrainsMono) => true,
        (EditorFont::Custom(x), EditorFont::Custom(y)) => same_text(x.as_str(), y.as_str()),
        _ => false,
    }
}

/// The text of an optional string.
pub open spec fn opt_seq(o: Option<String>) -> Option<Seq<char>> {
    match o {
        Some(s) => Some(s@),
        None => None,
    }
}

/// Whether two optional strings hold the same text.
fn same_opt_text(a: &Option<String>, b: &Option<String>) -> (r: bool)
    ensures
        r == (opt_seq(*a) == opt_seq(*b)),
{
    match (a, b) {
        (Some(x), Some(y)) => crate::text::same_text(x.as_str(), y.as_str()),
        (None, None) => true,
        _ => false,
    }
}

/// A cursor moved into the text: its line clamped to the last line, its
/// column to that line's length.
pub open spec fn clamp_cursor_to(s: Seq<char>, c: Cursor) -> Cursor {
    let l = min_of(c.line as int, last_line(s));
    at(l, min_of(c.column as int, line_len(s, l)))
}

/// The cursor of a character position (clamped to the end of the text):
/// its line and its distance from that line's start.
pub open spec fn cursor_of_pos(s: Seq<char>, p: int) -> Cursor {
    let q = min_of(p, s.len() as int);
    let l = breaks_before(s, q) as int;
    at(l, if q >= line_start(s, l as nat) { q - line_start(s, l as nat) } else { 0 })
}

/// From a position before a line-break end, the next line start comes at or
/// before that end.
proof fn lemma_next_line_start_at_most(s: Seq<char>, x: int, p: int)
    requires
        0 <= x < p,
        ends_line_break(s, p),
    ensures
        next_line_start(s, x) <= p,
    decreases p - x,
{
    if !ends_line_break(s, x + 1) {
        lemma_next_line_start_at_most(s, x + 1, p);
    }
}

/// The line that holds a position starts at or before it.
proof fn lemma_line_start_of_pos(s: Seq<char>, p: int)
    requires
        0 <= p <= s.len(),
    ensures
        line_start(s, breaks_before(s, p)) <= p,
    decreases p,
{
    if p > 0 {
        lemma_line_start_of_pos(s, p - 1);
        if ends_line_break(s, p) {
            crate::buffer::lemma_line_start_bounds(s, breaks_before(s, p - 1));
            lemma_next_line_start_at_most(s, line_start(s, breaks_before(s, p - 1)), p);
        }
    }
}

/// Converting a character position to a cursor and back gives the position
/// again: the cursor's line exists, and that line's start plus the cursor's
/// column is the position.
pub proof fn lemma_cursor_of_pos_round_trip(s: Seq<char>, p: int)
    requires
        s.len() <= usize::MAX,
        0 <= p <= s.len(),
    ensures
        cursor_of_pos(s, p).line < line_count_of(s),
        line_start(s, cursor_of_pos(s, p).line as nat) + cursor_of_pos(s, p).column == p,
{
    lemma_line_start_of_pos(s, p);
    crate::buffer::lemma_line_start_bounds(s, breaks_before(s, p));
    lemma_breaks_before_mono(s, p, s.len() as int);
    lemma_breaks_before_le(s, s.len() as int);
}

/// Line breaks only add up.
pub proof fn lemma_breaks_before_mono(s: Seq<char>, a: int, b: int)
    requires
        a <= b,
    ensures
        breaks_before(s, a) <= breaks_before(s, b),
    decreases b - a,
{
    if a < b {
        lemma_breaks_before_mono(s, a, b - 1);
    }
}

/// At most one line break ends at each position.
pub proof fn lemma_breaks_before_le(s: Seq<char>, k: int)
    ensures
        breaks_before(s, k) <= if k > 0 { k } else { 0 },
    decreases k,
{
    if k > 0 {
        lemma_breaks_before_le(s, k - 1);
    }
}


// ─────────────────────────────────────────────────────────────────────────
// Ordering and merging selections
// ─────────────────────────────────────────────────────────────────────────

/// Where a stable insertion puts `x` into `s`: before the first element
/// that `x` strictly precedes, or at the end.
pub open spec fn ins_pos<T>(s: Seq<T>, x: T, precedes: spec_fn(T, T) -> bool) -> int
    decreases s.len(),
{
    if s.len() == 0 {
        0
    } else if precedes(x, s[0]) {
        0
    } else {
        1 + ins_pos(s.drop_first(), x, precedes)
    }
}

/// Stable sort by insertion: elements that `precedes` does not order keep
/// their relative order.
pub open spec fn stable_sort<T>(s: Seq<T>, precedes: spec_fn(T, T) -> bool) -> Seq<T>
    decreases s.len(),
{
    if s.len() == 0 {
        s
    } else {
        let t = stable_sort(s.drop_last(), precedes);
        t.insert(ins_pos(t, s.last(), precedes), s.last())
    }
}

/// The insertion position lies within the sequence.
pub proof fn lemma_ins_pos_bounds<T>(s: Seq<T>, x: T, precedes: spec_fn(T, T) -> bool)
    ensures
        0 <= ins_pos(s, x, precedes) <= s.len(),
    decreases s.len(),
{
    if s.len() > 0 && !precedes(x, s[0]) {
        lemma_ins_pos_bounds(s.drop_first(), x, precedes);
    }
}

/// Sorting keeps the length.
pub proof fn lemma_stable_sort_len<T>(s: Seq<T>, precedes: spec_fn(T, T) -> bool)
    ensures
        stable_sort(s, precedes).len() == s.len(),
    decreases s.len(),
{
    if s.len() > 0 {
        lemma_stable_sort_len(s.drop_last(), precedes);
        lemma_ins_pos_bounds(stable_sort(s.drop_last(), precedes), s.last(), precedes);
    }
}

/// Selection `a` starts strictly before selection `b`.
pub open spec fn starts_before(a: Selection, b: Selection) -> bool {
    cursor_lt(a.spec_start(), b.spec_start())
}

/// `current` grown to cover `sel` as well: it keeps its start and its
/// direction, and ends at the later of the two ends.
pub open spec fn extend_sel(current: Selection, sel: Selection) -> Selection {
    let ne = if cursor_le(current.spec_end(), sel.spec_end()) { sel.spec_end() } else { current.spec_end() };
    if cursor_le(current.anchor, current.head) {
        Selection { anchor: current.spec_start(), head: ne }
    } else {
        Selection { anchor: ne, head: current.spec_start() }
    }
}

/// Merging a run of selections sorted by start into `current`: each one
/// that starts at or before `current`'s end is absorbed, the first that
/// starts after it begins a new run.
pub open spec fn merge_run(current: Selection, rest: Seq<Selection>) -> Seq<Selection>
    decreases rest.len(),
{
    if rest.len() == 0 {
        seq![current]
    } else if cursor_le(rest[0].spec_start(), current.spec_end()) {
        merge_run(extend_sel(current, rest[0]), rest.drop_first())
    } else {
        seq![current] + merge_run(rest[0], rest.drop_first())
    }
}

/// The selections sorted by start (stably) with overlapping ones merged.
pub open spec fn merged_selections(s: Seq<Selection>) -> Seq<Selection> {
    if s.len() <= 1 {
        s
    } else {
        let t = stable_sort(s, |a: Selection, b: Selection| starts_before(a, b));
        merge_run(t[0], t.drop_first())
    }
}

/// A merge run is never empty.
pub proof fn lemma_merge_run_nonempty(current: Selection, rest: Seq<Selection>)
    ensures
        merge_run(current, rest).len() >= 1,
    decreases rest.len(),
{
    if rest.len() > 0 {
        lemma_merge_run_nonempty(extend_sel(current, rest[0]), rest.drop_first());
        lemma_merge_run_nonempty(rest[0], rest.drop_first());
    }
}

/// Merging keeps at least one selection when there was one.
pub proof fn lemma_merged_nonempty(s: Seq<Selection>)
    ensures
        s.len() >= 1 ==> merged_selections(s).len() >= 1,
        merged_selections(s).len() <= s.len() || s.len() == 0,
{
    if s.len() > 1 {
        let t = stable_sort(s, |a: Selection, b: Selection| starts_before(a, b));
        lemma_stable_sort_len(s, |a: Selection, b: Selection| starts_before(a, b));
        lemma_merge_run_nonempty(t[0], t.drop_first());
        lemma_merge_run_len(t[0], t.drop_first());
    }
}

/// A merge run has at most one selection per input selection.
pub proof fn lemma_merge_run_len(current: Selection, rest: Seq<Selection>)
    ensures
        merge_run(current, rest).len() <= rest.len() + 1,
    decreases rest.len(),
{
    if rest.len() > 0 {
        lemma_merge_run_len(extend_sel(current, rest[0]), rest.drop_first());
        lemma_merge_run_len(rest[0], rest.drop_first());
    }
}

/// The selections are ordered by start, each starting at or after the one
/// before it.
pub open spec fn sorted_by_start(s: Seq<Selection>) -> bool {
    forall|i: int, j: int| 0 <= i < j < s.len() ==> cursor_le(#[trigger] s[i].spec_start(), #[trigger] s[j].spec_start())
}

/// Each selection ends strictly before the next one starts.
pub open spec fn separated(s: Seq<Selection>) -> bool {
    forall|i: int| 0 <= i < s.len() - 1 ==> cursor_lt(#[trigger] s[i].spec_end(), s[i + 1].spec_start())
}

/// Everything before the insertion position is not preceded by `x`.
proof fn lemma_ins_pos_prefix(t: Seq<Selection>, x: Selection, j: int)
    requires
        0 <= j < ins_pos(t, x, |a: Selection, b: Selection| starts_before(a, b)),
    ensures
        j < t.len(),
        !starts_before(x, t[j]),
    decreases t.len(),
{
    let p = |a: Selection, b: Selection| starts_before(a, b);
    if t.len() > 0 && !p(x, t[0]) && j > 0 {
        lemma_ins_pos_prefix(t.drop_first(), x, j - 1);
        assert(t.drop_first()[j - 1] == t[j]);
    }
}

/// At the insertion position (when inside the sequence) `x` precedes the element.
proof fn lemma_ins_pos_at(t: Seq<Selection>, x: Selection)
    ensures
        ins_pos(t, x, |a: Selection, b: Selection| starts_before(a, b)) < t.len() ==> starts_before(
            x,
            t[ins_pos(t, x, |a: Selection, b: Selection| starts_before(a, b))],
        ),
    decreases t.len(),
{
    let p = |a: Selection, b: Selection| starts_before(a, b);
    if t.len() > 0 && !p(x, t[0]) {
        lemma_ins_pos_at(t.drop_first(), x);
        lemma_ins_pos_bounds(t.drop_first(), x, p);
        let k = ins_pos(t.drop_first(), x, p);
        if k < t.drop_first().len() {
            assert(t.drop_first()[k] == t[k + 1]);
        }
    }
}

/// Sorting by start gives selections ordered by start.
pub proof fn lemma_stable_sort_sorted(s: Seq<Selection>)
    ensures
        sorted_by_start(stable_sort(s, |a: Selection, b: Selection| starts_before(a, b))),
    decreases s.len(),
{
    let p = |a: Selection, b: Selection| starts_before(a, b);
    if s.len() > 0 {
        let t = stable_sort(s.drop_last(), p);
        let x = s.last();
        lemma_stable_sort_sorted(s.drop_last());
        lemma_ins_pos_bounds(t, x, p);
        lemma_ins_pos_at(t, x);
        let k = ins_pos(t, x, p);
        let r = t.insert(k, x);
        assert forall|i: int, j: int| 0 <= i < j < r.len() implies cursor_le(
            #[trigger] r[i].spec_start(),
            #[trigger] r[j].spec_start(),
        ) by {
            if i < k && j < k {
                assert(r[i] == t[i] && r[j] == t[j]);
            } else if i < k && j == k {
                lemma_ins_pos_prefix(t, x, i);
                lemma_cursor_order(t[i].spec_start(), x.spec_start(), x.spec_start());
            } else if i < k {
                assert(r[i] == t[i] && r[j] == t[j - 1]);
            } else if i == k {
                assert(r[j] == t[j - 1]);
                assert(starts_before(x, t[k]));
                assert(cursor_le(t[k].spec_start(), t[j - 1].spec_start()) || k == j - 1);
                lemma_cursor_order(x.spec_start(), t[k].spec_start(), t[j - 1].spec_start());
            } else {
                assert(r[i] == t[i - 1] && r[j] == t[j - 1]);
            }
        }
    }
}

/// Merging a run keeps the start of `current` first, and leaves each
/// selection ending strictly before the next begins.
pub proof fn lemma_merge_run_separated(current: Selection, rest: Seq<Selection>)
    requires
        sorted_by_start(rest),
    ensures
        merge_run(current, rest).len() >= 1,
        merge_run(current, rest)[0].spec_start() == current.spec_start(),
        separated(merge_run(current, rest)),
    decreases rest.len(),
{
    lemma_merge_run_nonempty(current, rest);
    if rest.len() > 0 {
        let d = rest.drop_first();
        assert(sorted_by_start(d)) by {
            assert forall|i: int, j: int| 0 <= i < j < d.len() implies cursor_le(
                #[trigger] d[i].spec_start(),
                #[trigger] d[j].spec_start(),
            ) by {
                assert(d[i] == rest[i + 1] && d[j] == rest[j + 1]);
            }
        }
        if cursor_le(rest[0].spec_start(), current.spec_end()) {
            let e = extend_sel(current, rest[0]);
            lemma_cursor_order(current.spec_start(), current.spec_end(), rest[0].spec_end());
            assert(e.spec_start() == current.spec_start());
            lemma_merge_run_separated(e, d);
        } else {
            lemma_merge_run_separated(rest[0], d);
            lemma_cursor_order(current.spec_end(), rest[0].spec_start(), rest[0].spec_start());
            let m = merge_run(rest[0], d);
            let r = seq![current] + m;
            assert(r == merge_run(current, rest));
            assert forall|i: int| 0 <= i < r.len() - 1 implies cursor_lt(
                #[trigger] r[i].spec_end(),
                r[i + 1].spec_start(),
            ) by {
                if i > 0 {
                    assert(r[i] == m[i - 1] && r[i + 1] == m[i]);
                }
            }
        }
    }
}

/// After merging, the selections are in document order and pairwise
/// disjoint: each one ends strictly before the next one starts.
pub proof fn lemma_merged_selections_separated(s: Seq<Selection>)
    requires
        s.len() > 1,
    ensures
        separated(merged_selections(s)),
{
    let p = |a: Selection, b: Selection| starts_before(a, b);
    let t = stable_sort(s, p);
    lemma_stable_sort_len(s, p);
    lemma_stable_sort_sorted(s);
    let d = t.drop_first();
    assert(sorted_by_start(d)) by {
        assert forall|i: int, j: int| 0 <= i < j < d.len() implies cursor_le(
            #[trigger] d[i].spec_start(),
            #[trigger] d[j].spec_start(),
        ) by {
            assert(d[i] == t[i + 1] && d[j] == t[j + 1]);
        }
    }
    lemma_merge_run_separated(t[0], d);
}

/// Sorts selections by start, stably (insertion sort).
fn sort_by_start(v: &Vec<Selection>) -> (r: Vec<Selection>)
    ensures
        r@ == stable_sort(v@, |a: Selection, b: Selection| starts_before(a, b)),
{
    let ghost precedes = |a: Selection, b: Selection| starts_before(a, b);
    let mut r: Vec<Selection> = Vec::new();
    let mut i: usize = 0;
    proof {
        assert(v@.take(0) =~= Seq::<Selection>::empty());
    }
    while i < v.len()
        invariant
            i <= v@.len(),
            precedes == (|a: Selection, b: Selection| starts_before(a, b)),
            r@ == stable_sort(v@.take(i as int), precedes),
        decreases v@.len() - i,
    {
        let x = v[i];
        let xs = x.start_pos();
        let mut k: usize = 0;
        proof {
            assert(r@.skip(0) =~= r@);
        }
        while k < r.len() && !cursor_is_lt(xs, r[k].start_pos())
            invariant
                k <= r@.len(),
                xs == x.spec_start(),
                precedes == (|a: Selection, b: Selection| starts_before(a, b)),
                ins_pos(r@, x, precedes) == k + ins_pos(r@.skip(k as int), x, precedes),
            decreases r@.len() - k,
        {
            proof {
                assert(r@.skip(k as int).drop_first() =~= r@.skip(k + 1));
            }
            k = k + 1;
        }
        proof {
            assert(v@.take(i + 1).drop_last() =~= v@.take(i as int));
            assert(v@.take(i + 1).last() == x);
        }
        r.insert(k, x);
        i = i + 1;
    }
    proof {
        assert(v@.take(v@.len() as int) =~= v@);
    }
    r
}


// ─────────────────────────────────────────────────────────────────────────
// Text between cursors
// ─────────────────────────────────────────────────────────────────────────

/// The part of line `l` (with its line break) between two cursors: from
/// `start`'s column on its line (else the line start) to `end`'s column on
/// its line (else the line end), each clamped to the line; empty for a line
/// that does not exist.
pub open spec fn range_part(s: Seq<char>, start: Cursor, end: Cursor, l: int) -> Seq<char> {
    if 0 <= l < line_count_of(s) {
        let t = crate::text::line_text(s, l as nat);
        let sc = min_of(if l == start.line { start.column as int } else { 0 }, t.len() as int);
        let ec = min_of(if l == end.line { end.column as int } else { t.len() as int }, t.len() as int);
        t.subrange(sc, ec)
    } else {
        Seq::<char>::empty()
    }
}

/// The parts of the lines from `start.line` up to (not including) `upto`.
pub open spec fn range_text(s: Seq<char>, start: Cursor, end: Cursor, upto: int) -> Seq<char>
    decreases upto - start.line,
{
    if upto <= start.line {
        Seq::<char>::empty()
    } else {
        range_text(s, start, end, upto - 1) + range_part(s, start, end, upto - 1)
    }
}

/// The text between two cursors in document order, line by line.
pub open spec fn text_between(s: Seq<char>, start: Cursor, end: Cursor) -> Seq<char> {
    if start == end {
        Seq::<char>::empty()
    } else {
        range_text(s, start, end, end.line + 1)
    }
}


// ─────────────────────────────────────────────────────────────────────────
// Deleting selected ranges
// ─────────────────────────────────────────────────────────────────────────

/// Whether a selection covers a range.
pub open spec fn is_range_sel(x: Selection) -> bool {
    x.anchor != x.head
}

/// Selection `a` starts strictly after selection `b` (for a descending
/// sort).
pub open spec fn starts_after(a: Selection, b: Selection) -> bool {
    cursor_lt(b.spec_start(), a.spec_start())
}

/// The operations are the recorded edits described by `pairs`
/// (position, text), all deletions or all insertions.
pub open spec fn ops_match(ops: Seq<EditOperation>, pairs: Seq<(int, Seq<char>)>, delete: bool) -> bool {
    &&& ops.len() == pairs.len()
    &&& forall|i: int|
        0 <= i < ops.len() ==> (#[trigger] ops[i] is Delete) == delete && crate::history::op_pos(ops[i])
            == pairs[i].0 && crate::history::op_text(ops[i]) == pairs[i].1
}

/// Deleting the ranges of `sels`, in that order, each at its character
/// positions in the text left by the previous deletions: the final text,
/// the (position, text) of each non-empty deletion, and whether every
/// position could be formed.
pub open spec fn delete_ranges(t: Seq<char>, sels: Seq<Selection>) -> (Seq<char>, Seq<(int, Seq<char>)>, bool)
    decreases sels.len(),
{
    if sels.len() == 0 {
        (t, Seq::empty(), true)
    } else {
        let x = sels[0];
        let sp = char_pos(t, x.spec_start());
        let ep = char_pos(t, x.spec_end());
        let fits = pos_fits(t, x.spec_start()) && pos_fits(t, x.spec_end());
        if ep > sp {
            let r = delete_ranges(t.take(sp) + t.skip(ep), sels.drop_first());
            (r.0, seq![(sp, t.subrange(sp, ep))] + r.1, fits && r.2)
        } else {
            let r = delete_ranges(t, sels.drop_first());
            (r.0, r.1, fits && r.2)
        }
    }
}

/// The selections after their ranges were deleted, visited in order of
/// start: a range collapses at its start, its column reduced by the
/// characters deleted before it on the running count `offset` (which
/// each range lowers by its end minus start positions in the final text
/// `t`); a cursor stays. The flag tells whether every step stays within
/// `isize` and every position could be formed. `lemma_collapse_ranges_each`
/// states the result selection by selection.
pub open spec fn collapse_ranges(t: Seq<char>, sels: Seq<Selection>, offset: int) -> (Seq<Selection>, bool)
    decreases sels.len(),
{
    if sels.len() == 0 {
        (Seq::empty(), true)
    } else {
        let x = sels[0];
        if is_range_sel(x) {
            let st = x.spec_start();
            let col = if offset >= 0 {
                st.column as int
            } else if st.column >= -offset {
                st.column + offset
            } else {
                0
            };
            let sp = char_pos(t, st);
            let ep = char_pos(t, x.spec_end());
            let next = offset - (ep - sp);
            let r = collapse_ranges(t, sels.drop_first(), next);
            (
                seq![Selection { anchor: at(st.line as int, col), head: at(st.line as int, col) }] + r.0,
                pos_fits(t, st) && pos_fits(t, x.spec_end()) && offset > isize::MIN && isize::MIN <= next
                    <= isize::MAX && r.1,
            )
        } else {
            let r = collapse_ranges(t, sels.drop_first(), offset);
            (seq![x] + r.0, r.1)
        }
    }
}

/// The deletion of `delete_selection` on text `t` and selections `sels`:
/// the ranges, latest start first.
pub open spec fn ranges_to_delete(sels: Seq<Selection>) -> Seq<Selection> {
    stable_sort(sels.filter(|x: Selection| is_range_sel(x)), |a: Selection, b: Selection| starts_after(a, b))
}

/// The selections right after `delete_selection` removed the ranges,
/// before merging.
pub open spec fn collapsed_after_delete(t: Seq<char>, sels: Seq<Selection>) -> Seq<Selection> {
    let c = collapse_ranges(
        delete_ranges(t, ranges_to_delete(sels)).0,
        stable_sort(sels, |a: Selection, b: Selection| starts_before(a, b)),
        0,
    ).0;
    if c.len() == 0 {
        seq![Selection { anchor: at(0, 0), head: at(0, 0) }]
    } else {
        c
    }
}

/// `delete_selection` can run: positions can be formed and the running
/// count stays within `isize`.
pub open spec fn delete_selection_ok(t: Seq<char>, sels: Seq<Selection>) -> bool {
    &&& t.len() <= isize::MAX
    &&& delete_ranges(t, ranges_to_delete(sels)).2
    &&& collapse_ranges(
        delete_ranges(t, ranges_to_delete(sels)).0,
        stable_sort(sels, |a: Selection, b: Selection| starts_before(a, b)),
        0,
    ).1
}

/// Collapsing yields one selection per selection.
pub proof fn lemma_collapse_ranges_len(t: Seq<char>, sels: Seq<Selection>, offset: int)
    ensures
        collapse_ranges(t, sels, offset).0.len() == sels.len(),
    decreases sels.len(),
{
    if sels.len() > 0 {
        let x = sels[0];
        let st = x.spec_start();
        let next = offset - (char_pos(t, x.spec_end()) - char_pos(t, st));
        lemma_collapse_ranges_len(t, sels.drop_first(), next);
        lemma_collapse_ranges_len(t, sels.drop_first(), offset);
    }
}

/// The characters (end minus start position in `t`) of the ranges among
/// the first `i` selections.
pub open spec fn deleted_before(t: Seq<char>, sels: Seq<Selection>, i: int) -> int
    decreases sels.len(),
{
    if i <= 0 || sels.len() == 0 {
        0
    } else {
        (if is_range_sel(sels[0]) {
            char_pos(t, sels[0].spec_end()) - char_pos(t, sels[0].spec_start())
        } else {
            0
        }) + deleted_before(t, sels.drop_first(), i - 1)
    }
}

/// A column moved left by `d` characters, stopping at 0.
pub open spec fn column_less(column: int, d: int) -> int {
    if column > d {
        column - d
    } else {
        0
    }
}

/// What `collapse_ranges` gives, selection by selection: a range collapses
/// at its start with its column moved left by the characters deleted before
/// it (less the starting `offset`), stopping at column 0; a cursor stays.
pub proof fn lemma_collapse_ranges_each(t: Seq<char>, sels: Seq<Selection>, offset: int, i: int)
    requires
        0 <= i < sels.len(),
        offset <= 0,
        forall|k: int| 0 <= k < sels.len() && is_range_sel(#[trigger] sels[k]) ==> char_pos(t, sels[k].spec_start())
            <= char_pos(t, sels[k].spec_end()),
    ensures
        is_range_sel(sels[i]) ==> collapse_ranges(t, sels, offset).0[i] == ({
            let st = sels[i].spec_start();
            let c = at(st.line as int, column_less(st.column as int, deleted_before(t, sels, i) - offset));
            Selection { anchor: c, head: c }
        }),
        !is_range_sel(sels[i]) ==> collapse_ranges(t, sels, offset).0[i] == sels[i],
    decreases sels.len(),
{
    let x = sels[0];
    let st = x.spec_start();
    let next = offset - (char_pos(t, x.spec_end()) - char_pos(t, st));
    let rest = sels.drop_first();
    assert forall|k: int| 0 <= k < rest.len() && is_range_sel(#[trigger] rest[k]) implies char_pos(
        t,
        rest[k].spec_start(),
    ) <= char_pos(t, rest[k].spec_end()) by {
        assert(rest[k] == sels[k + 1]);
    }
    if i > 0 {
        assert(rest[i - 1] == sels[i]);
        if is_range_sel(x) {
            assert(char_pos(t, st) <= char_pos(t, x.spec_end()));
            lemma_collapse_ranges_each(t, rest, next, i - 1);
            lemma_collapse_ranges_len(t, rest, next);
        } else {
            lemma_collapse_ranges_each(t, rest, offset, i - 1);
            lemma_collapse_ranges_len(t, rest, offset);
        }
    }
}

/// Deleting never lengthens the text.
pub proof fn lemma_delete_ranges_len(t: Seq<char>, sels: Seq<Selection>)
    ensures
        delete_ranges(t, sels).0.len() <= t.len(),
    decreases sels.len(),
{
    if sels.len() > 0 {
        let x = sels[0];
        let sp = char_pos(t, x.spec_start());
        let ep = char_pos(t, x.spec_end());
        lemma_char_pos_bounds(t, x.spec_start());
        lemma_char_pos_bounds(t, x.spec_end());
        if ep > sp {
            lemma_delete_ranges_len(t.take(sp) + t.skip(ep), sels.drop_first());
        } else {
            lemma_delete_ranges_len(t, sels.drop_first());
        }
    }
}

/// Whether some selection covers a range.
pub open spec fn any_range(sels: Seq<Selection>) -> bool {
    exists|i: int| 0 <= i < sels.len() && is_range_sel(#[trigger] sels[i])
}

/// The primary index after merging `sels`: clamped to the merged count.
pub open spec fn primary_after_merge(sels: Seq<Selection>, p: usize) -> usize {
    if sels.len() > 1 && p >= merged_selections(sels).len() {
        (merged_selections(sels).len() - 1) as usize
    } else {
        p
    }
}

/// Text, selections and primary index after `delete_selection`.
pub open spec fn after_delete(t: Seq<char>, sels: Seq<Selection>, p: usize) -> (Seq<char>, Seq<Selection>, usize) {
    if any_range(sels) {
        let c = collapsed_after_delete(t, sels);
        let p1 = if p >= c.len() { (c.len() - 1) as usize } else { p };
        (delete_ranges(t, ranges_to_delete(sels)).0, merged_selections(c), primary_after_merge(c, p1))
    } else {
        (t, sels, p)
    }
}

/// The (position, text) pairs `delete_selection` records.
pub open spec fn delete_pairs(t: Seq<char>, sels: Seq<Selection>) -> Seq<(int, Seq<char>)> {
    if any_range(sels) {
        delete_ranges(t, ranges_to_delete(sels)).1
    } else {
        Seq::empty()
    }
}

/// The recorded operations grew by `ops` exactly.
pub open spec fn recorded_grew(before: Seq<EditOperation>, after: Seq<EditOperation>, pairs: Seq<(int, Seq<char>)>, delete: bool) -> bool {
    &&& after.len() == before.len() + pairs.len()
    &&& after.take(before.len() as int) == before
    &&& ops_match(after.skip(before.len() as int), pairs, delete)
}

/// Sorts selections by start, latest first, stably (insertion sort).
fn sort_by_start_desc(v: &Vec<Selection>) -> (r: Vec<Selection>)
    ensures
        r@ == stable_sort(v@, |a: Selection, b: Selection| starts_after(a, b)),
{
    let ghost precedes = |a: Selection, b: Selection| starts_after(a, b);
    let mut r: Vec<Selection> = Vec::new();
    let mut i: usize = 0;
    proof {
        assert(v@.take(0) =~= Seq::<Selection>::empty());
    }
    while i < v.len()
        invariant
            i <= v@.len(),
            precedes == (|a: Selection, b: Selection| starts_after(a, b)),
            r@ == stable_sort(v@.take(i as int), precedes),
        decreases v@.len() - i,
    {
        let x = v[i];
        let xs = x.start_pos();
        let mut k: usize = 0;
        proof {
            assert(r@.skip(0) =~= r@);
        }
        while k < r.len() && !cursor_is_lt(r[k].start_pos(), xs)
            invariant
                k <= r@.len(),
                xs == x.spec_start(),
                precedes == (|a: Selection, b: Selection| starts_after(a, b)),
                ins_pos(r@, x, precedes) == k + ins_pos(r@.skip(k as int), x, precedes),
            decreases r@.len() - k,
        {
            proof {
                assert(r@.skip(k as int).drop_first() =~= r@.skip(k + 1));
            }
            k = k + 1;
        }
        proof {
            assert(v@.take(i + 1).drop_last() =~= v@.take(i as int));
            assert(v@.take(i + 1).last() == x);
        }
        r.insert(k, x);
        i = i + 1;
    }
    proof {
        assert(v@.take(v@.len() as int) =~= v@);
    }
    r
}

/// The selections that cover a range, in order.
fn range_selections(v: &Vec<Selection>) -> (r: Vec<Selection>)
    ensures
        r@ == v@.filter(|x: Selection| is_range_sel(x)),
{
    let ghost keep = |x: Selection| is_range_sel(x);
    let mut r: Vec<Selection> = Vec::new();
    let mut i: usize = 0;
    proof {
        assert(v@.take(0).filter(keep) =~= Seq::<Selection>::empty());
    }
    while i < v.len()
        invariant
            i <= v@.len(),
            keep == (|x: Selection| is_range_sel(x)),
            r@ == v@.take(i as int).filter(keep),
        decreases v@.len() - i,
    {
        let x = v[i];
        proof {
            v@.take(i as int).lemma_filter_push(x, keep);
            assert(v@.take(i as int).push(x) =~= v@.take(i + 1));
        }
        if x.is_range() {
            r.push(x);
        }
        i = i + 1;
    }
    proof {
        assert(v@.take(v@.len() as int) =~= v@);
    }
    r
}


// ─────────────────────────────────────────────────────────────────────────
// Editing at every cursor
// ─────────────────────────────────────────────────────────────────────────

/// Everything a stable sort returns was in its input.
pub proof fn lemma_stable_sort_contains<T>(s: Seq<T>, precedes: spec_fn(T, T) -> bool, j: int)
    requires
        0 <= j < stable_sort(s, precedes).len(),
    ensures
        s.contains(stable_sort(s, precedes)[j]),
    decreases s.len(),
{
    lemma_stable_sort_len(s, precedes);
    if s.len() > 0 {
        let t = stable_sort(s.drop_last(), precedes);
        let k = ins_pos(t, s.last(), precedes);
        lemma_ins_pos_bounds(t, s.last(), precedes);
        lemma_stable_sort_len(s.drop_last(), precedes);
        let r = t.insert(k, s.last());
        if j == k {
            assert(s[s.len() - 1] == r[j]);
        } else {
            let jj = if j < k { j } else { j - 1 };
            assert(r[j] == t[jj]);
            lemma_stable_sort_contains(s.drop_last(), precedes, jj);
            let i = choose|i: int| 0 <= i < s.drop_last().len() && s.drop_last()[i] == t[jj];
            assert(s[i] == t[jj]);
        }
    }
}

/// Each selection's index with the character position of its head.
pub open spec fn head_positions(t: Seq<char>, sels: Seq<Selection>) -> Seq<(usize, usize)> {
    Seq::new(sels.len(), |i: int| (i as usize, char_pos(t, sels[i].head) as usize))
}

/// Position pair `a` comes after `b` (for a descending sort by position).
pub open spec fn pos_after(a: (usize, usize), b: (usize, usize)) -> bool {
    b.1 < a.1
}

/// Inserting `text` at each position of `ps` in turn (highest first): the
/// final text and, per position, its selection index with the cursor at
/// `offset` characters into the inserted text, read in the text right after
/// that insertion.
pub open spec fn insert_all(t: Seq<char>, ps: Seq<(usize, usize)>, text: Seq<char>, offset: int) -> (Seq<char>, Seq<(usize, Cursor)>)
    decreases ps.len(),
{
    if ps.len() == 0 {
        (t, Seq::empty())
    } else {
        let p = ps[0].1 as int;
        let t2 = t.take(p) + text + t.skip(p);
        let r = insert_all(t2, ps.drop_first(), text, offset);
        (r.0, seq![(ps[0].0, cursor_of_pos(t2, p + offset))] + r.1)
    }
}

/// The selections with the listed ones collapsed at new cursors, in turn.
pub open spec fn apply_cursor_updates(sels: Seq<Selection>, ups: Seq<(usize, Cursor)>) -> Seq<Selection>
    decreases ups.len(),
{
    if ups.len() == 0 {
        sels
    } else {
        let u = ups[0];
        let s2 = if u.0 < sels.len() {
            sels.update(u.0 as int, Selection { anchor: u.1, head: u.1 })
        } else {
            sels
        };
        apply_cursor_updates(s2, ups.drop_first())
    }
}

/// The (position, text) pairs of inserting `text` at each position of `ps`.
pub open spec fn insert_pairs(ps: Seq<(usize, usize)>, text: Seq<char>) -> Seq<(int, Seq<char>)> {
    Seq::new(ps.len(), |i: int| (ps[i].1 as int, text))
}

/// The recorded operations grew by the deletions `dels`, then the
/// insertions `ins`.
pub open spec fn recorded_grew2(
    before: Seq<EditOperation>,
    after: Seq<EditOperation>,
    dels: Seq<(int, Seq<char>)>,
    ins: Seq<(int, Seq<char>)>,
) -> bool {
    &&& after.len() == before.len() + dels.len() + ins.len()
    &&& after.take(before.len() as int) == before
    &&& ops_match(after.subrange(before.len() as int, (before.len() + dels.len()) as int), dels, true)
    &&& ops_match(after.skip((before.len() + dels.len()) as int), ins, false)
}

/// The cursors can be placed after inserting at every cursor: every head
/// position (after the selected ranges are deleted) can be formed, and
/// moved `offset` characters on.
pub open spec fn insert_ok(t: Seq<char>, sels: Seq<Selection>, p: usize, offset: int) -> bool {
    let a = after_delete(t, sels, p);
    &&& delete_selection_ok(t, sels)
    &&& forall|i: int|
        0 <= i < a.1.len() ==> pos_fits(a.0, #[trigger] a.1[i].head) && char_pos(a.0, a.1[i].head)
            + offset <= usize::MAX
}

/// `x` put into the strictly descending `r` at its place, unless there.
pub open spec fn ins_desc(r: Seq<usize>, x: usize) -> Seq<usize>
    decreases r.len(),
{
    if r.len() == 0 {
        seq![x]
    } else if x == r[0] {
        r
    } else if x > r[0] {
        seq![x] + r
    } else {
        seq![r[0]] + ins_desc(r.drop_first(), x)
    }
}

/// The distinct values of `s`, highest first.
pub open spec fn desc_distinct(s: Seq<usize>) -> Seq<usize>
    decreases s.len(),
{
    if s.len() == 0 {
        Seq::empty()
    } else {
        ins_desc(desc_distinct(s.drop_last()), s.last())
    }
}

/// Strictly descending: each value is above every later one.
pub open spec fn strictly_desc(r: Seq<usize>) -> bool {
    forall|i: int, j: int| 0 <= i < j < r.len() ==> r[i] > r[j]
}

/// Putting a value into a strictly descending sequence keeps it strictly
/// descending and adds exactly that value.
proof fn lemma_ins_desc(r: Seq<usize>, x: usize)
    requires
        strictly_desc(r),
    ensures
        strictly_desc(ins_desc(r, x)),
        forall|y: usize| #[trigger] ins_desc(r, x).contains(y) <==> (r.contains(y) || y == x),
        ins_desc(r, x).len() > 0,
        ins_desc(r, x)[0] == if r.len() > 0 && r[0] > x { r[0] } else { x },
    decreases r.len(),
{
    if r.len() == 0 {
        assert(ins_desc(r, x) == seq![x]);
        assert forall|y: usize| ins_desc(r, x).contains(y) <==> (r.contains(y) || y == x) by {
            if ins_desc(r, x).contains(y) {
                assert(seq![x][0] == x);
            }
            if y == x {
                assert(seq![x][0] == x);
            }
        }
    } else if x == r[0] {
    } else if x > r[0] {
        let n = seq![x] + r;
        assert forall|y: usize| n.contains(y) <==> (r.contains(y) || y == x) by {
            if n.contains(y) {
                let k = choose|k: int| 0 <= k < n.len() && n[k] == y;
                if k > 0 {
                    assert(r[k - 1] == y);
                }
            }
            if r.contains(y) {
                let k = choose|k: int| 0 <= k < r.len() && r[k] == y;
                assert(n[k + 1] == y);
            }
            if y == x {
                assert(n[0] == y);
            }
        }
        assert forall|i: int, j: int| 0 <= i < j < n.len() implies n[i] > n[j] by {
            if i > 0 {
                assert(n[i] == r[i - 1] && n[j] == r[j - 1]);
            } else {
                assert(n[j] == r[j - 1]);
                assert(r[0] >= r[j - 1]) by {
                    if j - 1 > 0 {
                        assert(r[0] > r[j - 1]);
                    }
                }
            }
        }
    } else {
        let rest = r.drop_first();
        assert(strictly_desc(rest)) by {
            assert forall|i: int, j: int| 0 <= i < j < rest.len() implies rest[i] > rest[j] by {
                assert(rest[i] == r[i + 1] && rest[j] == r[j + 1]);
            }
        }
        lemma_ins_desc(rest, x);
        let m = ins_desc(rest, x);
        let n = seq![r[0]] + m;
        assert forall|y: usize| n.contains(y) <==> (r.contains(y) || y == x) by {
            if n.contains(y) {
                let k = choose|k: int| 0 <= k < n.len() && n[k] == y;
                if k > 0 {
                    assert(m[k - 1] == y);
                    assert(m.contains(y));
                    assert(rest.contains(y) || y == x);
                    if rest.contains(y) {
                        let kk = choose|kk: int| 0 <= kk < rest.len() && rest[kk] == y;
                        assert(r[kk + 1] == y);
                    }
                } else {
                    assert(r[0] == y);
                }
            }
            if r.contains(y) {
                let k = choose|k: int| 0 <= k < r.len() && r[k] == y;
                if k > 0 {
                    assert(rest[k - 1] == y);
                    assert(m.contains(y));
                    let kk = choose|kk: int| 0 <= kk < m.len() && m[kk] == y;
                    assert(n[kk + 1] == y);
                } else {
                    assert(n[0] == y);
                }
            }
            if y == x {
                assert(m.contains(y));
                let kk = choose|kk: int| 0 <= kk < m.len() && m[kk] == y;
                assert(n[kk + 1] == y);
            }
        }
        assert forall|i: int, j: int| 0 <= i < j < n.len() implies n[i] > n[j] by {
            if i > 0 {
                assert(n[i] == m[i - 1] && n[j] == m[j - 1]);
            } else {
                assert(n[j] == m[j - 1]);
                assert(m.contains(m[j - 1]));
                if rest.contains(m[j - 1]) {
                    let kk = choose|kk: int| 0 <= kk < rest.len() && rest[kk] == m[j - 1];
                    assert(r[kk + 1] == m[j - 1]);
                }
            }
        }
    }
}

/// The distinct values, highest first, hold exactly the values of `s`, each
/// once, in strictly descending order.
pub proof fn lemma_desc_distinct(s: Seq<usize>)
    ensures
        strictly_desc(desc_distinct(s)),
        forall|y: usize| #[trigger] desc_distinct(s).contains(y) <==> s.contains(y),
    decreases s.len(),
{
    if s.len() > 0 {
        lemma_desc_distinct(s.drop_last());
        lemma_ins_desc(desc_distinct(s.drop_last()), s.last());
        assert forall|y: usize| desc_distinct(s).contains(y) <==> s.contains(y) by {
            if s.drop_last().contains(y) {
                let k = choose|k: int| 0 <= k < s.drop_last().len() && s.drop_last()[k] == y;
                assert(s[k] == y);
            }
            if s.contains(y) {
                let k = choose|k: int| 0 <= k < s.len() && s[k] == y;
                if k < s.len() - 1 {
                    assert(s.drop_last()[k] == y);
                }
            }
        }
    }
}

/// Backspace at every cursor targets exactly the position before each head
/// that is not at the text's start.
pub proof fn lemma_prev_positions(ps: Seq<(usize, usize)>)
    ensures
        forall|i: int| 0 <= i < ps.len() && ps[i].1 > 0 ==> prev_positions(ps).contains((ps[i].1 - 1) as usize),
        forall|x: usize| prev_positions(ps).contains(x) ==> exists|i: int|
            0 <= i < ps.len() && ps[i].1 > 0 && x == ps[i].1 - 1,
    decreases ps.len(),
{
    if ps.len() > 0 {
        let a = prev_positions(ps.drop_last());
        let b = if ps.last().1 > 0 { seq![(ps.last().1 - 1) as usize] } else { Seq::<usize>::empty() };
        lemma_prev_positions(ps.drop_last());
        assert(prev_positions(ps) == a + b);
        assert forall|i: int| 0 <= i < ps.len() && ps[i].1 > 0 implies prev_positions(ps).contains(
            (ps[i].1 - 1) as usize,
        ) by {
            if i < ps.len() - 1 {
                assert(ps.drop_last()[i] == ps[i]);
                let k = choose|k: int| 0 <= k < a.len() && a[k] == (ps[i].1 - 1) as usize;
                assert((a + b)[k] == a[k]);
            } else {
                assert((a + b)[a.len() as int] == b[0]);
            }
        }
        assert forall|x: usize| prev_positions(ps).contains(x) implies exists|i: int|
            0 <= i < ps.len() && ps[i].1 > 0 && x == ps[i].1 - 1 by {
            let k = choose|k: int| 0 <= k < (a + b).len() && (a + b)[k] == x;
            if k < a.len() {
                assert(a[k] == x);
                assert(a.contains(x));
                let i = choose|i: int| 0 <= i < ps.drop_last().len() && ps.drop_last()[i].1 > 0 && x == ps.drop_last()[i].1 - 1;
                assert(ps[i] == ps.drop_last()[i]);
            } else {
                assert(b[k - a.len()] == x);
                assert(ps[ps.len() - 1].1 > 0 && x == ps[ps.len() - 1].1 - 1);
            }
        }
    }
}

/// The position before each head that is not at the start.
pub open spec fn prev_positions(ps: Seq<(usize, usize)>) -> Seq<usize>
    decreases ps.len(),
{
    if ps.len() == 0 {
        Seq::empty()
    } else {
        prev_positions(ps.drop_last()) + if ps.last().1 > 0 {
            seq![(ps.last().1 - 1) as usize]
        } else {
            Seq::<usize>::empty()
        }
    }
}

/// The head positions alone.
pub open spec fn positions_only(ps: Seq<(usize, usize)>) -> Seq<usize> {
    Seq::new(ps.len(), |i: int| ps[i].1)
}

/// Deleting the character at each target (highest first) that lies in the
/// text: the final text and the (position, character) of each deletion.
pub open spec fn delete_chars(t: Seq<char>, ds: Seq<usize>) -> (Seq<char>, Seq<(int, Seq<char>)>)
    decreases ds.len(),
{
    if ds.len() == 0 {
        (t, Seq::empty())
    } else {
        let d = ds[0] as int;
        if d < t.len() {
            let r = delete_chars(t.take(d) + t.skip(d + 1), ds.drop_first());
            (r.0, seq![(d, seq![t[d]])] + r.1)
        } else {
            delete_chars(t, ds.drop_first())
        }
    }
}

/// The number of targets below `p`.
pub open spec fn count_below(ds: Seq<usize>, p: usize) -> nat
    decreases ds.len(),
{
    if ds.len() == 0 {
        0
    } else {
        count_below(ds.drop_last(), p) + if ds.last() < p { 1nat } else { 0nat }
    }
}

/// Each cursor collapsed at its head position moved back by the deletions
/// below it, clamped to the final text.
pub open spec fn shifted_cursors(t: Seq<char>, ps: Seq<(usize, usize)>, ds: Seq<usize>) -> Seq<Selection> {
    Seq::new(
        ps.len(),
        |i: int|
            {
                let p = ps[i].1 as int;
                let c = count_below(ds, ps[i].1) as int;
                let np = if p >= c { p - c } else { 0 };
                let cur = cursor_of_pos(t, min_of(np, t.len() as int));
                Selection { anchor: cur, head: cur }
            },
    )
}

/// Puts `x` into the strictly descending `ds` at its place, unless there.
fn insert_desc(ds: &mut Vec<usize>, x: usize)
    ensures
        final(ds)@ == ins_desc(old(ds)@, x),
{
    let mut k: usize = 0;
    proof {
        assert(ds@.take(0) + ins_desc(ds@.skip(0), x) =~= ins_desc(ds@, x)) by {
            assert(ds@.skip(0) =~= ds@);
        }
    }
    while k < ds.len() && ds[k] > x
        invariant
            k <= ds@.len(),
            ds@ == old(ds)@,
            ds@.take(k as int) + ins_desc(ds@.skip(k as int), x) == ins_desc(ds@, x),
        decreases ds@.len() - k,
    {
        proof {
            assert(ds@.skip(k as int)[0] == ds@[k as int]);
            assert(ds@.skip(k as int).drop_first() =~= ds@.skip(k + 1));
            assert(ds@.take(k + 1) + ins_desc(ds@.skip(k + 1), x) =~= ds@.take(k as int) + ins_desc(
                ds@.skip(k as int),
                x,
            ));
        }
        k = k + 1;
    }
    if k < ds.len() && ds[k] == x {
        proof {
            assert(ds@.take(k as int) + ds@.skip(k as int) =~= ds@);
        }
        return;
    }
    let ghost before = ds@;
    ds.insert(k, x);
    proof {
        assert(ds@ =~= before.take(k as int) + ins_desc(before.skip(k as int), x));
    }
}

/// Where `move_all_cursors` moves one head: Left and Right by a character
/// (across line ends), Up and Down by a line (Up from the first line to
/// the document start, Down from the last line to its end), Home and End
/// to the line's ends; other keys leave it.
pub open spec fn multi_move(s: Seq<char>, c: Cursor, key: KeyCode) -> Cursor {
    let total = line_count_of(s) as int;
    let l = c.line as int;
    let col = c.column as int;
    match key {
        KeyCode::ArrowLeft => if col > 0 {
            at(l, col - 1)
        } else if l > 0 {
            at(l - 1, line_len(s, l - 1))
        } else {
            c
        },
        KeyCode::ArrowRight => if col < line_len(s, l) {
            at(l, col + 1)
        } else if l + 1 < total {
            at(l + 1, 0)
        } else {
            c
        },
        KeyCode::ArrowUp => if l > 0 {
            at(l - 1, min_of(col, line_len(s, l - 1)))
        } else {
            at(0, 0)
        },
        KeyCode::ArrowDown => if l + 1 < total {
            at(l + 1, min_of(col, line_len(s, l + 1)))
        } else {
            at(l, line_len(s, l))
        },
        KeyCode::Home => at(l, 0),
        KeyCode::End => at(l, line_len(s, l)),
        _ => c,
    }
}

/// Every selection's head moved by `multi_move`; with Shift the anchors
/// stay, without it every selection collapses.
pub open spec fn moved_all(s: Seq<char>, sels: Seq<Selection>, key: KeyCode, shift: bool) -> Seq<Selection> {
    Seq::new(
        sels.len(),
        |i: int|
            {
                let nc = multi_move(s, sels[i].head, key);
                if shift {
                    Selection { anchor: sels[i].anchor, head: nc }
                } else {
                    Selection { anchor: nc, head: nc }
                }
            },
    )
}

/// ArrowLeft on all cursors moves each head one character back: within
/// its line one column left, from the start of a line after the first to
/// the end of the previous line, and at the document start nowhere. With
/// Shift each anchor stays; without it each selection collapses at its new
/// head.
pub proof fn lemma_move_all_left(s: Seq<char>, sels: Seq<Selection>, shift: bool, i: int)
    requires
        s.len() <= usize::MAX,
        0 <= i < sels.len(),
    ensures
        moved_all(s, sels, KeyCode::ArrowLeft, shift).len() == sels.len(),
        ({
            let h = sels[i].head;
            let r = moved_all(s, sels, KeyCode::ArrowLeft, shift)[i];
            &&& h.column > 0 ==> r.head.line == h.line && r.head.column == h.column - 1
            &&& (h.column == 0 && h.line > 0) ==> r.head.line == h.line - 1 && r.head.column == line_len(
                s,
                h.line - 1,
            )
            &&& (h.column == 0 && h.line == 0) ==> r.head == h
            &&& shift ==> r.anchor == sels[i].anchor
            &&& !shift ==> r.anchor == r.head
        }),
{
    lemma_line_len_bounds(s, sels[i].head.line - 1);
}

/// `count_below` counts exactly the targets strictly below the position:
/// a target at the position itself is not counted, one below it is, one
/// above it is not.
pub proof fn lemma_count_below_strict(ds: Seq<usize>, p: usize, q: usize)
    ensures
        count_below(ds, p) == ds.filter(|d: usize| d < p).len(),
        count_below(ds.push(p), p) == count_below(ds, p),
        q < p ==> count_below(ds.push(q), p) == count_below(ds, p) + 1,
        q >= p ==> count_below(ds.push(q), p) == count_below(ds, p),
    decreases ds.len(),
{
    reveal(Seq::filter);
    if ds.len() > 0 {
        lemma_count_below_strict(ds.drop_last(), p, q);
    }
    assert(ds.push(p).drop_last() =~= ds);
    assert(ds.push(q).drop_last() =~= ds);
}

/// The other keys on all cursors: ArrowRight moves each head one column on,
/// or from the end of a line before the last to the start of the next;
/// ArrowUp one line up with the column clamped to that line's length (from
/// the first line to the document's start); ArrowDown one line down with the
/// column clamped likewise (on the last line to its end); Home to the start
/// and End to the end of the head's line. With Shift each anchor stays;
/// without it each selection collapses at its new head.
pub proof fn lemma_move_all_other_keys(s: Seq<char>, sels: Seq<Selection>, shift: bool, i: int)
    requires
        s.len() <= usize::MAX,
        0 <= i < sels.len(),
    ensures
        ({
            let h = sels[i].head;
            let n = line_len(s, h.line as int);
            let r = moved_all(s, sels, KeyCode::ArrowRight, shift)[i];
            &&& h.column < n ==> r.head.line == h.line && r.head.column == h.column + 1
            &&& (h.column >= n && h.line < last_line(s)) ==> r.head.line == h.line + 1 && r.head.column == 0
            &&& (h.column >= n && h.line >= last_line(s)) ==> r.head == h
        }),
        ({
            let h = sels[i].head;
            let r = moved_all(s, sels, KeyCode::ArrowUp, shift)[i];
            let n = line_len(s, h.line - 1);
            &&& h.line > 0 ==> r.head.line == h.line - 1
            &&& (h.line > 0 && h.column <= n) ==> r.head.column == h.column
            &&& (h.line > 0 && h.column > n) ==> r.head.column == n
            &&& h.line == 0 ==> r.head.line == 0 && r.head.column == 0
        }),
        ({
            let h = sels[i].head;
            let r = moved_all(s, sels, KeyCode::ArrowDown, shift)[i];
            let n = line_len(s, h.line + 1);
            &&& h.line < last_line(s) ==> r.head.line == h.line + 1
            &&& (h.line < last_line(s) && h.column <= n) ==> r.head.column == h.column
            &&& (h.line < last_line(s) && h.column > n) ==> r.head.column == n
            &&& h.line >= last_line(s) ==> r.head.line == h.line && r.head.column == line_len(s, h.line as int)
        }),
        moved_all(s, sels, KeyCode::Home, shift)[i].head == (Cursor { line: sels[i].head.line, column: 0 }),
        moved_all(s, sels, KeyCode::End, shift)[i].head.line == sels[i].head.line,
        moved_all(s, sels, KeyCode::End, shift)[i].head.column == line_len(s, sels[i].head.line as int),
        forall|key: KeyCode| shift ==> (#[trigger] moved_all(s, sels, key, shift))[i].anchor == sels[i].anchor,
        forall|key: KeyCode| !shift ==> (#[trigger] moved_all(s, sels, key, shift))[i].anchor == moved_all(
            s,
            sels,
            key,
            shift,
        )[i].head,
{
    let l = sels[i].head.line as int;
    lemma_line_len_bounds(s, l);
    lemma_line_len_bounds(s, l - 1);
    lemma_line_len_bounds(s, l + 1);
    lemma_breaks_before_le(s, s.len() as int);
}

/// Counting below a position, with one more target in front.
proof fn lemma_count_below_front(d: usize, r: Seq<usize>, p: usize)
    ensures
        count_below(seq![d] + r, p) == count_below(r, p) + if d < p { 1nat } else { 0nat },
    decreases r.len(),
{
    if r.len() > 0 {
        lemma_count_below_front(d, r.drop_last(), p);
        assert((seq![d] + r).drop_last() =~= seq![d] + r.drop_last());
        assert((seq![d] + r).last() == r.last());
    } else {
        assert((seq![d] + r).drop_last() =~= r);
        assert((seq![d] + r).last() == d);
    }
}

/// Where every target lies below a position, all of them count.
proof fn lemma_count_below_all(r: Seq<usize>, p: usize)
    requires
        forall|j: int| 0 <= j < r.len() ==> r[j] < p,
    ensures
        count_below(r, p) == r.len(),
    decreases r.len(),
{
    if r.len() > 0 {
        lemma_count_below_all(r.drop_last(), p);
    }
}

/// Deleting at distinct targets, highest first, shortens the text by the
/// number of targets inside it; targets at or past its end delete nothing.
pub proof fn lemma_delete_chars_len(t: Seq<char>, ds: Seq<usize>)
    requires
        t.len() <= usize::MAX,
        strictly_desc(ds),
    ensures
        delete_chars(t, ds).0.len() == t.len() - count_below(ds, t.len() as usize),
    decreases ds.len(),
{
    if ds.len() > 0 {
        let d = ds[0] as int;
        let rest = ds.drop_first();
        assert(ds =~= seq![ds[0]] + rest);
        lemma_count_below_front(ds[0], rest, t.len() as usize);
        assert(strictly_desc(rest)) by {
            assert forall|i: int, j: int| 0 <= i < j < rest.len() implies rest[i] > rest[j] by {
                assert(rest[i] == ds[i + 1] && rest[j] == ds[j + 1]);
            }
        }
        if d < t.len() {
            let t2 = t.take(d) + t.skip(d + 1);
            assert forall|j: int| 0 <= j < rest.len() implies rest[j] < t2.len() by {
                assert(rest[j] == ds[j + 1]);
                assert(ds[0] > ds[j + 1]);
            }
            lemma_count_below_all(rest, t2.len() as usize);
            lemma_count_below_all(rest, t.len() as usize);
            lemma_delete_chars_len(t2, rest);
        } else {
            lemma_delete_chars_len(t, rest);
        }
    }
}

/// Deleting the characters at distinct targets, highest first, keeps every
/// character that is not a target, moved back by the number of targets
/// below it.
pub proof fn lemma_delete_chars_keeps_others(t: Seq<char>, ds: Seq<usize>, q: int)
    requires
        t.len() <= usize::MAX,
        strictly_desc(ds),
        0 <= q < t.len(),
        !ds.contains(q as usize),
    ensures
        q - count_below(ds, q as usize) >= 0,
        delete_chars(t, ds).0[q - count_below(ds, q as usize)] == t[q],
    decreases ds.len(),
{
    lemma_delete_chars_len(t, ds);
    if ds.len() > 0 {
        let d = ds[0] as int;
        let rest = ds.drop_first();
        assert(ds =~= seq![ds[0]] + rest);
        lemma_count_below_front(ds[0], rest, q as usize);
        assert(strictly_desc(rest)) by {
            assert forall|i: int, j: int| 0 <= i < j < rest.len() implies rest[i] > rest[j] by {
                assert(rest[i] == ds[i + 1] && rest[j] == ds[j + 1]);
            }
        }
        assert forall|j: int| 0 <= j < rest.len() implies rest[j] < d by {
            assert(rest[j] == ds[j + 1]);
            assert(ds[0] > ds[j + 1]);
        }
        if q < d {
            assert(!rest.contains(q as usize)) by {
                if rest.contains(q as usize) {
                    let j = choose|j: int| 0 <= j < rest.len() && rest[j] == q as usize;
                    assert(ds[j + 1] == q as usize);
                }
            }
            if d < t.len() {
                let t2 = t.take(d) + t.skip(d + 1);
                lemma_delete_chars_keeps_others(t2, rest, q);
                assert(t2[q] == t[q]);
            } else {
                lemma_delete_chars_keeps_others(t, rest, q);
            }
        } else {
            let t2 = t.take(d) + t.skip(d + 1);
            assert(q != d) by {
                assert(ds[0] == q as usize ==> ds.contains(q as usize));
            }
            assert forall|j: int| 0 <= j < rest.len() implies rest[j] < (q - 1) as usize by {
                assert(rest[j] < d);
            }
            lemma_count_below_all(rest, q as usize);
            lemma_count_below_all(rest, (q - 1) as usize);
            assert(!rest.contains((q - 1) as usize)) by {
                if rest.contains((q - 1) as usize) {
                    let j = choose|j: int| 0 <= j < rest.len() && rest[j] == (q - 1) as usize;
                    assert(rest[j] < d);
                }
            }
            lemma_delete_chars_keeps_others(t2, rest, q - 1);
            assert(t2[q - 1] == t[q]);
        }
    }
}

/// A forward delete at every cursor removes the character after each
/// distinct head position and keeps every other character, in order: one
/// that no head stands before moves back by the number of heads strictly
/// below it, and the text shrinks by the number of distinct heads inside it.
pub proof fn lemma_forward_delete_all(t: Seq<char>, ps: Seq<(usize, usize)>, q: int)
    requires
        t.len() <= usize::MAX,
        0 <= q < t.len(),
        forall|i: int| 0 <= i < ps.len() ==> ps[i].1 != q,
    ensures
        ({
            let ds = desc_distinct(positions_only(ps));
            let r = delete_chars(t, ds).0;
            &&& r.len() == t.len() - count_below(ds, t.len() as usize)
            &&& q - count_below(ds, q as usize) >= 0
            &&& r[q - count_below(ds, q as usize)] == t[q]
        }),
{
    let hs = positions_only(ps);
    let ds = desc_distinct(hs);
    lemma_desc_distinct(hs);
    assert(!ds.contains(q as usize)) by {
        if hs.contains(q as usize) {
            let k = choose|k: int| 0 <= k < hs.len() && hs[k] == q as usize;
            assert(ps[k].1 == q);
        }
    }
    lemma_delete_chars_len(t, ds);
    lemma_delete_chars_keeps_others(t, ds, q);
}

/// A Backspace at every cursor removes the character before each head that
/// is not at the text's start and keeps every other character, in order:
/// one that is not right before a head moves back by the number of removed
/// positions strictly below it, and the text shrinks by the number of
/// distinct removed positions inside it.
pub proof fn lemma_backspace_all(t: Seq<char>, ps: Seq<(usize, usize)>, q: int)
    requires
        t.len() <= usize::MAX,
        0 <= q < t.len(),
        forall|i: int| 0 <= i < ps.len() && ps[i].1 > 0 ==> ps[i].1 - 1 != q,
    ensures
        ({
            let ds = desc_distinct(prev_positions(ps));
            let r = delete_chars(t, ds).0;
            &&& r.len() == t.len() - count_below(ds, t.len() as usize)
            &&& q - count_below(ds, q as usize) >= 0
            &&& r[q - count_below(ds, q as usize)] == t[q]
        }),
{
    let hs = prev_positions(ps);
    let ds = desc_distinct(hs);
    lemma_desc_distinct(hs);
    lemma_prev_positions(ps);
    assert(!ds.contains(q as usize)) by {
        if hs.contains(q as usize) {
            let i = choose|i: int| 0 <= i < ps.len() && ps[i].1 > 0 && q as usize == ps[i].1 - 1;
        }
    }
    lemma_delete_chars_len(t, ds);
    lemma_delete_chars_keeps_others(t, ds, q);
}

/// After a forward delete at every cursor, each cursor stands at its old
/// character position less the number of deleted positions strictly below
/// it: its own deletion does not move it.
pub proof fn lemma_shifted_by_deletions_below(t: Seq<char>, ps: Seq<(usize, usize)>, ds: Seq<usize>, i: int)
    requires
        0 <= i < ps.len(),
    ensures
        shifted_cursors(t, ps, ds).len() == ps.len(),
        ({
            let p = ps[i].1 as int;
            let k = ds.filter(|d: usize| d < ps[i].1).len() as int;
            let r = shifted_cursors(t, ps, ds)[i];
            (k <= p && p - k <= t.len()) ==> r.anchor == cursor_of_pos(t, p - k) && r.head == cursor_of_pos(
                t,
                p - k,
            )
        }),
{
    lemma_count_below_strict(ds, ps[i].1, 0);
}

// ─────────────────────────────────────────────────────────────────────────
// Find and replace
// ─────────────────────────────────────────────────────────────────────────

/// A character index never passes the end of the text.
pub proof fn lemma_char_at_byte_bound(s: Seq<char>, b: int)
    ensures
        crate::text::char_at_byte(s, b) <= s.len(),
    decreases s.len(),
{
    if s.len() > 0 && b >= crate::text::utf8_width(s[0]) {
        lemma_char_at_byte_bound(s.drop_first(), b - crate::text::utf8_width(s[0]));
    }
}

/// The number of bytes of the text's UTF-8 encoding.
pub open spec fn byte_len(t: Seq<char>) -> int {
    vstd::utf8::encode_utf8(t).len() as int
}

/// The character index of byte `b`, or `fallback` past the end.
pub open spec fn char_of_byte(t: Seq<char>, b: usize, fallback: int) -> int {
    if b <= byte_len(t) {
        crate::text::char_at_byte(t, b as int) as int
    } else {
        fallback
    }
}

/// At most this many search matches are highlighted.
pub const MAX_DISPLAYED_MATCHES: usize = 1000;

/// The highlight of a match: its character range (the start falling back
/// to 0 and the end to the start past the text) and whether it is the
/// current match.
pub open spec fn match_highlight(t: Seq<char>, m: SearchMatch, is_current: bool) -> (usize, usize, bool) {
    let cs = char_of_byte(t, m.start_byte, 0);
    (cs as usize, char_of_byte(t, m.end_byte, cs) as usize, is_current)
}

/// Whether a match touches the lines `start_line..end_line`: it starts
/// before `end_line`, and its last byte lies on `start_line` or later.
pub open spec fn match_visible(t: Seq<char>, m: SearchMatch, start_line: int, end_line: int) -> bool {
    let last = if m.end_byte == 0 { 0usize } else { (m.end_byte - 1) as usize };
    !(line_of_byte(t, last) < start_line || m.line >= end_line)
}

/// The highlights of the first `n` matches that touch the visible lines,
/// in match order.
pub open spec fn search_highlights(
    t: Seq<char>,
    ms: Seq<SearchMatch>,
    current: int,
    start_line: int,
    end_line: int,
    n: int,
) -> Seq<(usize, usize, bool)>
    decreases n,
{
    if n <= 0 {
        Seq::empty()
    } else {
        let prev = search_highlights(t, ms, current, start_line, end_line, n - 1);
        let m = ms[n - 1];
        if match_visible(t, m, start_line, end_line) {
            prev.push(match_highlight(t, m, n - 1 == current))
        } else {
            prev
        }
    }
}

/// What `TextBuffer::slice` gives: the characters between two positions,
/// each clamped to the end, empty when they do not form a range.
pub open spec fn slice_text(t: Seq<char>, a: int, b: int) -> Seq<char> {
    let a2 = min_of(a, t.len() as int);
    let b2 = min_of(b, t.len() as int);
    if a2 >= b2 {
        Seq::empty()
    } else {
        t.subrange(a2, b2)
    }
}

/// Replacing one match in `t`: its character range (from its byte range),
/// the deleted text, and the new text.
pub open spec fn replace_match(t: Seq<char>, m: SearchMatch, rep: Seq<char>) -> (int, Seq<char>, Seq<char>) {
    let sc = char_of_byte(t, m.start_byte, 0);
    let ec = char_of_byte(t, m.end_byte, sc);
    let ml = if ec >= sc { ec - sc } else { 0 };
    (sc, slice_text(t, sc, ec), t.take(sc) + rep + t.skip(sc + ml))
}

/// A byte position moved by `delta`, saturating at the ends of `usize`.
pub open spec fn shift_byte(b: usize, delta: int) -> usize {
    let v = b + delta;
    if v < 0 {
        0
    } else if v > usize::MAX {
        usize::MAX
    } else {
        v as usize
    }
}

/// The line of a byte position; past the end, the last line.
pub open spec fn line_of_byte(t: Seq<char>, b: usize) -> usize {
    if b <= byte_len(t) {
        breaks_before(t, crate::text::char_at_byte(t, b as int) as int) as usize
    } else {
        last_line(t) as usize
    }
}

/// The remaining matches after the match at `idx` was replaced: those
/// before it unchanged, those after it moved by `delta` bytes and their
/// lines read again in the new text `t`.
pub open spec fn matches_after_replace(ms: Seq<SearchMatch>, idx: int, delta: int, t: Seq<char>) -> Seq<SearchMatch> {
    let rest = ms.remove(idx);
    Seq::new(
        rest.len(),
        |j: int|
            if j < idx {
                rest[j]
            } else {
                let sb = shift_byte(rest[j].start_byte, delta);
                SearchMatch { start_byte: sb, end_byte: shift_byte(rest[j].end_byte, delta), line: line_of_byte(t, sb) }
            },
    )
}

/// Replacing every match of `ms`, the last one first, each at its
/// character range in the text left by the replacements after it: the
/// final text and the recorded (is-deletion, position, text) triples.
pub open spec fn replace_all(t: Seq<char>, ms: Seq<SearchMatch>, rep: Seq<char>) -> (Seq<char>, Seq<(bool, int, Seq<char>)>)
    decreases ms.len(),
{
    if ms.len() == 0 {
        (t, Seq::empty())
    } else {
        let r1 = replace_match(t, ms.last(), rep);
        let r = replace_all(r1.2, ms.drop_last(), rep);
        (r.0, seq![(true, r1.0, r1.1), (false, r1.0, rep)] + r.1)
    }
}

/// The operations are the recorded edits described by the triples.
pub open spec fn ops_match_mixed(ops: Seq<EditOperation>, es: Seq<(bool, int, Seq<char>)>) -> bool {
    &&& ops.len() == es.len()
    &&& forall|i: int|
        0 <= i < ops.len() ==> (#[trigger] ops[i] is Delete) == es[i].0 && crate::history::op_pos(ops[i])
            == es[i].1 && crate::history::op_text(ops[i]) == es[i].2
}

/// Text, selections and primary index after inserting `text` at every
/// cursor (selected ranges deleted first), each cursor ending `offset`
/// characters into its insertion.
pub open spec fn insert_result(t: Seq<char>, sels: Seq<Selection>, p: usize, text: Seq<char>, offset: int) -> (Seq<char>, Seq<Selection>, usize) {
    let a = after_delete(t, sels, p);
    let ps = stable_sort(head_positions(a.0, a.1), |x: (usize, usize), y: (usize, usize)| pos_after(x, y));
    let ins = insert_all(a.0, ps, text, offset);
    let upd = apply_cursor_updates(a.1, ins.1);
    (ins.0, merged_selections(upd), primary_after_merge(upd, a.2))
}

/// The insertions recorded by inserting `text` at every cursor.
pub open spec fn insert_result_pairs(t: Seq<char>, sels: Seq<Selection>, p: usize, text: Seq<char>) -> Seq<(int, Seq<char>)> {
    let a = after_delete(t, sels, p);
    insert_pairs(stable_sort(head_positions(a.0, a.1), |x: (usize, usize), y: (usize, usize)| pos_after(x, y)), text)
}

/// Inserting `text` at each position of `ps` makes the text longer by one
/// copy of `text` per position.
pub proof fn lemma_insert_all_len(t: Seq<char>, ps: Seq<(usize, usize)>, text: Seq<char>, offset: int)
    requires
        forall|j: int| 0 <= j < ps.len() ==> ps[j].1 <= t.len(),
        forall|i: int, j: int| 0 <= i < j < ps.len() ==> ps[i].1 > ps[j].1,
    ensures
        insert_all(t, ps, text, offset).0.len() == t.len() + ps.len() * text.len(),
    decreases ps.len(),
{
    if ps.len() > 0 {
        let p = ps[0].1 as int;
        let rest = ps.drop_first();
        let t2 = t.take(p) + text + t.skip(p);
        assert forall|j: int| 0 <= j < rest.len() implies rest[j].1 <= t2.len() by {
            assert(rest[j] == ps[j + 1]);
        }
        assert forall|i: int, j: int| 0 <= i < j < rest.len() implies rest[i].1 > rest[j].1 by {
            assert(rest[i] == ps[i + 1] && rest[j] == ps[j + 1]);
        }
        lemma_insert_all_len(t2, rest, text, offset);
        let n = rest.len() as int;
        let l = text.len() as int;
        assert(t2.len() + n * l == t.len() + (n + 1) * l) by (nonlinear_arith)
            requires
                t2.len() == t.len() + l,
        ;
    }
}

/// Where every position lies at or below `q`, all of them count.
proof fn lemma_filter_all_at_or_below(ps: Seq<(usize, usize)>, q: int)
    requires
        forall|j: int| 0 <= j < ps.len() ==> ps[j].1 <= q,
    ensures
        ps.filter(|x: (usize, usize)| x.1 <= q).len() == ps.len(),
    decreases ps.len(),
{
    reveal(Seq::filter);
    if ps.len() > 0 {
        lemma_filter_all_at_or_below(ps.drop_last(), q);
    }
}

/// Inserting `text` at distinct positions, highest first, keeps every
/// character of the text, in order: the one at `q` moves on by one copy of
/// `text` per insertion at or before it.
pub proof fn lemma_insert_all_keeps_text(t: Seq<char>, ps: Seq<(usize, usize)>, text: Seq<char>, offset: int, q: int)
    requires
        forall|j: int| 0 <= j < ps.len() ==> ps[j].1 <= t.len(),
        forall|i: int, j: int| 0 <= i < j < ps.len() ==> ps[i].1 > ps[j].1,
        0 <= q < t.len(),
    ensures
        ({
            let k = ps.filter(|x: (usize, usize)| x.1 <= q).len() as int;
            let r = insert_all(t, ps, text, offset).0;
            &&& 0 <= q + k * text.len() < r.len()
            &&& r[q + k * text.len()] == t[q]
        }),
    decreases ps.len(),
{
    lemma_insert_all_len(t, ps, text, offset);
    let l = text.len() as int;
    if ps.len() == 0 {
        reveal(Seq::filter);
    } else {
        let p = ps[0].1 as int;
        let rest = ps.drop_first();
        let t2 = t.take(p) + text + t.skip(p);
        assert(ps =~= seq![ps[0]] + rest);
        rest.lemma_filter_prepend(ps[0], |x: (usize, usize)| x.1 <= q);
        assert forall|j: int| 0 <= j < rest.len() implies rest[j].1 <= t2.len() && rest[j].1 < p by {
            assert(rest[j] == ps[j + 1]);
        }
        assert forall|i: int, j: int| 0 <= i < j < rest.len() implies rest[i].1 > rest[j].1 by {
            assert(rest[i] == ps[i + 1] && rest[j] == ps[j + 1]);
        }
        lemma_insert_all_len(t2, rest, text, offset);
        if q < p {
            lemma_insert_all_keeps_text(t2, rest, text, offset, q);
            assert(t2[q] == t[q]);
        } else {
            let q2 = q + l;
            lemma_filter_all_at_or_below(rest, q);
            lemma_filter_all_at_or_below(rest, q2);
            lemma_insert_all_keeps_text(t2, rest, text, offset, q2);
            assert(t2[q2] == t[q]);
            let n = rest.len() as int;
            assert(q2 + n * l == q + (n + 1) * l) by (nonlinear_arith)
                requires
                    q2 == q + l,
            ;
        }
    }
}

/// With a single cursor and no range, inserting `text` puts it at the
/// cursor's character position and leaves one cursor `offset` characters
/// into it; the primary index is kept.
pub proof fn lemma_insert_at_single_cursor(t: Seq<char>, c: Cursor, p: usize, text: Seq<char>, offset: int)
    ensures
        ({
            let sels = seq![Selection { anchor: c, head: c }];
            let q = char_pos(t, c) as usize as int;
            let nt = t.take(q) + text + t.skip(q);
            let r = insert_result(t, sels, p, text, offset);
            &&& r.0 == nt
            &&& r.1 == seq![Selection { anchor: cursor_of_pos(nt, q + offset), head: cursor_of_pos(nt, q + offset) }]
            &&& r.2 == p
        }),
{
    let sels = seq![Selection { anchor: c, head: c }];
    assert(!any_range(sels)) by {
        if any_range(sels) {
            let i = choose|i: int| 0 <= i < sels.len() && is_range_sel(#[trigger] sels[i]);
            assert(sels[i] == sels[0]);
        }
    }
    let precedes = |x: (usize, usize), y: (usize, usize)| pos_after(x, y);
    let hp = head_positions(t, sels);
    assert(hp.drop_last() =~= Seq::<(usize, usize)>::empty());
    assert(stable_sort(hp.drop_last(), precedes) == Seq::<(usize, usize)>::empty());
    assert(ins_pos(Seq::<(usize, usize)>::empty(), hp.last(), precedes) == 0);
    assert(stable_sort(hp, precedes) =~= hp);
    let q = char_pos(t, c) as usize as int;
    let nt = t.take(q) + text + t.skip(q);
    assert(hp[0].1 as int == q);
    assert(hp.drop_first() =~= Seq::<(usize, usize)>::empty());
    let ins = insert_all(t, hp, text, offset);
    assert(insert_all(nt, hp.drop_first(), text, offset) == (nt, Seq::<(usize, Cursor)>::empty()));
    assert(ins.0 == nt);
    assert(ins.1 =~= seq![(0usize, cursor_of_pos(nt, q + offset))]);
    let cur = cursor_of_pos(nt, q + offset);
    let s2 = sels.update(0, Selection { anchor: cur, head: cur });
    assert(ins.1.drop_first() =~= Seq::<(usize, Cursor)>::empty());
    assert(apply_cursor_updates(s2, ins.1.drop_first()) == s2);
    assert(s2 =~= seq![Selection { anchor: cur, head: cur }]);
}

// ─────────────────────────────────────────────────────────────────────────
// Auto-closing brackets and quotes
// ─────────────────────────────────────────────────────────────────────────

/// Whether Unicode classes a character as alphabetic or numeric (as std's
/// `char::is_alphanumeric` of the build).
pub uninterp spec fn alphanumeric(c: char) -> bool;

/// `char::is_alphanumeric`; the result is named `alphanumeric` of the
/// character (std's Unicode tables decide it).
#[verifier::external_body]
fn char_is_alphanumeric(c: char) -> (r: bool)
    ensures
        r == alphanumeric(c),
{
    c.is_alphanumeric()
}

/// The closer of an opening bracket or quote.
pub open spec fn closing_bracket(ch: char) -> Option<char> {
    if ch == '(' {
        Some(')')
    } else if ch == '[' {
        Some(']')
    } else if ch == '{' {
        Some('}')
    } else if ch == '"' {
        Some('"')
    } else if ch == '\'' {
        Some('\'')
    } else if ch == '`' {
        Some('`')
    } else {
        None
    }
}

/// Exactly the three opening brackets and the three quote characters have a
/// closer: `(`, `[` and `{` close with `)`, `]` and `}`, and each quote
/// closes with itself.
pub proof fn lemma_closing_bracket_matches(ch: char)
    ensures
        closing_bracket(ch) is Some <==> (ch == '(' || ch == '[' || ch == '{' || ch == '"' || ch == '\'' || ch
            == '`'),
        closing_bracket(ch) == Some(ch) <==> (ch == '"' || ch == '\'' || ch == '`'),
        ch == '(' ==> closing_bracket(ch) == Some(')'),
        ch == '[' ==> closing_bracket(ch) == Some(']'),
        ch == '{' ==> closing_bracket(ch) == Some('}'),
{
}

/// No two openers share a closer, and every closer is a closing character.
pub proof fn lemma_closing_bracket_distinct(a: char, b: char)
    ensures
        (closing_bracket(a) is Some && closing_bracket(a) == closing_bracket(b)) ==> a == b,
        closing_bracket(a) is Some ==> is_closer(closing_bracket(a).unwrap()),
{
}

/// Whether a character closes a bracket or quote.
pub open spec fn is_closer(ch: char) -> bool {
    ch == ')' || ch == ']' || ch == '}' || ch == '"' || ch == '\'' || ch == '`'
}

/// Whether a character is a quote.
pub open spec fn is_quote(ch: char) -> bool {
    ch == '"' || ch == '\'' || ch == '`'
}

/// The character at column `col` of line `line` (line break included).
pub open spec fn char_in_line(s: Seq<char>, line: int, col: int) -> Option<char> {
    if 0 <= line < line_count_of(s) && 0 <= col < crate::text::line_text(s, line as nat).len() {
        Some(crate::text::line_text(s, line as nat)[col])
    } else {
        None
    }
}

/// Every cursor that is not at its line's end moves one column right (and
/// collapses there); the others stay.
pub open spec fn cursors_right(s: Seq<char>, sels: Seq<Selection>) -> Seq<Selection> {
    Seq::new(
        sels.len(),
        |i: int|
            {
                let h = sels[i].head;
                if h.column < line_len(s, h.line as int) {
                    let nh = at(h.line as int, h.column + 1);
                    Selection { anchor: nh, head: nh }
                } else {
                    sels[i]
                }
            },
    )
}

/// A quote is not paired after this character: it is a letter or digit.
pub open spec fn quote_blocked(prev: Option<char>) -> bool {
    match prev {
        Some(p) => alphanumeric(p),
        None => false,
    }
}

/// Typing `ch` steps over the same closer right after the primary cursor.
pub open spec fn auto_close_skips(e: FerriteEditor, ch: char) -> bool {
    e.auto_close_brackets && is_closer(ch) && char_in_line(
        e.buffer@,
        e.primary().head.line as int,
        e.primary().head.column as int,
    ) == Some(ch)
}

/// Typing `ch` inserts it together with its closer.
pub open spec fn auto_close_pairs(e: FerriteEditor, ch: char) -> bool {
    let h = e.primary().head;
    &&& e.auto_close_brackets
    &&& !auto_close_skips(e, ch)
    &&& closing_bracket(ch) is Some
    &&& !(is_quote(ch) && h.column > 0 && quote_blocked(char_in_line(e.buffer@, h.line as int, h.column - 1)))
}

/// With a single cursor and no range, an auto-closed opener is inserted at
/// the cursor together with its closer, and the cursor ends up between the
/// two: `(` with `)`, `[` with `]`, `{` with `}`, and a quote with itself.
pub proof fn lemma_auto_close_single_cursor(e: FerriteEditor, ch: char)
    requires
        e.selections@.len() == 1,
        e.selections@[0].anchor == e.selections@[0].head,
        auto_close_pairs(e, ch),
    ensures
        ({
            let t = e.buffer@;
            let q = char_pos(t, e.selections@[0].head) as usize as int;
            let r = insert_result(t, e.selections@, e.primary_selection_index, seq![ch, closing_bracket(ch)->0], 1);
            &&& r.0.len() == t.len() + 2
            &&& r.0 == t.take(q) + seq![ch, closing_bracket(ch)->0] + t.skip(q)
            &&& r.0[q] == ch
            &&& ch == '(' ==> r.0[q + 1] == ')'
            &&& ch == '[' ==> r.0[q + 1] == ']'
            &&& ch == '{' ==> r.0[q + 1] == '}'
            &&& (ch == '"' || ch == '\'' || ch == '`') ==> r.0[q + 1] == ch
            &&& r.1.len() == 1
            &&& r.1[0].anchor == r.1[0].head
            &&& r.1[0].head == cursor_of_pos(r.0, q + 1)
        }),
{
    let t = e.buffer@;
    let c = e.selections@[0].head;
    assert(e.selections@ =~= seq![Selection { anchor: c, head: c }]);
    let text = seq![ch, closing_bracket(ch)->0];
    lemma_insert_at_single_cursor(t, c, e.primary_selection_index, text, 1);
    lemma_char_pos_bounds(t, c);
    let q = char_pos(t, c) as usize as int;
    let nt = t.take(q) + text + t.skip(q);
    assert(nt[q] == text[0]);
    assert(nt[q + 1] == text[1]);
}

/// Sorts (index, position) pairs by position, highest first, stably.
fn sort_by_pos_desc(v: &Vec<(usize, usize)>) -> (r: Vec<(usize, usize)>)
    ensures
        r@ == stable_sort(v@, |a: (usize, usize), b: (usize, usize)| pos_after(a, b)),
{
    let ghost precedes = |a: (usize, usize), b: (usize, usize)| pos_after(a, b);
    let mut r: Vec<(usize, usize)> = Vec::new();
    let mut i: usize = 0;
    proof {
        assert(v@.take(0) =~= Seq::<(usize, usize)>::empty());
    }
    while i < v.len()
        invariant
            i <= v@.len(),
            precedes == (|a: (usize, usize), b: (usize, usize)| pos_after(a, b)),
            r@ == stable_sort(v@.take(i as int), precedes),
        decreases v@.len() - i,
    {
        let x = v[i];
        let mut k: usize = 0;
        proof {
            assert(r@.skip(0) =~= r@);
        }
        while k < r.len() && !(r[k].1 < x.1)
            invariant
                k <= r@.len(),
                precedes == (|a: (usize, usize), b: (usize, usize)| pos_after(a, b)),
                ins_pos(r@, x, precedes) == k + ins_pos(r@.skip(k as int), x, precedes),
            decreases r@.len() - k,
        {
            proof {
                assert(r@.skip(k as int).drop_first() =~= r@.skip(k + 1));
            }
            k = k + 1;
        }
        proof {
            assert(v@.take(i + 1).drop_last() =~= v@.take(i as int));
            assert(v@.take(i + 1).last() == x);
        }
        r.insert(k, x);
        i = i + 1;
    }
    proof {
        assert(v@.take(v@.len() as int) =~= v@);
    }
    r
}

/// The editor state.
#[derive(Debug)]
pub struct FerriteEditor {
    /// The text content.
    pub buffer: TextBuffer,
    /// Undo/redo history.
    pub history: EditHistory,
    /// All active selections; each one's head is a cursor.
    pub selections: Vec<Selection>,
    /// Index of the primary selection.
    pub primary_selection_index: usize,
    /// Whether the content changed since the flag was last cleared.
    pub content_dirty: bool,
    /// Whether cached line layouts must be dropped before the next drawing.
    pub cache_invalidated: bool,
    /// Whether word wrap is enabled.
    pub wrap_enabled: bool,
    /// Preferred column for vertical cursor movement.
    pub preferred_column: Option<usize>,
    /// Whether syntax highlighting is enabled.
    pub syntax_enabled: bool,
    /// Language identifier for syntax highlighting.
    pub syntax_language: Option<String>,
    /// Whether to use the dark syntax theme.
    pub syntax_dark_mode: bool,
    /// Syntax theme name; `None` picks the dark or light default.
    pub syntax_theme_name: Option<String>,
    /// Hash of the current syntax theme (part of cache keys).
    pub syntax_theme_hash: u64,
    /// Search matches.
    pub search_matches: Vec<SearchMatch>,
    /// Index of the current search match.
    pub current_search_match: usize,
    /// Whether to scroll to the current search match on the next drawing.
    pub scroll_to_search_match: bool,
    /// Whether bracket matching is enabled.
    pub bracket_matching_enabled: bool,
    /// The font family text is laid out with.
    pub font_family: EditorFont,
    /// Custom (background, border) colours for bracket matching; `None` uses the theme's.
    pub bracket_colors: Option<(egui::Color32, egui::Color32)>,
    /// Whether IME composition is enabled.
    pub ime_enabled: bool,
    /// Current IME composition text.
    pub ime_preedit: Option<String>,
    /// Text committed through the IME, kept until taken.
    pub ime_committed_text: Option<String>,
    /// Whether to show fold indicators in the gutter.
    pub show_fold_indicators: bool,
    /// Whether to show line numbers in the gutter.
    pub show_line_numbers: bool,
    /// Whether typing an opening bracket or quote inserts its closer.
    pub auto_close_brackets: bool,
    /// Whether Vim modal editing is enabled.
    pub vim_mode_enabled: bool,
}

/// The editor state right after construction with `buffer` as content.
pub open spec fn fresh_editor(e: FerriteEditor, text: Seq<char>, dirty: bool) -> bool {
    &&& e.buffer@ == text
    &&& e.history.undo_groups().len() == 0
    &&& e.history.redo_groups().len() == 0
    &&& !e.history.grouping_open()
    &&& e.selections@ == seq![Selection { anchor: at(0, 0), head: at(0, 0) }]
    &&& e.primary_selection_index == 0
    &&& e.content_dirty == dirty
    &&& !e.cache_invalidated
    &&& !e.wrap_enabled
    &&& e.preferred_column is None
    &&& !e.syntax_enabled
    &&& e.syntax_language is None
    &&& e.syntax_dark_mode
    &&& e.syntax_theme_name is None
    &&& e.syntax_theme_hash == 0
    &&& e.search_matches@.len() == 0
    &&& e.current_search_match == 0
    &&& !e.scroll_to_search_match
    &&& !e.bracket_matching_enabled
    &&& e.bracket_colors is None
    &&& e.font_family is Inter
    &&& !e.ime_enabled
    &&& e.ime_preedit is None
    &&& e.ime_committed_text is None
    &&& e.show_fold_indicators
    &&& e.show_line_numbers
    &&& !e.auto_close_brackets
    &&& !e.vim_mode_enabled
}

impl FerriteEditor {
    /// The primary selection: the one at `primary_selection_index`, or a
    /// cursor at the start when that index is out of range.
    pub open spec fn primary(&self) -> Selection {
        if self.primary_selection_index < self.selections@.len() {
            self.selections@[self.primary_selection_index as int]
        } else {
            Selection { anchor: at(0, 0), head: at(0, 0) }
        }
    }

    fn with_buffer(buffer: TextBuffer, dirty: bool) -> (e: Self)
        ensures
            fresh_editor(e, buffer@, dirty),
    {
        let selections = vec![Selection::start()];
        assert(selections@ =~= seq![Selection { anchor: at(0, 0), head: at(0, 0) }]);
        FerriteEditor {
            buffer,
            history: EditHistory::new(),
            selections,
            primary_selection_index: 0,
            content_dirty: dirty,
            cache_invalidated: false,
            wrap_enabled: false,
            preferred_column: None,
            syntax_enabled: false,
            syntax_language: None,
            syntax_dark_mode: true,
            syntax_theme_name: None,
            syntax_theme_hash: 0,
            search_matches: Vec::new(),
            current_search_match: 0,
            scroll_to_search_match: false,
            bracket_matching_enabled: false,
            bracket_colors: None,
            font_family: EditorFont::Inter,
            ime_enabled: false,
            ime_preedit: None,
            ime_committed_text: None,
            show_fold_indicators: true,
            show_line_numbers: true,
            auto_close_brackets: false,
            vim_mode_enabled: false,
        }
    }

    /// An empty editor with one cursor at the start.
    pub fn new() -> (e: Self)
        ensures
            fresh_editor(e, Seq::<char>::empty(), false),
    {
        Self::with_buffer(TextBuffer::new(), false)
    }

    /// An editor holding `content`, with one cursor at the start; the
    /// content counts as changed.
    pub fn from_string(content: &str) -> (e: Self)
        ensures
            fresh_editor(e, content@, true),
    {
        Self::with_buffer(TextBuffer::from_string(content), true)
    }

    /// Replaces the content, keeping the settings: the history is cleared,
    /// every selection is clamped into the new text, and the content counts
    /// as changed.
    pub fn set_content(&mut self, content: &str)
        ensures
            final(self).buffer@ == content@,
            final(self).history.undo_groups().len() == 0,
            final(self).history.redo_groups().len() == 0,
            final(self).selections@.len() == old(self).selections@.len(),
            forall|i: int|
                0 <= i < old(self).selections@.len() ==> #[trigger] final(self).selections@[i]
                    == (Selection {
                    anchor: clamp_cursor_to(content@, old(self).selections@[i].anchor),
                    head: clamp_cursor_to(content@, old(self).selections@[i].head),
                }),
            final(self).content_dirty,
            final(self).cache_invalidated,
            final(self).primary_selection_index == old(self).primary_selection_index,
            final(self).search_matches == old(self).search_matches,
            final(self).wrap_enabled == old(self).wrap_enabled,
    {
        self.buffer = TextBuffer::from_string(content);
        self.history = EditHistory::new();
        self.cache_invalidated = true;
        self.content_dirty = true;
        let n = self.selections.len();
        let ghost old_sels = self.selections@;
        let mut i: usize = 0;
        while i < n
            invariant
                n == self.selections@.len(),
                old_sels.len() == n,
                old_sels == old(self).selections@,
                self.buffer@ == content@,
                self.history.undo_groups().len() == 0,
                self.history.redo_groups().len() == 0,
                self.content_dirty,
                self.cache_invalidated,
                self.primary_selection_index == old(self).primary_selection_index,
                self.search_matches == old(self).search_matches,
                self.wrap_enabled == old(self).wrap_enabled,
                i <= n,
                forall|j: int|
                    i <= j < n ==> #[trigger] self.selections@[j] == old_sels[j],
                forall|j: int|
                    0 <= j < i ==> #[trigger] self.selections@[j] == (Selection {
                        anchor: clamp_cursor_to(content@, old_sels[j].anchor),
                        head: clamp_cursor_to(content@, old_sels[j].head),
                    }),
            decreases n - i,
        {
            let sel = self.selections[i];
            let anchor = self.clamp_cursor(sel.anchor);
            let head = self.clamp_cursor(sel.head);
            self.selections.set(i, Selection::new(anchor, head));
            i = i + 1;
        }
    }

    /// The number of lines.
    pub fn line_count(&self) -> (n: usize)
        ensures
            n == line_count_of(self.buffer@),
    {
        self.buffer.line_count()
    }

    /// Whether the buffer is empty.
    pub fn is_empty(&self) -> (r: bool)
        ensures
            r == (self.buffer@.len() == 0),
    {
        self.buffer.is_empty()
    }

    /// The text buffer.
    pub fn buffer(&self) -> (b: &TextBuffer)
        ensures
            b@ == self.buffer@,
    {
        &self.buffer
    }

    /// Mutable access to the buffer; edits through it bypass the history.
    /// The content counts as changed.
    pub fn buffer_mut(&mut self) -> (b: &mut TextBuffer)
        ensures
            *b == old(self).buffer,
            final(self).buffer == *final(b),
            final(self).content_dirty,
            final(self).selections == old(self).selections,
    {
        self.content_dirty = true;
        &mut self.buffer
    }

    /// The edit history.
    pub fn history(&self) -> (h: &EditHistory)
        ensures
            *h == self.history,
    {
        &self.history
    }

    /// Mutable access to the edit history.
    pub fn history_mut(&mut self) -> (h: &mut EditHistory)
        ensures
            *h == old(self).history,
            final(self).history == *final(h),
            final(self).buffer == old(self).buffer,
    {
        &mut self.history
    }

    /// The cursor: the head of the primary selection.
    pub fn cursor(&self) -> (c: Cursor)
        ensures
            c == self.primary().head,
    {
        self.primary_selection().head
    }

    /// The primary selection.
    pub fn primary_selection(&self) -> (s: Selection)
        ensures
            s == self.primary(),
    {
        if self.primary_selection_index < self.selections.len() {
            self.selections[self.primary_selection_index]
        } else {
            Selection::start()
        }
    }

    /// The primary selection.
    pub fn selection(&self) -> (s: Selection)
        ensures
            s == self.primary(),
    {
        self.primary_selection()
    }

    /// All selections.
    pub fn selections(&self) -> (r: &[Selection])
        ensures
            r@ == self.selections@,
    {
        self.selections.as_slice()
    }

    /// The number of cursors.
    pub fn cursor_count(&self) -> (n: usize)
        ensures
            n == self.selections@.len(),
    {
        self.selections.len()
    }

    /// Whether there is more than one cursor.
    pub fn has_multiple_cursors(&self) -> (r: bool)
        ensures
            r == (self.selections@.len() > 1),
    {
        self.selections.len() > 1
    }

    /// A cursor moved into the text.
    fn clamp_cursor(&self, cursor: Cursor) -> (c: Cursor)
        ensures
            c == clamp_cursor_to(self.buffer@, cursor),
    {
        let last = self.buffer.line_count() - 1;
        let line = if cursor.line < last { cursor.line } else { last };
        let line_len = InputHandler::line_length(&self.buffer, line);
        let column = if cursor.column < line_len { cursor.column } else { line_len };
        Cursor::new(line, column)
    }

    /// Places one cursor (clamped into the text), dropping every other
    /// cursor and selection.
    pub fn set_cursor(&mut self, cursor: Cursor)
        ensures
            final(self).selections@ == seq![
                Selection {
                    anchor: clamp_cursor_to(old(self).buffer@, cursor),
                    head: clamp_cursor_to(old(self).buffer@, cursor),
                },
            ],
            final(self).primary_selection_index == 0,
            final(self).buffer == old(self).buffer,
            final(self).history == old(self).history,
    {
        let clamped = self.clamp_cursor(cursor);
        self.selections = vec![Selection::collapsed(clamped)];
        self.primary_selection_index = 0;
    }

    /// Places one selection (both ends clamped into the text), dropping
    /// every other cursor.
    pub fn set_selection(&mut self, selection: Selection)
        ensures
            final(self).selections@ == seq![
                Selection {
                    anchor: clamp_cursor_to(old(self).buffer@, selection.anchor),
                    head: clamp_cursor_to(old(self).buffer@, selection.head),
                },
            ],
            final(self).primary_selection_index == 0,
            final(self).buffer == old(self).buffer,
            final(self).history == old(self).history,
    {
        let anchor = self.clamp_cursor(selection.anchor);
        let head = self.clamp_cursor(selection.head);
        self.selections = vec![Selection::new(anchor, head)];
        self.primary_selection_index = 0;
    }

    /// Whether the primary selection covers a range.
    pub fn has_selection(&self) -> (r: bool)
        ensures
            r == (self.primary().anchor != self.primary().head),
    {
        self.primary_selection().is_range()
    }

    /// Whether any selection covers a range.
    pub fn has_any_selection(&self) -> (r: bool)
        ensures
            r == exists|i: int|
                0 <= i < self.selections@.len() && #[trigger] self.selections@[i].anchor
                    != self.selections@[i].head,
    {
        let mut i: usize = 0;
        while i < self.selections.len()
            invariant
                i <= self.selections@.len(),
                forall|j: int| 0 <= j < i ==> #[trigger] self.selections@[j].anchor == self.selections@[j].head,
            decreases self.selections@.len() - i,
        {
            if self.selections[i].is_range() {
                return true;
            }
            i = i + 1;
        }
        false
    }

    /// Keeps only the primary selection.
    pub fn clear_extra_cursors(&mut self)
        ensures
            old(self).selections@.len() > 1 ==> final(self).selections@ == seq![old(self).primary()]
                && final(self).primary_selection_index == 0,
            old(self).selections@.len() <= 1 ==> final(self).selections == old(self).selections
                && final(self).primary_selection_index == old(self).primary_selection_index,
            final(self).buffer == old(self).buffer,
    {
        if self.selections.len() > 1 {
            let primary = self.primary_selection();
            self.selections = vec![primary];
            self.primary_selection_index = 0;
        }
    }

    /// Selects the whole text: one selection from the start to the end of
    /// the text, every other cursor dropped.
    pub fn select_all(&mut self)
        ensures
            final(self).selections@ == seq![
                Selection { anchor: at(0, 0), head: cursor_of_pos(old(self).buffer@, old(self).buffer@.len() as int) },
            ],
            final(self).primary_selection_index == 0,
            final(self).buffer == old(self).buffer,
            final(self).history == old(self).history,
    {
        let end = self.char_pos_to_cursor(self.buffer.len());
        self.selections = vec![Selection::new(Cursor::start(), end)];
        self.primary_selection_index = 0;
    }

    /// Undoes the last group of edits. When the group held an operation,
    /// the cursor goes (alone) to the position the undo restores, clamped
    /// into the text, cached layouts are dropped and the content is marked
    /// changed. Returns whether there was a group to undo.
    pub fn undo(&mut self) -> (r: bool)
        requires
            old(self).history.undo_groups().len() > 0 ==> undo_ok(
                old(self).buffer@,
                old(self).history.undo_groups().last(),
            ),
        ensures
            r == (old(self).history.undo_groups().len() > 0),
            !r ==> *final(self) == *old(self),
            r ==> ({
                let g = old(self).history.undo_groups().last();
                let t = undo_seq(old(self).buffer@, g);
                &&& final(self).buffer@ == t
                &&& final(self).history.undo_groups() == old(self).history.undo_groups().drop_last()
                &&& final(self).history.redo_groups() == old(self).history.redo_groups().push(g)
                &&& g.len() > 0 ==> {
                    let k = clamp_cursor_to(t, cursor_of_pos(t, (undo_cursor(g[0]) as usize) as int));
                    &&& final(self).selections@ == seq![Selection { anchor: k, head: k }]
                    &&& final(self).primary_selection_index == 0
                    &&& final(self).cache_invalidated
                    &&& final(self).content_dirty
                }
                &&& g.len() == 0 ==> final(self).selections == old(self).selections
                    && final(self).primary_selection_index == old(self).primary_selection_index
                    && final(self).cache_invalidated == old(self).cache_invalidated
                    && final(self).content_dirty == old(self).content_dirty
            }),
    {
        if !self.history.can_undo() {
            return false;
        }
        match self.history.undo(&mut self.buffer) {
            Some(pos) => {
                let len = self.buffer.len();
                let p = if pos < len { pos } else { len };
                let new_cursor = self.char_pos_to_cursor(p);
                self.set_cursor(new_cursor);
                self.cache_invalidated = true;
                self.content_dirty = true;
            },
            None => {},
        }
        true
    }

    /// Redoes the last undone group. When the group held an operation, the
    /// cursor goes (alone) to the position the redo leaves, clamped into
    /// the text, cached layouts are dropped and the content is marked
    /// changed. Returns whether there was a group to redo.
    pub fn redo(&mut self) -> (r: bool)
        requires
            old(self).history.redo_groups().len() > 0 ==> redo_ok(
                old(self).buffer@,
                old(self).history.redo_groups().last(),
            ),
        ensures
            r == (old(self).history.redo_groups().len() > 0),
            !r ==> *final(self) == *old(self),
            r ==> ({
                let g = old(self).history.redo_groups().last();
                let t = redo_seq(old(self).buffer@, g);
                &&& final(self).buffer@ == t
                &&& final(self).history.redo_groups() == old(self).history.redo_groups().drop_last()
                &&& final(self).history.undo_groups() == old(self).history.undo_groups().push(g)
                &&& g.len() > 0 ==> {
                    let k = clamp_cursor_to(t, cursor_of_pos(t, (redo_cursor(g.last()) as usize) as int));
                    &&& final(self).selections@ == seq![Selection { anchor: k, head: k }]
                    &&& final(self).primary_selection_index == 0
                    &&& final(self).cache_invalidated
                    &&& final(self).content_dirty
                }
                &&& g.len() == 0 ==> final(self).selections == old(self).selections
                    && final(self).primary_selection_index == old(self).primary_selection_index
                    && final(self).cache_invalidated == old(self).cache_invalidated
                    && final(self).content_dirty == old(self).content_dirty
            }),
    {
        if !self.history.can_redo() {
            return false;
        }
        match self.history.redo(&mut self.buffer) {
            Some(pos) => {
                let len = self.buffer.len();
                let p = if pos < len { pos } else { len };
                let new_cursor = self.char_pos_to_cursor(p);
                self.set_cursor(new_cursor);
                self.cache_invalidated = true;
                self.content_dirty = true;
            },
            None => {},
        }
        true
    }

    /// The cursor of a character position (clamped to the end of the text).
    pub fn char_pos_to_cursor(&self, char_pos: usize) -> (c: Cursor)
        ensures
            c == cursor_of_pos(self.buffer@, char_pos as int),
    {
        let len = self.buffer.len();
        let clamped_pos = if char_pos < len { char_pos } else { len };
        proof {
            lemma_breaks_before_mono(self.buffer@, clamped_pos as int, len as int);
        }
        let line = match self.buffer.try_char_to_line(clamped_pos) {
            Some(l) => l,
            None => self.buffer.line_count() - 1,
        };
        let line_start = match self.buffer.try_line_to_char(line) {
            Some(p) => p,
            None => 0,
        };
        let column = if clamped_pos >= line_start { clamped_pos - line_start } else { 0 };
        Cursor::new(line, column)
    }

    /// The line of a byte position; past the end, the last line.
    pub fn byte_pos_to_line(&self, byte_pos: usize) -> (l: usize)
        ensures
            byte_pos <= vstd::utf8::encode_utf8(self.buffer@).len() ==> l == breaks_before(
                self.buffer@,
                crate::text::char_at_byte(self.buffer@, byte_pos as int) as int,
            ),
            byte_pos > vstd::utf8::encode_utf8(self.buffer@).len() ==> l == last_line(self.buffer@),
    {
        match self.buffer.try_byte_to_line(byte_pos) {
            Some(l) => l,
            None => self.buffer.line_count() - 1,
        }
    }

    /// Marks the content as changed.
    pub fn mark_dirty(&mut self)
        ensures
            final(self).content_dirty,
            final(self).buffer == old(self).buffer,
            final(self).selections == old(self).selections,
    {
        self.content_dirty = true;
    }

    /// Whether the content changed since the flag was last cleared.
    pub fn is_content_dirty(&self) -> (r: bool)
        ensures
            r == self.content_dirty,
    {
        self.content_dirty
    }

    /// Whether word wrap is enabled.
    pub fn is_wrap_enabled(&self) -> (r: bool)
        ensures
            r == self.wrap_enabled,
    {
        self.wrap_enabled
    }

    /// Turns word wrap on; when it was off, cached layouts are dropped and
    /// the content counts as changed.
    pub fn enable_wrap(&mut self)
        ensures
            final(self).wrap_enabled,
            !old(self).wrap_enabled ==> final(self).cache_invalidated && final(self).content_dirty,
            old(self).wrap_enabled ==> final(self).cache_invalidated == old(self).cache_invalidated
                && final(self).content_dirty == old(self).content_dirty,
            final(self).buffer == old(self).buffer,
    {
        if !self.wrap_enabled {
            self.wrap_enabled = true;
            self.cache_invalidated = true;
            self.content_dirty = true;
        }
    }

    /// Turns word wrap off; when it was on, cached layouts are dropped and
    /// the content counts as changed.
    pub fn disable_wrap(&mut self)
        ensures
            !final(self).wrap_enabled,
            old(self).wrap_enabled ==> final(self).cache_invalidated && final(self).content_dirty,
            !old(self).wrap_enabled ==> final(self).cache_invalidated == old(self).cache_invalidated
                && final(self).content_dirty == old(self).content_dirty,
            final(self).buffer == old(self).buffer,
    {
        if self.wrap_enabled {
            self.wrap_enabled = false;
            self.cache_invalidated = true;
            self.content_dirty = true;
        }
    }

    /// Turns word wrap on or off.
    pub fn set_wrap_enabled(&mut self, enabled: bool)
        ensures
            final(self).wrap_enabled == enabled,
            enabled != old(self).wrap_enabled ==> final(self).cache_invalidated
                && final(self).content_dirty,
            enabled == old(self).wrap_enabled ==> final(self).cache_invalidated
                == old(self).cache_invalidated && final(self).content_dirty
                == old(self).content_dirty,
            final(self).buffer == old(self).buffer,
    {
        if enabled {
            self.enable_wrap();
        } else {
            self.disable_wrap();
        }
    }

    /// The preferred column for vertical movement.
    pub fn preferred_column(&self) -> (c: Option<usize>)
        ensures
            c == self.preferred_column,
    {
        self.preferred_column
    }

    /// Sets the preferred column for vertical movement.
    pub fn set_preferred_column(&mut self, column: Option<usize>)
        ensures
            final(self).preferred_column == column,
            final(self).buffer == old(self).buffer,
    {
        self.preferred_column = column;
    }

    /// Whether syntax highlighting is enabled.
    pub fn is_syntax_enabled(&self) -> (r: bool)
        ensures
            r == self.syntax_enabled,
    {
        self.syntax_enabled
    }

    /// Turns syntax highlighting on or off; a change drops cached layouts.
    pub fn set_syntax_enabled(&mut self, enabled: bool)
        ensures
            final(self).syntax_enabled == enabled,
            final(self).cache_invalidated == (old(self).cache_invalidated || old(self).syntax_enabled
                != enabled),
            final(self).buffer == old(self).buffer,
    {
        if self.syntax_enabled != enabled {
            self.syntax_enabled = enabled;
            self.cache_invalidated = true;
        }
    }

    /// The syntax language.
    pub fn syntax_language(&self) -> (r: Option<&str>)
        ensures
            match r {
                Some(l) => opt_seq(self.syntax_language) == Some(l@),
                None => self.syntax_language is None,
            },
    {
        match &self.syntax_language {
            Some(l) => Some(l.as_str()),
            None => None,
        }
    }

    /// Sets the syntax language; a change drops cached layouts when
    /// highlighting is on.
    pub fn set_syntax_language(&mut self, language: Option<String>)
        ensures
            opt_seq(final(self).syntax_language) == opt_seq(language),
            final(self).cache_invalidated == (old(self).cache_invalidated || (opt_seq(
                old(self).syntax_language,
            ) != opt_seq(language) && old(self).syntax_enabled)),
            final(self).buffer == old(self).buffer,
    {
        let same = same_opt_text(&self.syntax_language, &language);
        if !same {
            self.syntax_language = language;
            if self.syntax_enabled {
                self.cache_invalidated = true;
            }
        }
    }

    /// Whether the dark syntax theme is used.
    pub fn is_syntax_dark_mode(&self) -> (r: bool)
        ensures
            r == self.syntax_dark_mode,
    {
        self.syntax_dark_mode
    }

    /// The hash of a syntax theme: of its name when one is given and not
    /// empty, else of the dark (1) or light (2) marker.
    fn compute_theme_hash(theme_name: &Option<String>, dark_mode: bool) -> (h: u64)
        ensures
            h == theme_hash(opt_seq(*theme_name), dark_mode),
    {
        match theme_name {
            Some(name) => {
                if name.as_str().unicode_len() > 0 {
                    return hash_content(name.as_str());
                }
            },
            None => {},
        }
        hash_byte(if dark_mode { 1u8 } else { 2u8 })
    }

    /// Sets the dark or light syntax theme; a change recomputes the theme
    /// hash and drops cached layouts when highlighting is on.
    pub fn set_syntax_dark_mode(&mut self, dark_mode: bool)
        ensures
            final(self).syntax_dark_mode == dark_mode,
            old(self).syntax_dark_mode != dark_mode ==> final(self).syntax_theme_hash == theme_hash(
                opt_seq(old(self).syntax_theme_name),
                dark_mode,
            ),
            old(self).syntax_dark_mode == dark_mode ==> final(self).syntax_theme_hash == old(
                self,
            ).syntax_theme_hash,
            final(self).cache_invalidated == (old(self).cache_invalidated || (old(
                self,
            ).syntax_dark_mode != dark_mode && old(self).syntax_enabled)),
            final(self).buffer == old(self).buffer,
    {
        if self.syntax_dark_mode != dark_mode {
            self.syntax_dark_mode = dark_mode;
            self.syntax_theme_hash = Self::compute_theme_hash(&self.syntax_theme_name, dark_mode);
            if self.syntax_enabled {
                self.cache_invalidated = true;
            }
        }
    }

    /// The syntax theme hash.
    pub fn syntax_theme_hash(&self) -> (h: u64)
        ensures
            h == self.syntax_theme_hash,
    {
        self.syntax_theme_hash
    }

    /// Sets the syntax theme hash; a change drops cached layouts when
    /// highlighting is on.
    pub fn set_syntax_theme_hash(&mut self, hash: u64)
        ensures
            final(self).syntax_theme_hash == hash,
            final(self).cache_invalidated == (old(self).cache_invalidated || (old(
                self,
            ).syntax_theme_hash != hash && old(self).syntax_enabled)),
            final(self).buffer == old(self).buffer,
    {
        if self.syntax_theme_hash != hash {
            self.syntax_theme_hash = hash;
            if self.syntax_enabled {
                self.cache_invalidated = true;
            }
        }
    }

    /// Sets all syntax options at once; the theme hash is recomputed, and
    /// cached layouts are dropped when anything changed.
    pub fn configure_syntax(
        &mut self,
        enabled: bool,
        language: Option<String>,
        dark_mode: bool,
        theme_name: Option<String>,
    )
        ensures
            final(self).syntax_enabled == enabled,
            opt_seq(final(self).syntax_language) == opt_seq(language),
            final(self).syntax_dark_mode == dark_mode,
            opt_seq(final(self).syntax_theme_name) == opt_seq(theme_name),
            final(self).syntax_theme_hash == theme_hash(opt_seq(theme_name), dark_mode),
            final(self).cache_invalidated == (old(self).cache_invalidated || enabled != old(
                self,
            ).syntax_enabled || opt_seq(language) != opt_seq(old(self).syntax_language)
                || dark_mode != old(self).syntax_dark_mode || opt_seq(theme_name) != opt_seq(
                old(self).syntax_theme_name,
            ) || theme_hash(opt_seq(theme_name), dark_mode) != old(self).syntax_theme_hash),
            final(self).buffer == old(self).buffer,
    {
        let new_theme_hash = Self::compute_theme_hash(&theme_name, dark_mode);
        let same_language = same_opt_text(&language, &self.syntax_language);
        let same_theme = same_opt_text(&theme_name, &self.syntax_theme_name);
        let needs_invalidation = enabled != self.syntax_enabled || !same_language || dark_mode
            != self.syntax_dark_mode || !same_theme || new_theme_hash != self.syntax_theme_hash;
        self.syntax_enabled = enabled;
        self.syntax_language = language;
        self.syntax_dark_mode = dark_mode;
        self.syntax_theme_name = theme_name;
        self.syntax_theme_hash = new_theme_hash;
        if needs_invalidation {
            self.cache_invalidated = true;
        }
    }

    /// Whether an IME composition is in progress.
    pub fn is_ime_active(&self) -> (r: bool)
        ensures
            r == (self.ime_enabled && self.ime_preedit is Some),
    {
        self.ime_enabled && self.ime_preedit.is_some()
    }

    /// The IME composition text, if any.
    pub fn ime_preedit_text(&self) -> (r: Option<&str>)
        ensures
            match r {
                Some(t) => opt_seq(self.ime_preedit) == Some(t@),
                None => self.ime_preedit is None,
            },
    {
        match &self.ime_preedit {
            Some(t) => Some(t.as_str()),
            None => None,
        }
    }

    /// Takes the text last committed through the IME, leaving none.
    pub fn take_ime_committed_text(&mut self) -> (r: Option<String>)
        ensures
            r == old(self).ime_committed_text,
            final(self).ime_committed_text is None,
            final(self).buffer == old(self).buffer,
    {
        self.ime_committed_text.take()
    }

    /// Shows or hides fold indicators.
    pub fn set_show_fold_indicators(&mut self, show: bool)
        ensures
            final(self).show_fold_indicators == show,
            final(self).buffer == old(self).buffer,
    {
        self.show_fold_indicators = show;
    }

    /// Shows or hides line numbers.
    pub fn set_show_line_numbers(&mut self, show: bool)
        ensures
            final(self).show_line_numbers == show,
            final(self).buffer == old(self).buffer,
    {
        self.show_line_numbers = show;
    }

    /// Turns bracket and quote auto-closing on or off.
    pub fn set_auto_close_brackets(&mut self, enabled: bool)
        ensures
            final(self).auto_close_brackets == enabled,
            final(self).buffer == old(self).buffer,
    {
        self.auto_close_brackets = enabled;
    }

    /// Turns Vim modal editing on or off.
    pub fn set_vim_mode(&mut self, enabled: bool)
        ensures
            final(self).vim_mode_enabled == enabled,
            final(self).buffer == old(self).buffer,
    {
        self.vim_mode_enabled = enabled;
    }

    /// Whether bracket matching is enabled.
    pub fn is_bracket_matching_enabled(&self) -> (r: bool)
        ensures
            r == self.bracket_matching_enabled,
    {
        self.bracket_matching_enabled
    }

    /// Turns bracket matching on or off.
    pub fn set_bracket_matching_enabled(&mut self, enabled: bool)
        ensures
            final(self).bracket_matching_enabled == enabled,
            final(self).buffer == old(self).buffer,
    {
        self.bracket_matching_enabled = enabled;
    }

    /// Sorts the selections by start and merges overlapping ones (one that
    /// starts at or before the end of the previous one joins it). The
    /// primary index is clamped to the new number of selections.
    fn merge_overlapping_selections(&mut self)
        ensures
            final(self).selections@ == merged_selections(old(self).selections@),
            final(self).primary_selection_index == if old(self).selections@.len() > 1
                && old(self).primary_selection_index >= merged_selections(
                old(self).selections@,
            ).len() {
                (merged_selections(old(self).selections@).len() - 1) as usize
            } else {
                old(self).primary_selection_index
            },
            final(self).buffer == old(self).buffer,
            final(self).history == old(self).history,
            final(self).content_dirty == old(self).content_dirty,
            final(self).search_matches == old(self).search_matches,
    {
        if self.selections.len() <= 1 {
            return;
        }
        let sorted = sort_by_start(&self.selections);
        proof {
            lemma_stable_sort_len(self.selections@, |a: Selection, b: Selection| starts_before(a, b));
            lemma_merged_nonempty(self.selections@);
        }
        let mut merged: Vec<Selection> = Vec::new();
        let mut current = sorted[0];
        let n = sorted.len();
        let mut i: usize = 1;
        proof {
            assert(sorted@.skip(1) =~= sorted@.drop_first());
        }
        while i < n
            invariant
                n == sorted@.len(),
                1 <= i <= n,
                merged@ + merge_run(current, sorted@.skip(i as int)) == merge_run(
                    sorted@[0],
                    sorted@.drop_first(),
                ),
            decreases n - i,
        {
            let sel = sorted[i];
            let (current_start, current_end) = current.ordered();
            let (sel_start, sel_end) = sel.ordered();
            proof {
                assert(sorted@.skip(i as int)[0] == sel);
                assert(sorted@.skip(i as int).drop_first() =~= sorted@.skip(i + 1));
            }
            if cursor_is_le(sel_start, current_end) {
                let new_end = if cursor_is_le(current_end, sel_end) { sel_end } else { current_end };
                if cursor_is_le(current.anchor, current.head) {
                    current = Selection::new(current_start, new_end);
                } else {
                    current = Selection::new(new_end, current_start);
                }
            } else {
                let ghost before = merged@;
                let ghost cur = current;
                merged.push(current);
                proof {
                    assert(merged@ + merge_run(sel, sorted@.skip(i + 1)) =~= before + (seq![cur]
                        + merge_run(sel, sorted@.skip(i + 1))));
                }
                current = sel;
            }
            i = i + 1;
        }
        let ghost before = merged@;
        merged.push(current);
        proof {
            assert(sorted@.skip(n as int).len() == 0);
            assert(merged@ =~= before + merge_run(current, sorted@.skip(n as int)));
        }
        let len = merged.len();
        if self.primary_selection_index >= len {
            self.primary_selection_index = if len > 0 { len - 1 } else { 0 };
        }
        self.selections = merged;
    }

    /// Adds a cursor (clamped into the text) and merges overlapping
    /// selections; gives the index of the last selection.
    pub fn add_cursor(&mut self, cursor: Cursor) -> (r: usize)
        ensures
            ({
                let c = clamp_cursor_to(old(self).buffer@, cursor);
                final(self).selections@ == merged_selections(
                    old(self).selections@.push(Selection { anchor: c, head: c }),
                )
            }),
            r == final(self).selections@.len() - 1,
            final(self).buffer == old(self).buffer,
            final(self).history == old(self).history,
    {
        let clamped = self.clamp_cursor(cursor);
        let new_selection = Selection::collapsed(clamped);
        self.selections.push(new_selection);
        proof {
            lemma_merged_nonempty(self.selections@);
        }
        self.merge_overlapping_selections();
        self.selections.len() - 1
    }

    /// Adds a selection (both ends clamped into the text) and merges
    /// overlapping selections; gives the index of the last selection.
    pub fn add_selection(&mut self, selection: Selection) -> (r: usize)
        ensures
            final(self).selections@ == merged_selections(
                old(self).selections@.push(
                    Selection {
                        anchor: clamp_cursor_to(old(self).buffer@, selection.anchor),
                        head: clamp_cursor_to(old(self).buffer@, selection.head),
                    },
                ),
            ),
            r == final(self).selections@.len() - 1,
            final(self).buffer == old(self).buffer,
            final(self).history == old(self).history,
    {
        let anchor = self.clamp_cursor(selection.anchor);
        let head = self.clamp_cursor(selection.head);
        self.selections.push(Selection::new(anchor, head));
        proof {
            lemma_merged_nonempty(self.selections@);
        }
        self.merge_overlapping_selections();
        self.selections.len() - 1
    }

    /// The text between two cursors (the start must not come after the end).
    fn get_text_range(&self, start: Cursor, end: Cursor) -> (r: String)
        requires
            cursor_le(start, end),
        ensures
            r@ == text_between(self.buffer@, start, end),
    {
        if start == end {
            return String::new();
        }
        let mut result = String::new();
        let mut line_idx = start.line;
        proof {
            assert(result@ =~= range_text(self.buffer@, start, end, start.line as int));
        }
        loop
            invariant_except_break
                result@ == range_text(self.buffer@, start, end, line_idx as int),
            invariant
                start.line <= line_idx <= end.line,
                cursor_le(start, end),
            ensures
                result@ == range_text(self.buffer@, start, end, end.line + 1),
            decreases end.line - line_idx,
        {
            match self.buffer.get_line(line_idx) {
                Some(line_content) => {
                    let chars = crate::text::chars_vec(line_content.as_str());
                    let n = chars.len();
                    let sc0 = if line_idx == start.line { start.column } else { 0 };
                    let ec0 = if line_idx == end.line { end.column } else { n };
                    let sc = if sc0 < n { sc0 } else { n };
                    let ec = if ec0 < n { ec0 } else { n };
                    let mut k = sc;
                    let ghost before = result@;
                    while k < ec
                        invariant
                            sc <= k <= ec <= n,
                            n == chars@.len(),
                            result@ == before + chars@.subrange(sc as int, k as int),
                        decreases ec - k,
                    {
                        proof {
                            assert(chars@.subrange(sc as int, k + 1) =~= chars@.subrange(sc as int, k as int).push(chars@[k as int]));
                        }
                        result.append(char_text(chars[k]).as_str());
                        k = k + 1;
                    }
                    proof {
                        if sc > ec {
                            assert(false);
                        }
                    }
                },
                None => {
                    assert(range_part(self.buffer@, start, end, line_idx as int) =~= Seq::<char>::empty());
                    assert(result@ =~= result@ + Seq::<char>::empty());
                },
            }
            assert(result@ == range_text(self.buffer@, start, end, line_idx + 1));
            if line_idx == end.line {
                break;
            }
            line_idx = line_idx + 1;
        }
        result
    }

    /// The text of the primary selection, empty when it covers no range.
    pub fn selected_text(&self) -> (r: String)
        ensures
            r@ == text_between(self.buffer@, self.primary().spec_start(), self.primary().spec_end()),
    {
        let selection = self.primary_selection();
        if !selection.is_range() {
            return String::new();
        }
        let (start, end) = selection.ordered();
        self.get_text_range(start, end)
    }

    /// Deletes the text of every selection that covers a range, the latest
    /// range first, recording each deletion; then collapses each range at
    /// its start (its column lowered by the running count of deleted
    /// positions) and merges. Returns whether any selection covered a range.
    pub fn delete_selection(&mut self) -> (r: bool)
        requires
            delete_selection_ok(old(self).buffer@, old(self).selections@),
        ensures
            r == any_range(old(self).selections@),
            ({
                let a = after_delete(
                    old(self).buffer@,
                    old(self).selections@,
                    old(self).primary_selection_index,
                );
                &&& final(self).buffer@ == a.0
                &&& final(self).selections@ == a.1
                &&& final(self).primary_selection_index == a.2
                &&& recorded_grew(
                    old(self).history.recorded(),
                    final(self).history.recorded(),
                    delete_pairs(old(self).buffer@, old(self).selections@),
                    true,
                )
            }),
            !r ==> final(self).buffer == old(self).buffer && final(self).selections
                == old(self).selections && final(self).history == old(self).history
                && final(self).content_dirty == old(self).content_dirty,
            r ==> final(self).content_dirty,
            final(self).search_matches == old(self).search_matches,
    {
        if !self.has_any_selection() {
            proof {
                assert(self.history.recorded().take(self.history.recorded().len() as int) =~= self.history.recorded());
                assert(self.history.recorded().skip(self.history.recorded().len() as int) =~= Seq::<EditOperation>::empty());
            }
            return false;
        }
        let ghost t0 = self.buffer@;
        let ghost rec0 = self.history.recorded();
        let ranges = range_selections(&self.selections);
        let to_delete = sort_by_start_desc(&ranges);
        let ghost list = to_delete@;
        let ghost mut pairs: Seq<(int, Seq<char>)> = Seq::empty();
        let ghost mut ops: Seq<EditOperation> = Seq::empty();
        let mut k: usize = 0;
        proof {
            assert(list.skip(0) =~= list);
            assert(pairs + delete_ranges(t0, list).1 =~= delete_ranges(t0, list).1);
        }
        while k < to_delete.len()
            invariant
                list == to_delete@,
                k <= list.len(),
                t0.len() <= isize::MAX,
                self.buffer@.len() <= t0.len(),
                delete_ranges(self.buffer@, list.skip(k as int)).2,
                delete_ranges(self.buffer@, list.skip(k as int)).0 == delete_ranges(t0, list).0,
                pairs + delete_ranges(self.buffer@, list.skip(k as int)).1 == delete_ranges(t0, list).1,
                self.history.recorded() == rec0 + ops,
                ops_match(ops, pairs, true),
                self.selections == old(self).selections,
                self.primary_selection_index == old(self).primary_selection_index,
                self.search_matches == old(self).search_matches,
            decreases list.len() - k,
        {
            let selection = to_delete[k];
            let (start, end) = selection.ordered();
            let ghost t = self.buffer@;
            proof {
                assert(list.skip(k as int)[0] == selection);
                assert(list.skip(k as int).drop_first() =~= list.skip(k + 1));
                lemma_char_pos_bounds(t, start);
                lemma_char_pos_bounds(t, end);
            }
            let start_pos = InputHandler::cursor_to_char_pos(&self.buffer, &start);
            let end_pos = InputHandler::cursor_to_char_pos(&self.buffer, &end);
            let len = if end_pos > start_pos { end_pos - start_pos } else { 0 };
            if len > 0 {
                let deleted_text = self.buffer.slice(start_pos, end_pos);
                let op = EditOperation::Delete { pos: start_pos, text: deleted_text };
                proof {
                    let ghost old_pairs = pairs;
                    pairs = pairs.push((start_pos as int, t.subrange(start_pos as int, end_pos as int)));
                    ops = ops.push(op);
                    assert(pairs + delete_ranges(t.take(start_pos as int) + t.skip(end_pos as int), list.skip(k + 1)).1
                        =~= old_pairs + delete_ranges(t, list.skip(k as int)).1);
                    assert forall|i: int| 0 <= i < ops.len() implies (#[trigger] ops[i] is Delete) == true
                        && crate::history::op_pos(ops[i]) == pairs[i].0 && crate::history::op_text(ops[i])
                        == pairs[i].1 by {
                    }
                }
                self.history.record_operation(op);
                self.buffer.remove(start_pos, len);
            }
            k = k + 1;
        }
        proof {
            assert(list.skip(list.len() as int).len() == 0);
            assert(pairs =~= delete_ranges(t0, list).1);
            assert(self.history.recorded().take(rec0.len() as int) =~= rec0);
            assert(self.history.recorded().skip(rec0.len() as int) =~= ops);
        }
        let ghost t_final = self.buffer@;
        let indexed = sort_by_start(&self.selections);
        let ghost sorted = indexed@;
        let mut new_selections: Vec<Selection> = Vec::new();
        let mut offset_adjustment: isize = 0;
        let mut j: usize = 0;
        proof {
            assert(sorted.skip(0) =~= sorted);
            assert(new_selections@ + collapse_ranges(t_final, sorted, 0).0 =~= collapse_ranges(t_final, sorted, 0).0);
        }
        while j < indexed.len()
            invariant
                sorted == indexed@,
                j <= sorted.len(),
                t_final == self.buffer@,
                t_final.len() <= isize::MAX,
                collapse_ranges(t_final, sorted.skip(j as int), offset_adjustment as int).1,
                new_selections@ + collapse_ranges(t_final, sorted.skip(j as int), offset_adjustment as int).0
                    == collapse_ranges(t_final, sorted, 0).0,
            decreases sorted.len() - j,
        {
            let selection = indexed[j];
            let (start, end) = selection.ordered();
            proof {
                assert(sorted.skip(j as int)[0] == selection);
                assert(sorted.skip(j as int).drop_first() =~= sorted.skip(j + 1));
            }
            let ghost before = new_selections@;
            if selection.is_range() {
                let adjusted_col = if offset_adjustment >= 0 {
                    start.column
                } else {
                    let back = (-offset_adjustment) as usize;
                    if start.column >= back { start.column - back } else { 0 }
                };
                let c = Selection::collapsed(Cursor::new(start.line, adjusted_col));
                new_selections.push(c);
                proof {
                    lemma_char_pos_bounds(t_final, start);
                    lemma_char_pos_bounds(t_final, end);
                }
                let start_pos = InputHandler::cursor_to_char_pos(&self.buffer, &start);
                let end_pos_before = InputHandler::cursor_to_char_pos(&self.buffer, &end);
                let diff: isize = end_pos_before as isize - start_pos as isize;
                let ghost old_offset = offset_adjustment as int;
                offset_adjustment = offset_adjustment - diff;
                proof {
                    assert(new_selections@ + collapse_ranges(t_final, sorted.skip(j + 1), offset_adjustment as int).0
                        =~= before + collapse_ranges(t_final, sorted.skip(j as int), old_offset).0);
                }
            } else {
                new_selections.push(selection);
                proof {
                    assert(new_selections@ + collapse_ranges(t_final, sorted.skip(j + 1), offset_adjustment as int).0
                        =~= before + collapse_ranges(t_final, sorted.skip(j as int), offset_adjustment as int).0);
                }
            }
            j = j + 1;
        }
        proof {
            assert(sorted.skip(sorted.len() as int).len() == 0);
            assert(new_selections@ =~= collapse_ranges(t_final, sorted, 0).0);
        }
        if new_selections.len() == 0 {
            self.selections = vec![Selection::start()];
            proof {
                assert(self.selections@ =~= seq![Selection { anchor: at(0, 0), head: at(0, 0) }]);
            }
        } else {
            self.selections = new_selections;
        }
        let n = self.selections.len();
        if self.primary_selection_index >= n {
            self.primary_selection_index = if n > 0 { n - 1 } else { 0 };
        }
        self.merge_overlapping_selections();
        self.content_dirty = true;
        true
    }

    /// The character position of every selection's head.
    fn head_positions(&self) -> (r: Vec<(usize, usize)>)
        requires
            forall|i: int| 0 <= i < self.selections@.len() ==> pos_fits(self.buffer@, #[trigger] self.selections@[i].head),
        ensures
            r@ == head_positions(self.buffer@, self.selections@),
    {
        let mut r: Vec<(usize, usize)> = Vec::new();
        let mut i: usize = 0;
        while i < self.selections.len()
            invariant
                i <= self.selections@.len(),
                forall|k: int| 0 <= k < self.selections@.len() ==> pos_fits(self.buffer@, #[trigger] self.selections@[k].head),
                r@ == head_positions(self.buffer@, self.selections@).take(i as int),
            decreases self.selections@.len() - i,
        {
            let p = InputHandler::cursor_to_char_pos(&self.buffer, &self.selections[i].head);
            r.push((i, p));
            proof {
                assert(r@ =~= head_positions(self.buffer@, self.selections@).take(i + 1));
            }
            i = i + 1;
        }
        proof {
            assert(head_positions(self.buffer@, self.selections@).take(i as int) =~= head_positions(self.buffer@, self.selections@));
        }
        r
    }

    /// Inserts `text` at every cursor (after deleting selected ranges),
    /// highest position first, recording each insertion; each cursor ends
    /// `cursor_offset` characters into its inserted text, read right after
    /// its own insertion. Then merges.
    fn insert_at_all_cursors(&mut self, text: &str, cursor_offset: usize)
        requires
            insert_ok(old(self).buffer@, old(self).selections@, old(self).primary_selection_index, cursor_offset as int),
        ensures
            ({
                let res = insert_result(old(self).buffer@, old(self).selections@, old(self).primary_selection_index, text@, cursor_offset as int);
                &&& final(self).buffer@ == res.0
                &&& final(self).selections@ == res.1
                &&& final(self).primary_selection_index == res.2
                &&& recorded_grew2(
                    old(self).history.recorded(),
                    final(self).history.recorded(),
                    delete_pairs(old(self).buffer@, old(self).selections@),
                    insert_result_pairs(old(self).buffer@, old(self).selections@, old(self).primary_selection_index, text@),
                )
            }),
            final(self).content_dirty,
            final(self).search_matches == old(self).search_matches,
    {
        let ghost rec0 = self.history.recorded();
        self.delete_selection();
        let ghost t1 = self.buffer@;
        let ghost sels1 = self.selections@;
        let ghost rec1 = self.history.recorded();
        let ghost p1 = self.primary_selection_index;
        let positions = self.head_positions();
        let sorted = sort_by_pos_desc(&positions);
        let ghost ps = sorted@;
        let ghost precedes = |x: (usize, usize), y: (usize, usize)| pos_after(x, y);
        proof {
            lemma_stable_sort_len(positions@, precedes);
        }
        let mut new_cursors: Vec<(usize, Cursor)> = Vec::new();
        let ghost mut ops: Seq<EditOperation> = Seq::empty();
        let mut k: usize = 0;
        proof {
            assert(ps.skip(0) =~= ps);
            assert(new_cursors@ + insert_all(t1, ps, text@, cursor_offset as int).1 =~= insert_all(t1, ps, text@, cursor_offset as int).1);
        }
        while k < sorted.len()
            invariant
                ps == sorted@,
                precedes == (|x: (usize, usize), y: (usize, usize)| pos_after(x, y)),
                ps == stable_sort(positions@, precedes),
                positions@ == head_positions(t1, sels1),
                ps.len() == positions@.len(),
                k <= ps.len(),
                self.buffer@.len() >= t1.len(),
                forall|i: int|
                    0 <= i < sels1.len() ==> pos_fits(t1, #[trigger] sels1[i].head) && char_pos(t1, sels1[i].head)
                        + cursor_offset <= usize::MAX,
                insert_all(self.buffer@, ps.skip(k as int), text@, cursor_offset as int).0 == insert_all(t1, ps, text@, cursor_offset as int).0,
                new_cursors@ + insert_all(self.buffer@, ps.skip(k as int), text@, cursor_offset as int).1 == insert_all(t1, ps, text@, cursor_offset as int).1,
                self.history.recorded() == rec1 + ops,
                ops_match(ops, insert_pairs(ps, text@).take(k as int), false),
                self.selections@ == sels1,
                self.primary_selection_index == p1,
                self.search_matches == old(self).search_matches,
            decreases ps.len() - k,
        {
            let (idx, pos) = sorted[k];
            proof {
                lemma_stable_sort_contains(positions@, precedes, k as int);
                let i = choose|i: int| 0 <= i < positions@.len() && positions@[i] == ps[k as int];
                lemma_char_pos_bounds(t1, sels1[i].head);
                assert(ps.skip(k as int)[0] == ps[k as int]);
                assert(ps.skip(k as int).drop_first() =~= ps.skip(k + 1));
            }
            let ghost tb = self.buffer@;
            let op = EditOperation::Insert { pos, text: String::from_str(text) };
            self.history.record_operation(op);
            self.buffer.insert(pos, text);
            let new_char_pos = pos + cursor_offset;
            let new_cursor = self.char_pos_to_cursor(new_char_pos);
            let ghost before = new_cursors@;
            new_cursors.push((idx, new_cursor));
            proof {
                ops = ops.push(op);
                assert(insert_pairs(ps, text@).take(k + 1) =~= insert_pairs(ps, text@).take(k as int).push((pos as int, text@)));
                assert forall|i: int| 0 <= i < ops.len() implies (#[trigger] ops[i] is Delete) == false
                    && crate::history::op_pos(ops[i]) == insert_pairs(ps, text@).take(k + 1)[i].0
                    && crate::history::op_text(ops[i]) == insert_pairs(ps, text@).take(k + 1)[i].1 by {
                }
                assert(new_cursors@ + insert_all(self.buffer@, ps.skip(k + 1), text@, cursor_offset as int).1
                    =~= before + insert_all(tb, ps.skip(k as int), text@, cursor_offset as int).1);
            }
            k = k + 1;
        }
        proof {
            assert(ps.skip(ps.len() as int).len() == 0);
            assert(new_cursors@ =~= insert_all(t1, ps, text@, cursor_offset as int).1);
            assert(insert_pairs(ps, text@).take(ps.len() as int) =~= insert_pairs(ps, text@));
        }
        let mut u: usize = 0;
        let ghost ups = new_cursors@;
        let ghost h2 = self.history;
        let ghost b2 = self.buffer@;
        proof {
            assert(ups.skip(0) =~= ups);
        }
        while u < new_cursors.len()
            invariant
                ups == new_cursors@,
                self.history == h2,
                self.buffer@ == b2,
                self.primary_selection_index == p1,
                self.search_matches == old(self).search_matches,
                u <= ups.len(),
                apply_cursor_updates(self.selections@, ups.skip(u as int)) == apply_cursor_updates(sels1, ups),
            decreases ups.len() - u,
        {
            let (sel_idx, c) = new_cursors[u];
            proof {
                assert(ups.skip(u as int)[0] == ups[u as int]);
                assert(ups.skip(u as int).drop_first() =~= ups.skip(u + 1));
            }
            if sel_idx < self.selections.len() {
                self.selections.set(sel_idx, Selection::collapsed(c));
            }
            u = u + 1;
        }
        proof {
            assert(ups.skip(ups.len() as int).len() == 0);
        }
        self.merge_overlapping_selections();
        self.content_dirty = true;
        proof {
            let fr = self.history.recorded();
            let dp = delete_pairs(old(self).buffer@, old(self).selections@);
            assert(fr.take(rec0.len() as int) =~= rec0) by {
                assert(rec1.take(rec0.len() as int) =~= rec0);
            }
            assert(fr.subrange(rec0.len() as int, (rec0.len() + dp.len()) as int) =~= rec1.skip(rec0.len() as int));
            assert(fr.skip((rec0.len() + dp.len()) as int) =~= ops);
        }
    }

    /// Types `text` at every cursor: selected ranges are deleted first, then
    /// the text is inserted at each cursor (highest position first), each
    /// cursor ending after its text. Empty text changes nothing.
    pub fn insert_text_at_all_cursors(&mut self, text: &str)
        requires
            text@.len() > 0 ==> insert_ok(
                old(self).buffer@,
                old(self).selections@,
                old(self).primary_selection_index,
                text@.len() as int,
            ),
        ensures
            text@.len() == 0 ==> *final(self) == *old(self),
            text@.len() > 0 ==> ({
                let res = insert_result(old(self).buffer@, old(self).selections@, old(self).primary_selection_index, text@, text@.len() as int);
                &&& final(self).buffer@ == res.0
                &&& final(self).selections@ == res.1
                &&& final(self).primary_selection_index == res.2
                &&& recorded_grew2(
                    old(self).history.recorded(),
                    final(self).history.recorded(),
                    delete_pairs(old(self).buffer@, old(self).selections@),
                    insert_result_pairs(old(self).buffer@, old(self).selections@, old(self).primary_selection_index, text@),
                )
                &&& final(self).content_dirty
            }),
    {
        if text.unicode_len() == 0 {
            return;
        }
        let text_chars = text.unicode_len();
        self.insert_at_all_cursors(text, text_chars);
    }

    /// Inserts `text` at every cursor like `insert_text_at_all_cursors`,
    /// but leaves each cursor `cursor_offset` characters into its inserted
    /// text. Empty text changes nothing.
    pub fn insert_text_with_cursor_position(&mut self, text: &str, cursor_offset: usize)
        requires
            text@.len() > 0 ==> insert_ok(
                old(self).buffer@,
                old(self).selections@,
                old(self).primary_selection_index,
                cursor_offset as int,
            ),
        ensures
            text@.len() == 0 ==> *final(self) == *old(self),
            text@.len() > 0 ==> ({
                let res = insert_result(old(self).buffer@, old(self).selections@, old(self).primary_selection_index, text@, cursor_offset as int);
                &&& final(self).buffer@ == res.0
                &&& final(self).selections@ == res.1
                &&& final(self).primary_selection_index == res.2
                &&& recorded_grew2(
                    old(self).history.recorded(),
                    final(self).history.recorded(),
                    delete_pairs(old(self).buffer@, old(self).selections@),
                    insert_result_pairs(old(self).buffer@, old(self).selections@, old(self).primary_selection_index, text@),
                )
                &&& final(self).content_dirty
            }),
    {
        if text.unicode_len() == 0 {
            return;
        }
        self.insert_at_all_cursors(text, cursor_offset);
    }

    /// Deletes the character at each target (highest first) that lies in
    /// the text, recording each deletion.
    fn delete_chars_at(&mut self, targets: &Vec<usize>)
        ensures
            final(self).buffer@ == delete_chars(old(self).buffer@, targets@).0,
            recorded_grew(
                old(self).history.recorded(),
                final(self).history.recorded(),
                delete_chars(old(self).buffer@, targets@).1,
                true,
            ),
            final(self).selections == old(self).selections,
            final(self).primary_selection_index == old(self).primary_selection_index,
            final(self).search_matches == old(self).search_matches,
            final(self).content_dirty == old(self).content_dirty,
    {
        let ghost t0 = self.buffer@;
        let ghost rec0 = self.history.recorded();
        let ghost ds = targets@;
        let ghost mut pairs: Seq<(int, Seq<char>)> = Seq::empty();
        let ghost mut ops: Seq<EditOperation> = Seq::empty();
        let mut k: usize = 0;
        proof {
            assert(ds.skip(0) =~= ds);
            assert(pairs + delete_chars(t0, ds).1 =~= delete_chars(t0, ds).1);
        }
        while k < targets.len()
            invariant
                ds == targets@,
                k <= ds.len(),
                delete_chars(self.buffer@, ds.skip(k as int)).0 == delete_chars(t0, ds).0,
                pairs + delete_chars(self.buffer@, ds.skip(k as int)).1 == delete_chars(t0, ds).1,
                self.history.recorded() == rec0 + ops,
                ops_match(ops, pairs, true),
                self.selections == old(self).selections,
                self.primary_selection_index == old(self).primary_selection_index,
                self.search_matches == old(self).search_matches,
                self.content_dirty == old(self).content_dirty,
            decreases ds.len() - k,
        {
            let delete_at = targets[k];
            let ghost t = self.buffer@;
            proof {
                assert(ds.skip(k as int)[0] == delete_at);
                assert(ds.skip(k as int).drop_first() =~= ds.skip(k + 1));
            }
            if delete_at < self.buffer.len() {
                let deleted_char = self.buffer.slice(delete_at, delete_at + 1);
                let op = EditOperation::Delete { pos: delete_at, text: deleted_char };
                proof {
                    assert(t.subrange(delete_at as int, delete_at + 1) =~= seq![t[delete_at as int]]);
                    let ghost old_pairs = pairs;
                    pairs = pairs.push((delete_at as int, seq![t[delete_at as int]]));
                    ops = ops.push(op);
                    assert(pairs + delete_chars(t.take(delete_at as int) + t.skip(delete_at + 1), ds.skip(k + 1)).1
                        =~= old_pairs + delete_chars(t, ds.skip(k as int)).1);
                    assert forall|i: int| 0 <= i < ops.len() implies (#[trigger] ops[i] is Delete) == true
                        && crate::history::op_pos(ops[i]) == pairs[i].0 && crate::history::op_text(ops[i])
                        == pairs[i].1 by {
                    }
                }
                self.history.record_operation(op);
                self.buffer.remove(delete_at, 1);
            }
            k = k + 1;
        }
        proof {
            assert(ds.skip(ds.len() as int).len() == 0);
            assert(pairs =~= delete_chars(t0, ds).1);
            assert(self.history.recorded().take(rec0.len() as int) =~= rec0);
            assert(self.history.recorded().skip(rec0.len() as int) =~= ops);
        }
    }

    /// The number of targets below `p`.
    fn count_targets_below(targets: &Vec<usize>, p: usize) -> (n: usize)
        ensures
            n == count_below(targets@, p),
    {
        let mut n: usize = 0;
        let mut i: usize = 0;
        proof {
            assert(targets@.take(0) =~= Seq::<usize>::empty());
        }
        while i < targets.len()
            invariant
                i <= targets@.len(),
                n == count_below(targets@.take(i as int), p),
                n <= i,
            decreases targets@.len() - i,
        {
            proof {
                assert(targets@.take(i + 1).drop_last() =~= targets@.take(i as int));
            }
            if targets[i] < p {
                n = n + 1;
            }
            i = i + 1;
        }
        proof {
            assert(targets@.take(targets@.len() as int) =~= targets@);
        }
        n
    }

    /// Every cursor collapsed at its head position moved back by the
    /// deletions below it, clamped to the text.
    fn shifted_selections(&self, positions: &Vec<(usize, usize)>, targets: &Vec<usize>) -> (r: Vec<Selection>)
        ensures
            r@ == shifted_cursors(self.buffer@, positions@, targets@),
    {
        let mut r: Vec<Selection> = Vec::new();
        let mut i: usize = 0;
        let len = self.buffer.len();
        while i < positions.len()
            invariant
                i <= positions@.len(),
                len == self.buffer@.len(),
                r@ == shifted_cursors(self.buffer@, positions@, targets@).take(i as int),
            decreases positions@.len() - i,
        {
            let pos_before = positions[i].1;
            let deletions_before = Self::count_targets_below(targets, pos_before);
            let np = if pos_before >= deletions_before { pos_before - deletions_before } else { 0 };
            let new_char_pos = if np < len { np } else { len };
            let new_cursor = self.char_pos_to_cursor(new_char_pos);
            r.push(Selection::collapsed(new_cursor));
            proof {
                assert(r@ =~= shifted_cursors(self.buffer@, positions@, targets@).take(i + 1));
            }
            i = i + 1;
        }
        proof {
            assert(shifted_cursors(self.buffer@, positions@, targets@).take(i as int) =~= shifted_cursors(self.buffer@, positions@, targets@));
        }
        r
    }

    /// Backspace at every cursor: when any selection covers a range, the
    /// ranges are deleted as by `delete_selection`; otherwise the character
    /// before each cursor is deleted (each position once, highest first)
    /// and every cursor moves back by the deletions below it. Then merges.
    pub fn backspace_at_all_cursors(&mut self)
        requires
            any_range(old(self).selections@) ==> delete_selection_ok(old(self).buffer@, old(self).selections@),
            !any_range(old(self).selections@) ==> forall|i: int|
                0 <= i < old(self).selections@.len() ==> pos_fits(old(self).buffer@, #[trigger] old(self).selections@[i].head),
        ensures
            any_range(old(self).selections@) ==> ({
                let a = after_delete(old(self).buffer@, old(self).selections@, old(self).primary_selection_index);
                &&& final(self).buffer@ == a.0
                &&& final(self).selections@ == a.1
                &&& final(self).primary_selection_index == a.2
                &&& recorded_grew(old(self).history.recorded(), final(self).history.recorded(), delete_pairs(old(self).buffer@, old(self).selections@), true)
            }),
            !any_range(old(self).selections@) ==> ({
                let ps = head_positions(old(self).buffer@, old(self).selections@);
                let ds = desc_distinct(prev_positions(ps));
                let d = delete_chars(old(self).buffer@, ds);
                let sh = shifted_cursors(d.0, ps, ds);
                &&& final(self).buffer@ == d.0
                &&& final(self).selections@ == merged_selections(sh)
                &&& final(self).primary_selection_index == primary_after_merge(sh, old(self).primary_selection_index)
                &&& recorded_grew(old(self).history.recorded(), final(self).history.recorded(), d.1, true)
            }),
            final(self).content_dirty,
            final(self).search_matches == old(self).search_matches,
    {
        if self.has_any_selection() {
            self.delete_selection();
            return;
        }
        let positions_before = self.head_positions();
        let ghost ps = positions_before@;
        let mut delete_targets: Vec<usize> = Vec::new();
        let mut i: usize = 0;
        proof {
            assert(ps.take(0) =~= Seq::<(usize, usize)>::empty());
        }
        while i < positions_before.len()
            invariant
                ps == positions_before@,
                i <= ps.len(),
                delete_targets@ == desc_distinct(prev_positions(ps.take(i as int))),
            decreases ps.len() - i,
        {
            let pos = positions_before[i].1;
            proof {
                assert(ps.take(i + 1).drop_last() =~= ps.take(i as int));
            }
            if pos > 0 {
                insert_desc(&mut delete_targets, pos - 1);
                proof {
                    let q = prev_positions(ps.take(i as int));
                    assert(prev_positions(ps.take(i + 1)) =~= q.push((pos - 1) as usize));
                    assert(q.push((pos - 1) as usize).drop_last() =~= q);
                }
            } else {
                proof {
                    assert(prev_positions(ps.take(i + 1)) =~= prev_positions(ps.take(i as int)));
                }
            }
            i = i + 1;
        }
        proof {
            assert(ps.take(ps.len() as int) =~= ps);
        }
        self.delete_chars_at(&delete_targets);
        let new_selections = self.shifted_selections(&positions_before, &delete_targets);
        self.selections = new_selections;
        self.merge_overlapping_selections();
        self.content_dirty = true;
    }

    /// Delete at every cursor: when any selection covers a range, the
    /// ranges are deleted as by `delete_selection`; otherwise the character
    /// at each cursor is deleted (each position once, highest first) and
    /// every cursor moves back by the deletions below it. Then merges.
    pub fn delete_at_all_cursors(&mut self)
        requires
            any_range(old(self).selections@) ==> delete_selection_ok(old(self).buffer@, old(self).selections@),
            !any_range(old(self).selections@) ==> forall|i: int|
                0 <= i < old(self).selections@.len() ==> pos_fits(old(self).buffer@, #[trigger] old(self).selections@[i].head),
        ensures
            any_range(old(self).selections@) ==> ({
                let a = after_delete(old(self).buffer@, old(self).selections@, old(self).primary_selection_index);
                &&& final(self).buffer@ == a.0
                &&& final(self).selections@ == a.1
                &&& final(self).primary_selection_index == a.2
                &&& recorded_grew(old(self).history.recorded(), final(self).history.recorded(), delete_pairs(old(self).buffer@, old(self).selections@), true)
            }),
            !any_range(old(self).selections@) ==> ({
                let ps = head_positions(old(self).buffer@, old(self).selections@);
                let ds = desc_distinct(positions_only(ps));
                let d = delete_chars(old(self).buffer@, ds);
                let sh = shifted_cursors(d.0, ps, ds);
                &&& final(self).buffer@ == d.0
                &&& final(self).selections@ == merged_selections(sh)
                &&& final(self).primary_selection_index == primary_after_merge(sh, old(self).primary_selection_index)
                &&& recorded_grew(old(self).history.recorded(), final(self).history.recorded(), d.1, true)
            }),
            final(self).content_dirty,
            final(self).search_matches == old(self).search_matches,
    {
        if self.has_any_selection() {
            self.delete_selection();
            return;
        }
        let positions_before = self.head_positions();
        let ghost ps = positions_before@;
        let mut delete_targets: Vec<usize> = Vec::new();
        let mut i: usize = 0;
        proof {
            assert(positions_only(ps).take(0) =~= Seq::<usize>::empty());
        }
        while i < positions_before.len()
            invariant
                ps == positions_before@,
                i <= ps.len(),
                delete_targets@ == desc_distinct(positions_only(ps).take(i as int)),
            decreases ps.len() - i,
        {
            let pos = positions_before[i].1;
            proof {
                assert(positions_only(ps).take(i + 1).drop_last() =~= positions_only(ps).take(i as int));
                assert(positions_only(ps).take(i + 1).last() == pos);
            }
            insert_desc(&mut delete_targets, pos);
            i = i + 1;
        }
        proof {
            assert(positions_only(ps).take(ps.len() as int) =~= positions_only(ps));
        }
        self.delete_chars_at(&delete_targets);
        let new_selections = self.shifted_selections(&positions_before, &delete_targets);
        self.selections = new_selections;
        self.merge_overlapping_selections();
        self.content_dirty = true;
    }

    /// Moves every cursor by `key` (see `multi_move`), extending the
    /// selections with Shift and collapsing them otherwise; then merges.
    pub fn move_all_cursors(&mut self, key: KeyCode, modifiers: &InputModifiers)
        requires
            key == KeyCode::ArrowRight || key == KeyCode::ArrowDown ==> forall|i: int|
                0 <= i < old(self).selections@.len() ==> #[trigger] old(self).selections@[i].head.line
                    < usize::MAX,
        ensures
            ({
                let m = moved_all(old(self).buffer@, old(self).selections@, key, modifiers.shift);
                &&& final(self).selections@ == merged_selections(m)
                &&& final(self).primary_selection_index == primary_after_merge(m, old(self).primary_selection_index)
            }),
            final(self).buffer == old(self).buffer,
            final(self).history == old(self).history,
            final(self).content_dirty == old(self).content_dirty,
    {
        let total_lines = self.buffer.line_count();
        let shift = modifiers.shift;
        let n = self.selections.len();
        let ghost sels0 = self.selections@;
        let mut i: usize = 0;
        while i < n
            invariant
                n == self.selections@.len(),
                sels0 == old(self).selections@,
                sels0.len() == n,
                total_lines == line_count_of(self.buffer@),
                self.buffer == old(self).buffer,
                self.history == old(self).history,
                self.content_dirty == old(self).content_dirty,
                self.primary_selection_index == old(self).primary_selection_index,
                shift == modifiers.shift,
                key == KeyCode::ArrowRight || key == KeyCode::ArrowDown ==> forall|k: int|
                    0 <= k < sels0.len() ==> #[trigger] sels0[k].head.line < usize::MAX,
                i <= n,
                forall|k: int| i <= k < n ==> #[trigger] self.selections@[k] == sels0[k],
                forall|k: int| 0 <= k < i ==> #[trigger] self.selections@[k] == moved_all(self.buffer@, sels0, key, shift)[k],
            decreases n - i,
        {
            let sel = self.selections[i];
            let cursor = sel.head;
            proof {
                assert(self.selections@[i as int] == sels0[i as int]);
                if key == KeyCode::ArrowRight || key == KeyCode::ArrowDown {
                    assert(sels0[i as int].head.line < usize::MAX);
                }
            }
            let new_cursor = match key {
                KeyCode::ArrowLeft => {
                    if cursor.column > 0 {
                        Cursor::new(cursor.line, cursor.column - 1)
                    } else if cursor.line > 0 {
                        let prev_line_len = InputHandler::line_length(&self.buffer, cursor.line - 1);
                        Cursor::new(cursor.line - 1, prev_line_len)
                    } else {
                        cursor
                    }
                },
                KeyCode::ArrowRight => {
                    let line_len = InputHandler::line_length(&self.buffer, cursor.line);
                    if cursor.column < line_len {
                        Cursor::new(cursor.line, cursor.column + 1)
                    } else if cursor.line + 1 < total_lines {
                        Cursor::new(cursor.line + 1, 0)
                    } else {
                        cursor
                    }
                },
                KeyCode::ArrowUp => {
                    if cursor.line > 0 {
                        let prev_line_len = InputHandler::line_length(&self.buffer, cursor.line - 1);
                        let col = if cursor.column < prev_line_len { cursor.column } else { prev_line_len };
                        Cursor::new(cursor.line - 1, col)
                    } else {
                        Cursor::new(0, 0)
                    }
                },
                KeyCode::ArrowDown => {
                    if cursor.line + 1 < total_lines {
                        let next_line_len = InputHandler::line_length(&self.buffer, cursor.line + 1);
                        let col = if cursor.column < next_line_len { cursor.column } else { next_line_len };
                        Cursor::new(cursor.line + 1, col)
                    } else {
                        let line_len = InputHandler::line_length(&self.buffer, cursor.line);
                        Cursor::new(cursor.line, line_len)
                    }
                },
                KeyCode::Home => Cursor::new(cursor.line, 0),
                KeyCode::End => {
                    let line_len = InputHandler::line_length(&self.buffer, cursor.line);
                    Cursor::new(cursor.line, line_len)
                },
                _ => cursor,
            };
            assert(new_cursor == multi_move(self.buffer@, sels0[i as int].head, key));
            if shift {
                self.selections.set(i, sel.with_head(new_cursor));
            } else {
                self.selections.set(i, Selection::collapsed(new_cursor));
            }
            assert(self.selections@[i as int] == moved_all(self.buffer@, sels0, key, shift)[i as int]);
            i = i + 1;
        }
        proof {
            assert(self.selections@ =~= moved_all(self.buffer@, sels0, key, shift));
        }
        self.merge_overlapping_selections();
    }

    /// Replaces the match at `m` (its byte range read as characters) with
    /// `replacement`, recording a deletion then an insertion.
    fn replace_one(&mut self, m: SearchMatch, replacement: &str) -> (r: (usize, String))
        ensures
            r.0 == replace_match(old(self).buffer@, m, replacement@).0,
            r.1@ == replace_match(old(self).buffer@, m, replacement@).1,
            final(self).buffer@ == replace_match(old(self).buffer@, m, replacement@).2,
            final(self).history.recorded().len() == old(self).history.recorded().len() + 2,
            final(self).history.recorded().take(old(self).history.recorded().len() as int) == old(self).history.recorded(),
            final(self).history.recorded()[old(self).history.recorded().len() as int] is Delete,
            crate::history::op_pos(final(self).history.recorded()[old(self).history.recorded().len() as int]) == r.0,
            crate::history::op_text(final(self).history.recorded()[old(self).history.recorded().len() as int]) == r.1@,
            final(self).history.recorded()[(old(self).history.recorded().len() + 1) as int] is Insert,
            crate::history::op_pos(final(self).history.recorded()[(old(self).history.recorded().len() + 1) as int]) == r.0,
            crate::history::op_text(final(self).history.recorded()[(old(self).history.recorded().len() + 1) as int]) == replacement@,
            final(self).selections == old(self).selections,
            final(self).primary_selection_index == old(self).primary_selection_index,
            final(self).search_matches == old(self).search_matches,
            final(self).current_search_match == old(self).current_search_match,
            final(self).content_dirty == old(self).content_dirty,
    {
        let ghost t = self.buffer@;
        let ghost rec0 = self.history.recorded();
        let start_char = match self.buffer.try_byte_to_char(m.start_byte) {
            Some(c) => c,
            None => 0,
        };
        let end_char = match self.buffer.try_byte_to_char(m.end_byte) {
            Some(c) => c,
            None => start_char,
        };
        proof {
            lemma_char_at_byte_bound(t, m.start_byte as int);
            lemma_char_at_byte_bound(t, m.end_byte as int);
        }
        let match_len = if end_char >= start_char { end_char - start_char } else { 0 };
        let removed_text = self.buffer.slice(start_char, end_char);
        let text_copy = removed_text.clone();
        self.history.record_operation(EditOperation::Delete { pos: start_char, text: removed_text });
        self.buffer.remove(start_char, match_len);
        proof {
            if match_len == 0 {
                assert(t.skip(start_char + match_len) =~= t.skip(start_char as int));
            }
        }
        self.buffer.insert(start_char, replacement);
        self.history.record_operation(EditOperation::Insert { pos: start_char, text: String::from_str(replacement) });
        proof {
            let fr = self.history.recorded();
            assert(fr.take(rec0.len() as int) =~= rec0);
        }
        (start_char, text_copy)
    }

    /// Replaces the current search match with `replacement` (recording a
    /// deletion and an insertion), drops it from the matches, moves the
    /// later matches by the change in byte length and reads their lines
    /// again; the current match stays at the same index (clamped). Returns
    /// whether there was a current match.
    #[verifier::spinoff_prover]
    pub fn replace_current_match(&mut self, replacement: &str) -> (r: bool)
        requires
            old(self).current_search_match < old(self).search_matches@.len() ==> ({
                let m = old(self).search_matches@[old(self).current_search_match as int];
                &&& m.start_byte <= m.end_byte
                &&& m.end_byte - m.start_byte <= isize::MAX
            }),
            byte_len(replacement@) <= isize::MAX,
        ensures
            r == (old(self).search_matches@.len() > 0 && old(self).current_search_match < old(self).search_matches@.len()),
            !r ==> *final(self) == *old(self),
            r ==> ({
                let idx = old(self).current_search_match as int;
                let m = old(self).search_matches@[idx];
                let rm = replace_match(old(self).buffer@, m, replacement@);
                let delta = byte_len(replacement@) - (m.end_byte - m.start_byte);
                let left = old(self).search_matches@.len() - 1;
                &&& final(self).buffer@ == rm.2
                &&& recorded_grew2(
                    old(self).history.recorded(),
                    final(self).history.recorded(),
                    seq![(rm.0, rm.1)],
                    seq![(rm.0, replacement@)],
                )
                &&& final(self).search_matches@ == matches_after_replace(old(self).search_matches@, idx, delta, rm.2)
                &&& final(self).current_search_match == if left > 0 { min_of(idx, left - 1) as usize } else { 0 }
                &&& final(self).scroll_to_search_match == (left > 0)
                &&& final(self).content_dirty
                &&& final(self).selections == old(self).selections
            }),
    {
        if self.search_matches.len() == 0 {
            return false;
        }
        let match_idx = self.current_search_match;
        if match_idx >= self.search_matches.len() {
            return false;
        }
        let search_match = self.search_matches[match_idx];
        let start_byte = search_match.start_byte;
        let end_byte = search_match.end_byte;
        let ghost rec0 = self.history.recorded();
        let _ = self.replace_one(search_match, replacement);
        self.content_dirty = true;
        let replacement_byte_len = replacement.len();
        let matched_byte_len = end_byte - start_byte;
        let byte_delta = replacement_byte_len as isize - matched_byte_len as isize;
        let ghost ms0 = self.search_matches@;
        let _ = self.search_matches.remove(match_idx);
        let n = self.search_matches.len();
        let mut j = match_idx;
        let ghost t2 = self.buffer@;
        let ghost delta = byte_len(replacement@) - (end_byte - start_byte);
        let ghost target = matches_after_replace(ms0, match_idx as int, delta, t2);
        let ghost h1 = self.history;
        assert(byte_delta == delta);
        while j < n
            invariant
                self.history == h1,
                self.content_dirty,
                self.selections == old(self).selections,
                n == self.search_matches@.len(),
                n == ms0.len() - 1,
                match_idx <= j <= n,
                byte_delta == delta,
                delta >= -isize::MAX,
                t2 == self.buffer@,
                target == matches_after_replace(ms0, match_idx as int, delta, t2),
                forall|k: int| 0 <= k < match_idx ==> #[trigger] self.search_matches@[k] == target[k],
                forall|k: int| match_idx <= k < j ==> #[trigger] self.search_matches@[k].start_byte == target[k].start_byte
                    && self.search_matches@[k].end_byte == target[k].end_byte,
                forall|k: int| j <= k < n ==> #[trigger] self.search_matches@[k] == ms0.remove(match_idx as int)[k],
            decreases n - j,
        {
            let sm = self.search_matches[j];
            let (sb, eb) = if byte_delta >= 0 {
                (sm.start_byte.saturating_add(byte_delta as usize), sm.end_byte.saturating_add(byte_delta as usize))
            } else {
                let abs_delta = (-byte_delta) as usize;
                (sm.start_byte.saturating_sub(abs_delta), sm.end_byte.saturating_sub(abs_delta))
            };
            self.search_matches.set(j, SearchMatch { start_byte: sb, end_byte: eb, line: sm.line });
            j = j + 1;
        }
        let mut j2 = match_idx;
        while j2 < n
            invariant
                self.history == h1,
                self.content_dirty,
                self.selections == old(self).selections,
                n == self.search_matches@.len(),
                n == ms0.len() - 1,
                match_idx <= j2 <= n,
                t2 == self.buffer@,
                target == matches_after_replace(ms0, match_idx as int, delta, t2),
                forall|k: int| 0 <= k < match_idx ==> #[trigger] self.search_matches@[k] == target[k],
                forall|k: int| match_idx <= k < j2 ==> #[trigger] self.search_matches@[k] == target[k],
                forall|k: int| j2 <= k < n ==> #[trigger] self.search_matches@[k].start_byte == target[k].start_byte
                    && self.search_matches@[k].end_byte == target[k].end_byte,
            decreases n - j2,
        {
            let sm = self.search_matches[j2];
            let new_line = self.byte_pos_to_line(sm.start_byte);
            let updated = SearchMatch { start_byte: sm.start_byte, end_byte: sm.end_byte, line: new_line };
            assert(updated == target[j2 as int]);
            let ghost prev = self.search_matches@;
            self.search_matches.set(j2, updated);
            proof {
                assert forall|k: int| match_idx <= k < j2 + 1 implies #[trigger] self.search_matches@[k] == target[k] by {
                    if k < j2 {
                        assert(self.search_matches@[k] == prev[k]);
                    }
                }
            }
            j2 = j2 + 1;
        }
        proof {
            assert(self.search_matches@ =~= target);
        }
        if self.search_matches.len() > 0 {
            let last = self.search_matches.len() - 1;
            self.current_search_match = if match_idx < last { match_idx } else { last };
            self.scroll_to_search_match = true;
        } else {
            self.current_search_match = 0;
            self.scroll_to_search_match = false;
        }
        proof {
            let fr = self.history.recorded();
            assert(fr.subrange(rec0.len() as int, (rec0.len() + 1) as int) =~= seq![fr[rec0.len() as int]]);
            assert(fr.skip((rec0.len() + 1) as int) =~= seq![fr[(rec0.len() + 1) as int]]);
        }
        true
    }

    /// Replaces every search match with `replacement`, the last match
    /// first (so earlier byte ranges stay valid), each recorded as a
    /// deletion and an insertion in one undo group; then clears the
    /// matches. Returns the number of matches replaced.
    pub fn replace_all_matches(&mut self, replacement: &str) -> (r: usize)
        ensures
            r == old(self).search_matches@.len(),
            r == 0 ==> *final(self) == *old(self),
            r > 0 ==> ({
                let ra = replace_all(old(self).buffer@, old(self).search_matches@, replacement@);
                let rec0 = old(self).history.recorded();
                let rec1 = final(self).history.recorded();
                &&& final(self).buffer@ == ra.0
                &&& rec1.len() == rec0.len() + ra.1.len()
                &&& rec1.take(rec0.len() as int) == rec0
                &&& ops_match_mixed(rec1.skip(rec0.len() as int), ra.1)
                &&& !final(self).history.grouping_open()
                &&& final(self).search_matches@.len() == 0
                &&& final(self).current_search_match == 0
                &&& !final(self).scroll_to_search_match
                &&& final(self).content_dirty
                &&& final(self).selections == old(self).selections
            }),
    {
        if self.search_matches.len() == 0 {
            return 0;
        }
        let match_count = self.search_matches.len();
        self.history.break_group();
        let ghost t0 = self.buffer@;
        let ghost rec0 = self.history.recorded();
        let ghost ms = self.search_matches@;
        let ghost mut es: Seq<(bool, int, Seq<char>)> = Seq::empty();
        let ghost mut ops: Seq<EditOperation> = Seq::empty();
        let mut i = match_count;
        proof {
            assert(ms.take(match_count as int) =~= ms);
            assert(es + replace_all(t0, ms, replacement@).1 =~= replace_all(t0, ms, replacement@).1);
        }
        while i > 0
            invariant
                ms == self.search_matches@,
                match_count == ms.len(),
                i <= match_count,
                replace_all(self.buffer@, ms.take(i as int), replacement@).0 == replace_all(t0, ms, replacement@).0,
                es + replace_all(self.buffer@, ms.take(i as int), replacement@).1 == replace_all(t0, ms, replacement@).1,
                self.history.recorded() == rec0 + ops,
                ops_match_mixed(ops, es),
                self.selections == old(self).selections,
            decreases i,
        {
            let m = self.search_matches[i - 1];
            let ghost t = self.buffer@;
            let ghost before_ops = ops;
            let ghost before_es = es;
            let ghost recb = self.history.recorded();
            proof {
                assert(ms.take(i as int).last() == m);
                assert(ms.take(i as int).drop_last() =~= ms.take(i - 1));
            }
            let (pos, deleted) = self.replace_one(m, replacement);
            proof {
                let fr = self.history.recorded();
                ops = ops + fr.skip(recb.len() as int);
                es = es + seq![(true, pos as int, deleted@), (false, pos as int, replacement@)];
                assert(fr =~= rec0 + ops) by {
                    assert(fr.take(recb.len() as int) =~= recb);
                    assert(fr =~= fr.take(recb.len() as int) + fr.skip(recb.len() as int));
                }
                assert(fr.skip(recb.len() as int) =~= seq![fr[recb.len() as int], fr[(recb.len() + 1) as int]]);
                assert(es + replace_all(self.buffer@, ms.take(i - 1), replacement@).1 =~= before_es
                    + replace_all(t, ms.take(i as int), replacement@).1);
                assert forall|k: int| 0 <= k < ops.len() implies (#[trigger] ops[k] is Delete) == es[k].0
                    && crate::history::op_pos(ops[k]) == es[k].1 && crate::history::op_text(ops[k]) == es[k].2 by {
                    if k >= before_ops.len() {
                        assert(ops[k] == fr[(recb.len() + (k - before_ops.len())) as int]);
                    }
                }
            }
            i = i - 1;
        }
        proof {
            assert(ms.take(0).len() == 0);
            assert(es =~= replace_all(t0, ms, replacement@).1);
            assert(self.history.recorded().take(rec0.len() as int) =~= rec0);
            assert(self.history.recorded().skip(rec0.len() as int) =~= ops);
        }
        self.history.break_group();
        self.content_dirty = true;
        self.search_matches.clear();
        self.current_search_match = 0;
        self.scroll_to_search_match = false;
        match_count
    }

    /// The text of the current search match: `None` without a current
    /// match or when its bytes lie past the end.
    pub fn current_match_text(&self) -> (r: Option<String>)
        ensures
            ({
                let ms = self.search_matches@;
                let idx = self.current_search_match as int;
                let t = self.buffer@;
                if ms.len() == 0 || idx >= ms.len() || ms[idx].start_byte > byte_len(t) || ms[idx].end_byte
                    > byte_len(t) {
                    r is None
                } else {
                    r is Some && r->0@ == slice_text(
                        t,
                        char_of_byte(t, ms[idx].start_byte, 0),
                        char_of_byte(t, ms[idx].end_byte, 0),
                    )
                }
            }),
    {
        if self.search_matches.len() == 0 {
            return None;
        }
        let match_idx = self.current_search_match;
        if match_idx >= self.search_matches.len() {
            return None;
        }
        let search_match = self.search_matches[match_idx];
        let start_char = match self.buffer.try_byte_to_char(search_match.start_byte) {
            Some(c) => c,
            None => {
                return None;
            },
        };
        let end_char = match self.buffer.try_byte_to_char(search_match.end_byte) {
            Some(c) => c,
            None => {
                return None;
            },
        };
        Some(self.buffer.slice(start_char, end_char))
    }

    /// The closer of an opening bracket or quote.
    pub fn get_closing_bracket(ch: char) -> (r: Option<char>)
        ensures
            r == closing_bracket(ch),
    {
        if ch == '(' {
            Some(')')
        } else if ch == '[' {
            Some(']')
        } else if ch == '{' {
            Some('}')
        } else if ch == '"' {
            Some('"')
        } else if ch == '\'' {
            Some('\'')
        } else if ch == '`' {
            Some('`')
        } else {
            None
        }
    }

    /// Whether a character closes a bracket or quote.
    pub fn is_closing_bracket(ch: char) -> (r: bool)
        ensures
            r == is_closer(ch),
    {
        ch == ')' || ch == ']' || ch == '}' || ch == '"' || ch == '\'' || ch == '`'
    }

    /// The character at a column of a line (line break included), if any.
    fn char_in_line_at(&self, line: usize, column: usize) -> (r: Option<char>)
        ensures
            r == char_in_line(self.buffer@, line as int, column as int),
    {
        match self.buffer.get_line(line) {
            Some(l) => {
                let chars = crate::text::chars_vec(l.as_str());
                if column < chars.len() {
                    Some(chars[column])
                } else {
                    None
                }
            },
            None => None,
        }
    }

    /// The character at the primary cursor, if any.
    pub fn char_at_cursor(&self) -> (r: Option<char>)
        ensures
            r == char_in_line(self.buffer@, self.primary().head.line as int, self.primary().head.column as int),
    {
        let cursor = self.primary_selection().head;
        self.char_in_line_at(cursor.line, cursor.column)
    }

    /// The character before the primary cursor, if any.
    pub fn char_before_cursor(&self) -> (r: Option<char>)
        ensures
            r == if self.primary().head.column == 0 {
                None
            } else {
                char_in_line(self.buffer@, self.primary().head.line as int, self.primary().head.column - 1)
            },
    {
        let cursor = self.primary_selection().head;
        if cursor.column == 0 {
            return None;
        }
        self.char_in_line_at(cursor.line, cursor.column - 1)
    }

    /// Moves every cursor that is not at its line's end one column right,
    /// collapsing it there.
    pub fn move_all_cursors_right(&mut self)
        ensures
            final(self).selections@ == cursors_right(old(self).buffer@, old(self).selections@),
            final(self).buffer == old(self).buffer,
            final(self).history == old(self).history,
            final(self).primary_selection_index == old(self).primary_selection_index,
            final(self).content_dirty == old(self).content_dirty,
            final(self).auto_close_brackets == old(self).auto_close_brackets,
    {
        let n = self.selections.len();
        let ghost sels0 = self.selections@;
        let mut i: usize = 0;
        while i < n
            invariant
                n == self.selections@.len(),
                sels0 == old(self).selections@,
                sels0.len() == n,
                self.buffer == old(self).buffer,
                self.history == old(self).history,
                self.primary_selection_index == old(self).primary_selection_index,
                self.content_dirty == old(self).content_dirty,
                self.auto_close_brackets == old(self).auto_close_brackets,
                i <= n,
                forall|k: int| i <= k < n ==> #[trigger] self.selections@[k] == sels0[k],
                forall|k: int| 0 <= k < i ==> #[trigger] self.selections@[k] == cursors_right(self.buffer@, sels0)[k],
            decreases n - i,
        {
            let sel = self.selections[i];
            let line_len = InputHandler::line_length(&self.buffer, sel.head.line);
            if sel.head.column < line_len {
                let nh = Cursor::new(sel.head.line, sel.head.column + 1);
                self.selections.set(i, Selection::collapsed(nh));
            }
            proof {
                assert(self.selections@[i as int] == cursors_right(self.buffer@, sels0)[i as int]);
            }
            i = i + 1;
        }
        proof {
            assert(self.selections@ =~= cursors_right(self.buffer@, sels0));
        }
    }

    /// Handles a typed character when auto-closing is on: a closer right
    /// before the same closer steps over it (every cursor moves right); an
    /// opener is inserted with its closer at every cursor, the cursor
    /// between them, except a quote typed right after a letter or digit.
    /// Returns whether the character was handled here.
    pub fn handle_auto_close(&mut self, ch: char) -> (r: bool)
        requires
            auto_close_pairs(*old(self), ch) ==> insert_ok(
                old(self).buffer@,
                old(self).selections@,
                old(self).primary_selection_index,
                1,
            ),
        ensures
            r == (auto_close_skips(*old(self), ch) || auto_close_pairs(*old(self), ch)),
            !r ==> *final(self) == *old(self),
            auto_close_skips(*old(self), ch) ==> final(self).selections@ == cursors_right(
                old(self).buffer@,
                old(self).selections@,
            ) && final(self).buffer == old(self).buffer && final(self).history == old(self).history,
            auto_close_pairs(*old(self), ch) ==> ({
                let text = seq![ch, closing_bracket(ch)->0];
                let res = insert_result(old(self).buffer@, old(self).selections@, old(self).primary_selection_index, text, 1);
                &&& final(self).buffer@ == res.0
                &&& final(self).selections@ == res.1
                &&& final(self).primary_selection_index == res.2
                &&& recorded_grew2(
                    old(self).history.recorded(),
                    final(self).history.recorded(),
                    delete_pairs(old(self).buffer@, old(self).selections@),
                    insert_result_pairs(old(self).buffer@, old(self).selections@, old(self).primary_selection_index, text),
                )
                &&& final(self).content_dirty
            }),
    {
        if !self.auto_close_brackets {
            return false;
        }
        if Self::is_closing_bracket(ch) {
            match self.char_at_cursor() {
                Some(next_char) => {
                    if next_char == ch {
                        self.move_all_cursors_right();
                        return true;
                    }
                },
                None => {},
            }
        }
        match Self::get_closing_bracket(ch) {
            Some(closer) => {
                if ch == '"' || ch == '\'' || ch == '`' {
                    match self.char_before_cursor() {
                        Some(prev_char) => {
                            if char_is_alphanumeric(prev_char) {
                                return false;
                            }
                        },
                        None => {},
                    }
                }
                let mut pair = char_text(ch);
                pair.append(char_text(closer).as_str());
                assert(pair@ =~= seq![ch, closer]);
                self.insert_text_with_cursor_position(pair.as_str(), 1);
                true
            },
            None => false,
        }
    }

    /// Takes the request to drop cached line layouts, leaving none.
    pub fn take_cache_invalidation(&mut self) -> (r: bool)
        ensures
            r == old(self).cache_invalidated,
            !final(self).cache_invalidated,
            final(self).buffer == old(self).buffer,
    {
        let r = self.cache_invalidated;
        self.cache_invalidated = false;
        r
    }

    /// Replaces the search matches, given as (start byte, end byte) pairs,
    /// and the current match; each match's line is read from the buffer.
    pub fn set_search_matches(&mut self, matches: Vec<(usize, usize)>, current: usize, scroll: bool)
        ensures
            final(self).search_matches@.len() == matches@.len(),
            forall|i: int|
                0 <= i < matches@.len() ==> #[trigger] final(self).search_matches@[i] == (SearchMatch {
                    start_byte: matches@[i].0,
                    end_byte: matches@[i].1,
                    line: line_of_byte(old(self).buffer@, matches@[i].0),
                }),
            final(self).current_search_match == current,
            final(self).scroll_to_search_match == scroll,
            final(self).buffer == old(self).buffer,
            final(self).selections == old(self).selections,
            final(self).bracket_matching_enabled == old(self).bracket_matching_enabled,
            final(self).bracket_colors == old(self).bracket_colors,
    {
        let mut result: Vec<SearchMatch> = Vec::new();
        let mut i: usize = 0;
        while i < matches.len()
            invariant
                i <= matches@.len(),
                result@.len() == i,
                forall|k: int|
                    0 <= k < i ==> #[trigger] result@[k] == (SearchMatch {
                        start_byte: matches@[k].0,
                        end_byte: matches@[k].1,
                        line: line_of_byte(self.buffer@, matches@[k].0),
                    }),
            decreases matches@.len() - i,
        {
            let (start, end) = matches[i];
            let line = self.byte_pos_to_line(start);
            result.push(SearchMatch { start_byte: start, end_byte: end, line });
            i = i + 1;
        }
        self.search_matches = result;
        self.current_search_match = current;
        self.scroll_to_search_match = scroll;
    }

    /// Drops all search matches.
    pub fn clear_search_matches(&mut self)
        ensures
            final(self).search_matches@.len() == 0,
            final(self).current_search_match == 0,
            final(self).scroll_to_search_match == old(self).scroll_to_search_match,
            final(self).buffer == old(self).buffer,
            final(self).selections == old(self).selections,
            final(self).bracket_matching_enabled == old(self).bracket_matching_enabled,
            final(self).bracket_colors == old(self).bracket_colors,
    {
        self.search_matches = Vec::new();
        self.current_search_match = 0;
    }

    /// Sets custom (background, border) colours for bracket matching, or
    /// `None` for the theme's.
    pub fn set_bracket_colors(&mut self, colors: Option<(egui::Color32, egui::Color32)>)
        ensures
            final(self).bracket_colors == colors,
            final(self).bracket_matching_enabled == old(self).bracket_matching_enabled,
            final(self).buffer == old(self).buffer,
    {
        self.bracket_colors = colors;
    }

    /// The custom bracket-matching colours, if any.
    pub fn bracket_colors(&self) -> (r: Option<(egui::Color32, egui::Color32)>)
        ensures
            r == self.bracket_colors,
    {
        self.bracket_colors
    }

    /// Sets the search matches (or clears them when `None`), bracket
    /// matching and the bracket colours at once.
    pub fn configure_highlights(
        &mut self,
        search_matches: Option<Vec<(usize, usize)>>,
        current_match: usize,
        scroll_to_match: bool,
        bracket_matching: bool,
        bracket_colors: Option<(egui::Color32, egui::Color32)>,
    )
        ensures
            match search_matches {
                Some(ms) => {
                    &&& final(self).search_matches@.len() == ms@.len()
                    &&& forall|i: int|
                        0 <= i < ms@.len() ==> #[trigger] final(self).search_matches@[i] == (SearchMatch {
                            start_byte: ms@[i].0,
                            end_byte: ms@[i].1,
                            line: line_of_byte(old(self).buffer@, ms@[i].0),
                        })
                    &&& final(self).current_search_match == current_match
                    &&& final(self).scroll_to_search_match == scroll_to_match
                },
                None => {
                    &&& final(self).search_matches@.len() == 0
                    &&& final(self).current_search_match == 0
                    &&& final(self).scroll_to_search_match == old(self).scroll_to_search_match
                },
            },
            final(self).bracket_matching_enabled == bracket_matching,
            final(self).bracket_colors == bracket_colors,
            final(self).buffer == old(self).buffer,
            final(self).selections == old(self).selections,
    {
        match search_matches {
            Some(matches) => self.set_search_matches(matches, current_match, scroll_to_match),
            None => self.clear_search_matches(),
        }
        self.bracket_matching_enabled = bracket_matching;
        self.bracket_colors = bracket_colors;
    }

    /// The character position of a cursor: the characters of the lines
    /// before it (all of the text when the line is past the end) plus its
    /// column, which is not clamped to the line.
    pub fn cursor_to_char_pos(&self, cursor: Cursor) -> (p: usize)
        requires
            self.buffer@.len() + cursor.column <= usize::MAX,
        ensures
            p == (if cursor.line < line_count_of(self.buffer@) {
                line_start(self.buffer@, cursor.line as nat)
            } else {
                self.buffer@.len() as int
            }) + cursor.column,
    {
        let start = self.line_to_char_pos(cursor.line);
        proof {
            if cursor.line < line_count_of(self.buffer@) {
                crate::buffer::lemma_line_start_bounds(self.buffer@, cursor.line as nat);
            }
        }
        start + cursor.column
    }

    /// The search matches to highlight in the lines `start_line..end_line`:
    /// of the first `MAX_DISPLAYED_MATCHES` matches, those touching these
    /// lines, each as (start char, end char, is current).
    pub fn search_highlight_ranges(&self, start_line: usize, end_line: usize) -> (r: Vec<(usize, usize, bool)>)
        ensures
            r@ == search_highlights(
                self.buffer@,
                self.search_matches@,
                self.current_search_match as int,
                start_line as int,
                end_line as int,
                if self.search_matches@.len() < MAX_DISPLAYED_MATCHES {
                    self.search_matches@.len() as int
                } else {
                    MAX_DISPLAYED_MATCHES as int
                },
            ),
    {
        let n = if self.search_matches.len() < MAX_DISPLAYED_MATCHES {
            self.search_matches.len()
        } else {
            MAX_DISPLAYED_MATCHES
        };
        let mut r: Vec<(usize, usize, bool)> = Vec::new();
        let mut idx: usize = 0;
        while idx < n
            invariant
                n <= self.search_matches@.len(),
                idx <= n,
                r@ == search_highlights(
                    self.buffer@,
                    self.search_matches@,
                    self.current_search_match as int,
                    start_line as int,
                    end_line as int,
                    idx as int,
                ),
            decreases n - idx,
        {
            let m = self.search_matches[idx];
            let last = if m.end_byte == 0 { 0 } else { m.end_byte - 1 };
            let match_end_line = self.byte_pos_to_line(last);
            if !(match_end_line < start_line || m.line >= end_line) {
                let char_start = match self.buffer.try_byte_to_char(m.start_byte) {
                    Some(c) => c,
                    None => 0,
                };
                let char_end = match self.buffer.try_byte_to_char(m.end_byte) {
                    Some(c) => c,
                    None => char_start,
                };
                r.push((char_start, char_end, idx == self.current_search_match));
            }
            idx = idx + 1;
        }
        r
    }

    /// Sets the font family; a different font drops the cached layouts.
    pub fn set_font_family(&mut self, font: EditorFont)
        ensures
            same_font(old(self).font_family, font) ==> final(self).font_family == old(self).font_family
                && final(self).cache_invalidated == old(self).cache_invalidated,
            !same_font(old(self).font_family, font) ==> final(self).font_family == font
                && final(self).cache_invalidated,
            final(self).buffer == old(self).buffer,
            final(self).selections == old(self).selections,
    {
        if !fonts_equal(&self.font_family, &font) {
            self.font_family = font;
            self.cache_invalidated = true;
        }
    }

    /// The font family text is laid out with.
    pub fn font_family(&self) -> (f: &EditorFont)
        ensures
            *f == self.font_family,
    {
        &self.font_family
    }

    /// The line of a character position; past the end, the last line.
    pub fn char_pos_to_line(&self, char_pos: usize) -> (l: usize)
        ensures
            char_pos <= self.buffer@.len() ==> l == breaks_before(self.buffer@, char_pos as int),
            char_pos > self.buffer@.len() ==> l == last_line(self.buffer@),
    {
        match self.buffer.try_char_to_line(char_pos) {
            Some(l) => l,
            None => self.buffer.line_count() - 1,
        }
    }

    /// The first character position of a line; past the last line, the
    /// length of the text.
    pub fn line_to_char_pos(&self, line: usize) -> (p: usize)
        ensures
            line < line_count_of(self.buffer@) ==> p == line_start(self.buffer@, line as nat),
            line >= line_count_of(self.buffer@) ==> p == self.buffer@.len(),
    {
        match self.buffer.try_line_to_char(line) {
            Some(p) => p,
            None => self.buffer.len(),
        }
    }
}

impl Default for FerriteEditor {
    /// An empty editor.
    fn default() -> (e: Self)
        ensures
            fresh_editor(e, Seq::<char>::empty(), false),
    {
        Self::new()
    }
}

} // verus!
