//! Rope-backed text buffer.
//!
//! `TextBuffer` keeps its text in a `ropey::Rope`. The rope is opaque to the
//! verifier; what it holds is named `rope_chars`, and each rope method the
//! buffer uses is reached through a small trusted wrapper whose contract is
//! stated over that name.

use vstd::prelude::*;
use vstd::utf8::*;
use ropey::Rope;
use crate::text::{
    breaks_before, byte_offset, char_at_byte, ends_line_break, line_count_of, line_start, line_text,
    next_line_start,
};

verus! {

#[verifier::external_type_specification]
#[verifier::external_body]
pub struct ExRope(Rope);

/// The characters a rope holds, in order.
pub uninterp spec fn rope_chars(r: Rope) -> Seq<char>;

/// `Rope::new`: an empty rope.
#[verifier::external_body]
fn rope_new() -> (r: Rope)
    ensures
        rope_chars(r) == Seq::<char>::empty(),
{
    Rope::new()
}

/// `Rope::from_str`: a rope holding exactly the characters of `s`.
#[verifier::external_body]
fn rope_from_str(s: &str) -> (r: Rope)
    ensures
        rope_chars(r) == s@,
{
    Rope::from_str(s)
}

/// `Rope::insert`: inserts `text` at character index `idx` (ropey panics when
/// `idx` is past the end, which `requires` rules out).
#[verifier::external_body]
fn rope_insert(r: &mut Rope, idx: usize, text: &str)
    requires
        idx <= rope_chars(*old(r)).len(),
    ensures
        rope_chars(*final(r)) == rope_chars(*old(r)).take(idx as int) + text@ + rope_chars(
            *old(r),
        ).skip(idx as int),
{
    r.insert(idx, text)
}

/// `Rope::remove`: removes the characters in `start..end` (ropey panics on a
/// reversed or out-of-bounds range, which `requires` rules out).
#[verifier::external_body]
fn rope_remove(r: &mut Rope, start: usize, end: usize)
    requires
        start <= end <= rope_chars(*old(r)).len(),
    ensures
        rope_chars(*final(r)) == rope_chars(*old(r)).take(start as int) + rope_chars(
            *old(r),
        ).skip(end as int),
{
    r.remove(start..end)
}

/// `Rope::len_chars`: the number of characters.
#[verifier::external_body]
fn rope_len_chars(r: &Rope) -> (n: usize)
    ensures
        n == rope_chars(*r).len(),
{
    r.len_chars()
}

/// `Rope::len_bytes`: the length of the UTF-8 encoding.
#[verifier::external_body]
fn rope_len_bytes(r: &Rope) -> (n: usize)
    ensures
        n == encode_utf8(rope_chars(*r)).len(),
{
    r.len_bytes()
}

/// `Rope::len_lines`: one more than the number of line breaks.
#[verifier::external_body]
fn rope_len_lines(r: &Rope) -> (n: usize)
    ensures
        n == line_count_of(rope_chars(*r)),
{
    r.len_lines()
}

/// `Rope::try_line_to_char`: the start of a line; one past the last line
/// gives the end of the text, and any later index is an error.
#[verifier::external_body]
fn rope_try_line_to_char(r: &Rope, line: usize) -> (res: Option<usize>)
    ensures
        res is Some <==> line <= line_count_of(rope_chars(*r)),
        res is Some ==> res->0 == (if line == line_count_of(rope_chars(*r)) {
            rope_chars(*r).len() as int
        } else {
            line_start(rope_chars(*r), line as nat)
        }),
{
    r.try_line_to_char(line).ok()
}

/// `Rope::try_char_to_line`: the line holding a character (the last line
/// for the end position); positions past the end are an error.
#[verifier::external_body]
fn rope_try_char_to_line(r: &Rope, idx: usize) -> (res: Option<usize>)
    ensures
        res is Some <==> idx <= rope_chars(*r).len(),
        res is Some ==> res->0 == breaks_before(rope_chars(*r), idx as int),
{
    r.try_char_to_line(idx).ok()
}

/// `Rope::try_byte_to_char`: the character holding a byte; bytes past the
/// end of the encoding are an error.
#[verifier::external_body]
fn rope_try_byte_to_char(r: &Rope, byte_idx: usize) -> (res: Option<usize>)
    ensures
        res is Some <==> byte_idx <= encode_utf8(rope_chars(*r)).len(),
        res is Some ==> res->0 == char_at_byte(rope_chars(*r), byte_idx as int),
{
    r.try_byte_to_char(byte_idx).ok()
}

/// `Rope::try_byte_to_line`: the line of the character holding a byte.
#[verifier::external_body]
fn rope_try_byte_to_line(r: &Rope, byte_idx: usize) -> (res: Option<usize>)
    ensures
        res is Some <==> byte_idx <= encode_utf8(rope_chars(*r)).len(),
        res is Some ==> res->0 == breaks_before(
            rope_chars(*r),
            char_at_byte(rope_chars(*r), byte_idx as int) as int,
        ),
{
    r.try_byte_to_line(byte_idx).ok()
}

/// `Rope::try_char_to_byte`: the byte offset of a character position.
#[verifier::external_body]
fn rope_try_char_to_byte(r: &Rope, idx: usize) -> (res: Option<usize>)
    ensures
        res is Some <==> idx <= rope_chars(*r).len(),
        res is Some ==> res->0 == byte_offset(rope_chars(*r), idx as int),
{
    r.try_char_to_byte(idx).ok()
}

/// `Rope::slice(..).to_string()`: the characters in `start..end`.
#[verifier::external_body]
fn rope_slice_string(r: &Rope, start: usize, end: usize) -> (s: String)
    requires
        start <= end <= rope_chars(*r).len(),
    ensures
        s@ == rope_chars(*r).subrange(start as int, end as int),
{
    r.slice(start..end).to_string()
}

/// `Rope::get_line(..).to_string()`: the text of a line, with its line break.
#[verifier::external_body]
fn rope_get_line(r: &Rope, line: usize) -> (res: Option<String>)
    ensures
        res is Some <==> line < line_count_of(rope_chars(*r)),
        res is Some ==> res->0@ == line_text(rope_chars(*r), line as nat),
{
    r.get_line(line).map(|l| l.to_string())
}

/// `Rope::to_string`: the whole text.
#[verifier::external_body]
fn rope_to_string(r: &Rope) -> (s: String)
    ensures
        s@ == rope_chars(*r),
{
    r.to_string()
}

/// `Rope::clone`: a rope holding the same characters.
#[verifier::external_body]
fn rope_clone(r: &Rope) -> (c: Rope)
    ensures
        rope_chars(c) == rope_chars(*r),
{
    r.clone()
}

/// A text buffer backed by a rope.
#[derive(Debug)]
pub struct TextBuffer {
    rope: Rope,
}

impl View for TextBuffer {
    type V = Seq<char>;

    /// The characters of the buffer.
    closed spec fn view(&self) -> Seq<char> {
        rope_chars(self.rope)
    }
}

impl Clone for TextBuffer {
    /// A buffer holding the same text.
    fn clone(&self) -> (b: Self)
        ensures
            b@ == self@,
    {
        TextBuffer { rope: rope_clone(&self.rope) }
    }
}

impl<'a> From<&'a str> for TextBuffer {
    /// A buffer holding `s`.
    fn from(s: &'a str) -> (b: Self)
        ensures
            b@ == s@,
    {
        Self::from_string(s)
    }
}

impl<'a> vstd::std_specs::convert::FromSpecImpl<&'a str> for TextBuffer {
    open spec fn obeys_from_spec() -> bool {
        false
    }

    open spec fn from_spec(v: &'a str) -> Self {
        choose|b: TextBuffer| b@ == v@
    }
}

impl From<String> for TextBuffer {
    /// A buffer holding `s`.
    fn from(s: String) -> (b: Self)
        ensures
            b@ == s@,
    {
        Self::from_string(s.as_str())
    }
}

impl vstd::std_specs::convert::FromSpecImpl<String> for TextBuffer {
    open spec fn obeys_from_spec() -> bool {
        false
    }

    open spec fn from_spec(v: String) -> Self {
        choose|b: TextBuffer| b@ == v@
    }
}

impl Default for TextBuffer {
    /// An empty buffer.
    fn default() -> (b: Self)
        ensures
            b@ == Seq::<char>::empty(),
    {
        Self::new()
    }
}

impl TextBuffer {
    /// Creates an empty buffer.
    pub fn new() -> (b: Self)
        ensures
            b@ == Seq::<char>::empty(),
    {
        TextBuffer { rope: rope_new() }
    }

    /// Creates a buffer holding `content`.
    pub fn from_string(content: &str) -> (b: Self)
        ensures
            b@ == content@,
    {
        TextBuffer { rope: rope_from_str(content) }
    }

    /// Inserts `text` at character position `pos` (which must not be past the end).
    pub fn insert(&mut self, pos: usize, text: &str)
        requires
            pos <= old(self)@.len(),
        ensures
            final(self)@ == old(self)@.take(pos as int) + text@ + old(self)@.skip(pos as int),
    {
        rope_insert(&mut self.rope, pos, text)
    }

    /// Removes `len` characters starting at `pos`; removing nothing is always allowed.
    pub fn remove(&mut self, pos: usize, len: usize)
        requires
            len > 0 ==> pos + len <= old(self)@.len(),
        ensures
            len == 0 ==> final(self)@ == old(self)@,
            len > 0 ==> final(self)@ == old(self)@.take(pos as int) + old(self)@.skip(
                pos + len,
            ),
    {
        if len > 0 {
            let total = self.len();
            assert(pos + len <= total);
            rope_remove(&mut self.rope, pos, pos + len);
        }
    }

    /// The characters between two positions, each clamped to the end of the
    /// text; empty when the clamped start is not before the clamped end.
    pub fn slice(&self, start_char: usize, end_char: usize) -> (s: String)
        ensures
            ({
                let n = self@.len() as int;
                let a = if start_char < n { start_char as int } else { n };
                let b = if end_char < n { end_char as int } else { n };
                s@ == if a >= b { Seq::<char>::empty() } else { self@.subrange(a, b) }
            }),
    {
        let n = self.len();
        let start = if start_char < n { start_char } else { n };
        let end = if end_char < n { end_char } else { n };
        if start >= end {
            return String::new();
        }
        rope_slice_string(&self.rope, start, end)
    }

    /// The text of a line, including its line break (the line must exist).
    pub fn line(&self, line_idx: usize) -> (s: String)
        requires
            line_idx < line_count_of(self@),
        ensures
            s@ == line_text(self@, line_idx as nat),
    {
        match rope_get_line(&self.rope, line_idx) {
            Some(s) => s,
            None => String::new(),
        }
    }

    /// The number of lines: one more than the number of line breaks.
    pub fn line_count(&self) -> (n: usize)
        ensures
            n == line_count_of(self@),
    {
        rope_len_lines(&self.rope)
    }

    /// The start of a line (one past the last line gives the end of the text).
    pub fn line_to_char(&self, line_idx: usize) -> (p: usize)
        requires
            line_idx <= line_count_of(self@),
        ensures
            p == (if line_idx == line_count_of(self@) {
                self@.len() as int
            } else {
                line_start(self@, line_idx as nat)
            }),
    {
        match rope_try_line_to_char(&self.rope, line_idx) {
            Some(p) => p,
            None => 0,
        }
    }

    /// The line holding a character position (which must not be past the end).
    pub fn char_to_line(&self, char_idx: usize) -> (l: usize)
        requires
            char_idx <= self@.len(),
        ensures
            l == breaks_before(self@, char_idx as int),
    {
        match rope_try_char_to_line(&self.rope, char_idx) {
            Some(l) => l,
            None => 0,
        }
    }

    /// The number of characters.
    pub fn len(&self) -> (n: usize)
        ensures
            n == self@.len(),
    {
        rope_len_chars(&self.rope)
    }

    /// Whether the buffer holds no characters.
    pub fn is_empty(&self) -> (r: bool)
        ensures
            r == (self@.len() == 0),
    {
        rope_len_chars(&self.rope) == 0
    }

    /// The underlying rope.
    pub fn rope(&self) -> (r: &Rope)
        ensures
            rope_chars(*r) == self@,
    {
        &self.rope
    }

    /// Mutable access to the underlying rope; the buffer holds whatever the
    /// rope holds once the borrow ends.
    pub fn rope_mut(&mut self) -> (r: &mut Rope)
        ensures
            rope_chars(*r) == old(self)@,
            final(self)@ == rope_chars(*final(r)),
    {
        &mut self.rope
    }

    /// The number of bytes of the UTF-8 encoding.
    pub fn len_bytes(&self) -> (n: usize)
        ensures
            n == encode_utf8(self@).len(),
    {
        rope_len_bytes(&self.rope)
    }

    /// The text of a line, or `None` when the line does not exist.
    pub fn get_line(&self, line_idx: usize) -> (res: Option<String>)
        ensures
            res is Some <==> line_idx < line_count_of(self@),
            res is Some ==> res->0@ == line_text(self@, line_idx as nat),
    {
        rope_get_line(&self.rope, line_idx)
    }

    /// The start of a line, or `None` when `line_idx` is more than one past the last line.
    pub fn try_line_to_char(&self, line_idx: usize) -> (res: Option<usize>)
        ensures
            res is Some <==> line_idx <= line_count_of(self@),
            res is Some ==> res->0 == (if line_idx == line_count_of(self@) {
                self@.len() as int
            } else {
                line_start(self@, line_idx as nat)
            }),
    {
        rope_try_line_to_char(&self.rope, line_idx)
    }

    /// The line of a character position, or `None` past the end.
    pub fn try_char_to_line(&self, char_idx: usize) -> (res: Option<usize>)
        ensures
            res is Some <==> char_idx <= self@.len(),
            res is Some ==> res->0 == breaks_before(self@, char_idx as int),
    {
        rope_try_char_to_line(&self.rope, char_idx)
    }

    /// The line of the character holding a byte (the byte must not be past the end).
    pub fn byte_to_line(&self, byte_idx: usize) -> (l: usize)
        requires
            byte_idx <= encode_utf8(self@).len(),
        ensures
            l == breaks_before(self@, char_at_byte(self@, byte_idx as int) as int),
    {
        match rope_try_byte_to_line(&self.rope, byte_idx) {
            Some(l) => l,
            None => 0,
        }
    }

    /// The line of the character holding a byte, or `None` past the end.
    pub fn try_byte_to_line(&self, byte_idx: usize) -> (res: Option<usize>)
        ensures
            res is Some <==> byte_idx <= encode_utf8(self@).len(),
            res is Some ==> res->0 == breaks_before(
                self@,
                char_at_byte(self@, byte_idx as int) as int,
            ),
    {
        rope_try_byte_to_line(&self.rope, byte_idx)
    }

    /// The character holding a byte (the byte must not be past the end).
    pub fn byte_to_char(&self, byte_idx: usize) -> (c: usize)
        requires
            byte_idx <= encode_utf8(self@).len(),
        ensures
            c == char_at_byte(self@, byte_idx as int),
    {
        match rope_try_byte_to_char(&self.rope, byte_idx) {
            Some(c) => c,
            None => 0,
        }
    }

    /// The character holding a byte, or `None` past the end.
    pub fn try_byte_to_char(&self, byte_idx: usize) -> (res: Option<usize>)
        ensures
            res is Some <==> byte_idx <= encode_utf8(self@).len(),
            res is Some ==> res->0 == char_at_byte(self@, byte_idx as int),
    {
        rope_try_byte_to_char(&self.rope, byte_idx)
    }

    /// The byte offset of a character position (which must not be past the end).
    pub fn char_to_byte(&self, char_idx: usize) -> (b: usize)
        requires
            char_idx <= self@.len(),
        ensures
            b == byte_offset(self@, char_idx as int),
    {
        match rope_try_char_to_byte(&self.rope, char_idx) {
            Some(b) => b,
            None => 0,
        }
    }

    /// The byte offset of a character position, or `None` past the end.
    pub fn try_char_to_byte(&self, char_idx: usize) -> (res: Option<usize>)
        ensures
            res is Some <==> char_idx <= self@.len(),
            res is Some ==> res->0 == byte_offset(self@, char_idx as int),
    {
        rope_try_char_to_byte(&self.rope, char_idx)
    }

    /// The whole text.
    pub fn to_string(&self) -> (s: String)
        ensures
            s@ == self@,
    {
        rope_to_string(&self.rope)
    }

    /// The text of lines `start_line..end_line` (both clamped to the number of
    /// lines) with the position where it starts; an empty range gives an empty
    /// text and the start of `start_line` (or 0 when there is none).
    pub fn slice_lines_to_string(&self, start_line: usize, end_line: usize) -> (res: (
        String,
        usize,
    ))
        ensures
            ({
                let total = line_count_of(self@) as int;
                let a = if start_line < total { start_line as int } else { total };
                let b = if end_line < total { end_line as int } else { total };
                let start_char = if a == total { self@.len() as int } else { line_start(self@, a as nat) };
                let end_char = if b >= total { self@.len() as int } else { line_start(self@, b as nat) };
                &&& res.1 == start_char
                &&& a >= b ==> res.0@ == Seq::<char>::empty()
                &&& a < b ==> res.0@ == self@.subrange(start_char, end_char)
            }),
    {
        let total_lines = self.line_count();
        let start_line = if start_line < total_lines { start_line } else { total_lines };
        let end_line = if end_line < total_lines { end_line } else { total_lines };
        if start_line >= end_line {
            let start_char = match self.try_line_to_char(start_line) {
                Some(c) => c,
                None => 0,
            };
            return (String::new(), start_char);
        }
        let start_char = self.line_to_char(start_line);
        let end_char = if end_line >= total_lines {
            self.len()
        } else {
            self.line_to_char(end_line)
        };
        proof {
            lemma_line_start_bounds(self@, start_line as nat);
            lemma_line_start_bounds(self@, end_line as nat);
            lemma_line_start_mono(self@, start_line as nat, end_line as nat);
        }
        let text = rope_slice_string(&self.rope, start_char, end_char);
        (text, start_char)
    }
}

/// Inserting `s` at `pos` and then reading the characters from `pos` on
/// gives `s` back, and removing them again restores the text.
pub proof fn lemma_insert_then_remove(t: Seq<char>, pos: int, s: Seq<char>)
    requires
        0 <= pos <= t.len(),
    ensures
        ({
            let u = t.take(pos) + s + t.skip(pos);
            &&& u.len() == t.len() + s.len()
            &&& u.subrange(pos, pos + s.len()) == s
            &&& u.take(pos) + u.skip(pos + s.len()) == t
        }),
{
    let u = t.take(pos) + s + t.skip(pos);
    assert(u.subrange(pos, pos + s.len()) =~= s);
    assert(u.take(pos) + u.skip(pos + s.len()) =~= t);
}

/// Every line start lies within the text.
pub proof fn lemma_line_start_bounds(s: Seq<char>, i: nat)
    ensures
        0 <= line_start(s, i) <= s.len(),
    decreases i,
{
    if i > 0 {
        lemma_line_start_bounds(s, (i - 1) as nat);
        lemma_next_line_start_bounds(s, line_start(s, (i - 1) as nat));
    }
}

/// The next line start after `p` lies after `p` (when `p` is inside the text)
/// and within the text.
pub proof fn lemma_next_line_start_bounds(s: Seq<char>, p: int)
    requires
        0 <= p,
    ensures
        next_line_start(s, p) <= s.len(),
        p < s.len() ==> p < next_line_start(s, p),
        p <= next_line_start(s, p) || p > s.len(),
    decreases s.len() - p,
{
    if p < s.len() && !ends_line_break(s, p + 1) {
        lemma_next_line_start_bounds(s, p + 1);
    }
}

/// Line starts never decrease with the line index.
pub proof fn lemma_line_start_mono(s: Seq<char>, i: nat, j: nat)
    requires
        i <= j,
    ensures
        line_start(s, i) <= line_start(s, j),
    decreases j - i,
{
    if i < j {
        lemma_line_start_mono(s, i, (j - 1) as nat);
        lemma_line_start_bounds(s, (j - 1) as nat);
        lemma_next_line_start_bounds(s, line_start(s, (j - 1) as nat));
    }
}

} // verus!
