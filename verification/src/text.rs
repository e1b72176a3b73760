//! Character-level facts about text: line breaks as the rope recognizes them,
//! trailing line-break trimming, Unicode whitespace and UTF-8 widths.

use vstd::prelude::*;
use vstd::utf8::*;

verus! {

broadcast use vstd::string::group_string_axioms;

/// The characters that end a line: LF, VT, FF, CR, NEL, LINE SEPARATOR and
/// PARAGRAPH SEPARATOR (a CR followed by LF is one line break).
pub open spec fn is_line_break_char(c: char) -> bool {
    c == '\n' || c == '\u{0B}' || c == '\u{0C}' || c == '\r' || c == '\u{85}'
        || c == '\u{2028}' || c == '\u{2029}'
}

/// A line break ends right before position `k` (so a new line starts at `k`).
/// A CR that is followed by LF does not end a line: the pair ends after the LF.
pub open spec fn ends_line_break(s: Seq<char>, k: int) -> bool {
    &&& 1 <= k <= s.len()
    &&& is_line_break_char(s[k - 1])
    &&& !(s[k - 1] == '\r' && k < s.len() && s[k] == '\n')
}

/// The number of line breaks that end at or before position `k`; this is the
/// index of the line that holds the character at position `k`.
pub open spec fn breaks_before(s: Seq<char>, k: int) -> nat
    decreases k,
{
    if k <= 0 {
        0
    } else {
        breaks_before(s, k - 1) + if ends_line_break(s, k) { 1nat } else { 0nat }
    }
}

/// The number of lines of a text: one more than its number of line breaks
/// (an empty text has one empty line, a trailing break adds an empty line).
pub open spec fn line_count_of(s: Seq<char>) -> nat {
    breaks_before(s, s.len() as int) + 1
}

/// The first position after `p` at which a line starts, or the end of the text.
pub open spec fn next_line_start(s: Seq<char>, p: int) -> int
    decreases s.len() - p,
{
    if p >= s.len() {
        s.len() as int
    } else if ends_line_break(s, p + 1) {
        p + 1
    } else {
        next_line_start(s, p + 1)
    }
}

/// The position at which line `i` starts (the end of the text once `i` runs
/// past the last line).
pub open spec fn line_start(s: Seq<char>, i: nat) -> int
    decreases i,
{
    if i == 0 {
        0
    } else {
        next_line_start(s, line_start(s, (i - 1) as nat))
    }
}

/// The text of line `i`, including the line break that ends it.
pub open spec fn line_text(s: Seq<char>, i: nat) -> Seq<char> {
    s.subrange(line_start(s, i), line_start(s, i + 1))
}

/// Length of a line once all trailing CR and LF characters are removed.
pub open spec fn trimmed_len(s: Seq<char>) -> nat
    decreases s.len(),
{
    if s.len() > 0 && (s.last() == '\r' || s.last() == '\n') {
        trimmed_len(s.drop_last())
    } else {
        s.len()
    }
}

/// Unicode `White_Space` characters.
pub open spec fn is_white_space(c: char) -> bool {
    ||| c == '\t' || c == '\n' || c == '\u{0B}' || c == '\u{0C}' || c == '\r' || c == ' '
    ||| c == '\u{85}' || c == '\u{A0}' || c == '\u{1680}'
    ||| ('\u{2000}' <= c && c <= '\u{200A}')
    ||| c == '\u{2028}' || c == '\u{2029}' || c == '\u{202F}' || c == '\u{205F}'
    ||| c == '\u{3000}'
}

/// Number of bytes of the UTF-8 encoding of `c`.
pub open spec fn utf8_width(c: char) -> nat {
    encode_scalar(c as u32).len()
}

/// Byte offset of character position `k` in the UTF-8 encoding of `s`.
pub open spec fn byte_offset(s: Seq<char>, k: int) -> nat {
    encode_utf8(s.take(k)).len()
}

/// The index of the character that holds byte `b` of the UTF-8 encoding of
/// `s` (the number of characters when `b` is the end of the encoding).
pub open spec fn char_at_byte(s: Seq<char>, b: int) -> nat
    decreases s.len(),
{
    if s.len() == 0 {
        0
    } else if b < utf8_width(s[0]) {
        0
    } else {
        1 + char_at_byte(s.drop_first(), b - utf8_width(s[0]))
    }
}

/// Whether `c` is Unicode white space (as `char::is_whitespace`).
pub fn is_whitespace(c: char) -> (r: bool)
    ensures
        r == is_white_space(c),
{
    c == '\t' || c == '\n' || c == '\u{0B}' || c == '\u{0C}' || c == '\r' || c == ' '
        || c == '\u{85}' || c == '\u{A0}' || c == '\u{1680}'
        || ('\u{2000}' <= c && c <= '\u{200A}')
        || c == '\u{2028}' || c == '\u{2029}' || c == '\u{202F}' || c == '\u{205F}'
        || c == '\u{3000}'
}

/// Encoding a concatenation encodes each part in turn.
pub proof fn lemma_encode_utf8_concat(a: Seq<char>, b: Seq<char>)
    ensures
        encode_utf8(a + b) == encode_utf8(a) + encode_utf8(b),
    decreases a.len(),
{
    if a.len() == 0 {
        assert(a + b =~= b);
        assert(encode_utf8(a) + encode_utf8(b) =~= encode_utf8(b));
    } else {
        assert((a + b).drop_first() =~= a.drop_first() + b);
        assert((a + b)[0] == a[0]);
        lemma_encode_utf8_concat(a.drop_first(), b);
        assert(encode_utf8(a + b) =~= encode_utf8(a) + encode_utf8(b));
    }
}

/// A string holding one character (`char::to_string`).
#[verifier::external_body]
pub(crate) fn char_text(c: char) -> (s: String)
    ensures
        s@ == seq![c],
{
    c.to_string()
}

/// The characters of a string, in order.
pub fn chars_vec(s: &str) -> (v: Vec<char>)
    ensures
        v@ == s@,
{
    let mut v: Vec<char> = Vec::new();
    for c in it: s.chars()
        invariant
            v@ == it.seq().take(it.index() as int),
    {
        v.push(c);
    }
    v
}

/// Whether two strings hold the same characters.
pub fn same_text(a: &str, b: &str) -> (r: bool)
    ensures
        r == (a@ == b@),
{
    let va = chars_vec(a);
    let vb = chars_vec(b);
    if va.len() != vb.len() {
        return false;
    }
    let mut i: usize = 0;
    while i < va.len()
        invariant
            va@ == a@,
            vb@ == b@,
            va@.len() == vb@.len(),
            i <= va@.len(),
            forall|j: int| 0 <= j < i ==> va@[j] == vb@[j],
        decreases va@.len() - i,
    {
        if va[i] != vb[i] {
            return false;
        }
        i = i + 1;
    }
    assert(va@ =~= vb@);
    true
}

} // verus!
