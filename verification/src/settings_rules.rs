//! Rules that keep stored settings usable: the ranges that whole-number
//! settings are clamped into, and the lists of recently opened paths
//! (newest first, no path twice, at most a given number).
//!
//! Paths are handled as text, so the rules are the same on every platform.

use vstd::prelude::*;
use crate::settings::MaxLineWidth;
use crate::text::{same_text, char_text};

verus! {

broadcast use vstd::seq_lib::group_seq_properties;

/// Minimum allowed tab size.
pub const MIN_TAB_SIZE: u8 = 1;
/// Maximum allowed tab size.
pub const MAX_TAB_SIZE: u8 = 8;
/// Minimum auto-save delay in milliseconds (5 seconds).
pub const MIN_AUTO_SAVE_DELAY_MS: u32 = 5000;
/// Maximum auto-save delay in milliseconds (5 minutes).
pub const MAX_AUTO_SAVE_DELAY_MS: u32 = 300000;
/// The recent-files limit used when the stored one is zero.
pub const DEFAULT_RECENT_FILES_LIMIT: usize = 10;
/// The largest recent-files limit.
pub const MAX_RECENT_FILES_LIMIT: usize = 100;
/// Minimum pipeline debounce in milliseconds.
pub const MIN_PIPELINE_DEBOUNCE_MS: u32 = 100;
/// Maximum pipeline debounce in milliseconds.
pub const MAX_PIPELINE_DEBOUNCE_MS: u32 = 5000;
/// Minimum pipeline output size in bytes (1 KB).
pub const MIN_PIPELINE_OUTPUT_BYTES: u32 = 1024;
/// Maximum pipeline output size in bytes (10 MB).
pub const MAX_PIPELINE_OUTPUT_BYTES: u32 = 10485760;
/// Minimum pipeline runtime in milliseconds (1 second).
pub const MIN_PIPELINE_RUNTIME_MS: u32 = 1000;
/// Maximum pipeline runtime in milliseconds (5 minutes).
pub const MAX_PIPELINE_RUNTIME_MS: u32 = 300000;
/// Maximum number of recent pipeline commands.
pub const MAX_PIPELINE_RECENT_COMMANDS: usize = 20;
/// Minimum custom line width in pixels.
pub const MIN_CUSTOM_LINE_WIDTH: u32 = 400;
/// Maximum custom line width in pixels.
pub const MAX_CUSTOM_LINE_WIDTH: u32 = 2000;

/// `v` moved into `[lo, hi]`.
pub open spec fn clamp_spec(v: int, lo: int, hi: int) -> int {
    if v < lo {
        lo
    } else if v > hi {
        hi
    } else {
        v
    }
}

/// Clamps a byte-sized setting into `[min, max]`.
pub fn clamp_u8(value: u8, min: u8, max: u8) -> (r: u8)
    requires
        min <= max,
    ensures
        r == clamp_spec(value as int, min as int, max as int),
{
    if value < min {
        min
    } else if value > max {
        max
    } else {
        value
    }
}

/// Clamps a 32-bit setting into `[min, max]`.
pub fn clamp_u32(value: u32, min: u32, max: u32) -> (r: u32)
    requires
        min <= max,
    ensures
        r == clamp_spec(value as int, min as int, max as int),
{
    if value < min {
        min
    } else if value > max {
        max
    } else {
        value
    }
}

/// A stored tab size moved into `[MIN_TAB_SIZE, MAX_TAB_SIZE]`.
pub fn sanitize_tab_size(tab_size: u8) -> (r: u8)
    ensures
        r == clamp_spec(tab_size as int, MIN_TAB_SIZE as int, MAX_TAB_SIZE as int),
        MIN_TAB_SIZE <= r <= MAX_TAB_SIZE,
{
    clamp_u8(tab_size, MIN_TAB_SIZE, MAX_TAB_SIZE)
}

/// A stored auto-save delay moved into five seconds to five minutes.
pub fn sanitize_auto_save_delay(delay_ms: u32) -> (r: u32)
    ensures
        r == clamp_spec(delay_ms as int, MIN_AUTO_SAVE_DELAY_MS as int, MAX_AUTO_SAVE_DELAY_MS as int),
{
    clamp_u32(delay_ms, MIN_AUTO_SAVE_DELAY_MS, MAX_AUTO_SAVE_DELAY_MS)
}

/// The recent-files limit: zero becomes the default, more than the
/// largest limit becomes the largest.
pub fn sanitize_recent_files_limit(limit: usize) -> (r: usize)
    ensures
        r == (if limit == 0 {
            DEFAULT_RECENT_FILES_LIMIT
        } else if limit > MAX_RECENT_FILES_LIMIT {
            MAX_RECENT_FILES_LIMIT
        } else {
            limit
        }),
        1 <= r <= MAX_RECENT_FILES_LIMIT,
{
    if limit == 0 {
        DEFAULT_RECENT_FILES_LIMIT
    } else if limit > MAX_RECENT_FILES_LIMIT {
        MAX_RECENT_FILES_LIMIT
    } else {
        limit
    }
}

/// The active tab index, moved onto the last tab when it points past the
/// open tabs (and kept as it is when there are none).
pub fn sanitize_active_tab_index(index: usize, tab_count: usize) -> (r: usize)
    ensures
        r == (if tab_count > 0 && index >= tab_count {
            (tab_count - 1) as usize
        } else {
            index
        }),
        tab_count > 0 ==> r < tab_count,
{
    if tab_count > 0 && index >= tab_count {
        tab_count - 1
    } else {
        index
    }
}

/// The pipeline limits `(debounce, output bytes, runtime)`, each clamped
/// into its range.
pub fn sanitize_pipeline_limits(debounce_ms: u32, max_output_bytes: u32, max_runtime_ms: u32) -> (r: (
    u32,
    u32,
    u32,
))
    ensures
        r.0 == clamp_spec(debounce_ms as int, MIN_PIPELINE_DEBOUNCE_MS as int, MAX_PIPELINE_DEBOUNCE_MS as int),
        r.1 == clamp_spec(
            max_output_bytes as int,
            MIN_PIPELINE_OUTPUT_BYTES as int,
            MAX_PIPELINE_OUTPUT_BYTES as int,
        ),
        r.2 == clamp_spec(max_runtime_ms as int, MIN_PIPELINE_RUNTIME_MS as int, MAX_PIPELINE_RUNTIME_MS as int),
{
    (
        clamp_u32(debounce_ms, MIN_PIPELINE_DEBOUNCE_MS, MAX_PIPELINE_DEBOUNCE_MS),
        clamp_u32(max_output_bytes, MIN_PIPELINE_OUTPUT_BYTES, MAX_PIPELINE_OUTPUT_BYTES),
        clamp_u32(max_runtime_ms, MIN_PIPELINE_RUNTIME_MS, MAX_PIPELINE_RUNTIME_MS),
    )
}

/// A custom line width clamped into its pixel range; the presets are kept.
pub fn sanitize_max_line_width(width: MaxLineWidth) -> (r: MaxLineWidth)
    ensures
        match width {
            MaxLineWidth::Custom(px) => r == MaxLineWidth::Custom(
                clamp_spec(px as int, MIN_CUSTOM_LINE_WIDTH as int, MAX_CUSTOM_LINE_WIDTH as int) as u32,
            ),
            _ => r == width,
        },
{
    match width {
        MaxLineWidth::Custom(px) => MaxLineWidth::Custom(clamp_u32(px, MIN_CUSTOM_LINE_WIDTH, MAX_CUSTOM_LINE_WIDTH)),
        _ => width,
    }
}

// ─────────────────────────────────────────────────────────────────────────
// Recent paths
// ─────────────────────────────────────────────────────────────────────────

/// The first `n` items, or all of them when there are fewer.
pub open spec fn take_at_most<A>(s: Seq<A>, n: int) -> Seq<A> {
    if s.len() <= n {
        s
    } else {
        s.take(n)
    }
}

/// Whether an entry's text differs from `t`.
pub open spec fn other_text(t: Seq<char>) -> spec_fn(String) -> bool {
    |p: String| p@ != t
}

/// The list after `item` is opened: `item` first, then the other entries
/// in their order without any equal to it, cut to `max` entries.
pub open spec fn recent_after_add(list: Seq<String>, item: String, max: int) -> Seq<String> {
    take_at_most(seq![item] + list.filter(other_text(item@)), max)
}

/// Opens `item`: it moves to the front (any entry with the same text is
/// dropped) and the list is cut to `max` entries.
pub fn add_recent(list: &mut Vec<String>, item: String, max: usize)
    ensures
        final(list)@ == recent_after_add(old(list)@, item, max as int),
{
    let ghost s = old(list)@;
    let ghost pred = other_text(item@);
    let mut kept: Vec<String> = Vec::new();
    let mut i: usize = 0;
    proof {
        assert(s.take(0) =~= Seq::<String>::empty());
    }
    while i < list.len()
        invariant
            i <= s.len(),
            list@ == s,
            pred == other_text(item@),
            kept@ == s.take(i as int).filter(pred),
        decreases s.len() - i,
    {
        proof {
            assert(s.take(i as int).push(s[i as int]) =~= s.take(i + 1));
            s.take(i as int).lemma_filter_push(s[i as int], pred);
        }
        if !same_text(list[i].as_str(), item.as_str()) {
            kept.push(list[i].clone());
        }
        i = i + 1;
    }
    proof {
        assert(s.take(s.len() as int) =~= s);
    }
    let mut result: Vec<String> = Vec::new();
    result.push(item);
    result.append(&mut kept);
    if result.len() > max {
        result.truncate(max);
    }
    *list = result;
}

/// No two entries have the same text.
pub open spec fn distinct_texts(s: Seq<String>) -> bool {
    forall|i: int, j: int| 0 <= i < j < s.len() ==> #[trigger] s[i]@ != #[trigger] s[j]@
}

/// Keeping the entries whose text differs from `t` keeps the texts
/// distinct, and leaves no entry with the text `t`.
proof fn lemma_filter_distinct(s: Seq<String>, t: Seq<char>)
    ensures
        distinct_texts(s) ==> distinct_texts(s.filter(other_text(t))),
        forall|i: int| 0 <= i < s.filter(other_text(t)).len() ==> #[trigger] s.filter(other_text(t))[i]@ != t,
    decreases s.len(),
{
    let pred = other_text(t);
    let f = s.filter(pred);
    if s.len() > 0 {
        let d = s.drop_last();
        lemma_filter_distinct(d, t);
        assert(s =~= d.push(s.last()));
        d.lemma_filter_push(s.last(), pred);
        let fd = d.filter(pred);
        if distinct_texts(s) {
            assert(distinct_texts(d)) by {
                assert forall|i: int, j: int| 0 <= i < j < d.len() implies #[trigger] d[i]@ != #[trigger] d[j]@ by {
                    assert(d[i] == s[i] && d[j] == s[j]);
                }
            }
            if pred(s.last()) {
                assert forall|i: int, j: int| 0 <= i < j < f.len() implies #[trigger] f[i]@ != #[trigger] f[j]@ by {
                    if j == f.len() - 1 {
                        assert(fd.contains(f[i]));
                        d.lemma_filter_contains_rev(pred, f[i]);
                        let k = choose|k: int| 0 <= k < d.len() && d[k] == f[i];
                        assert(s[k] == d[k]);
                        assert(f[j] == s[s.len() - 1]);
                    } else {
                        assert(f[i] == fd[i] && f[j] == fd[j]);
                    }
                }
            }
        }
    }
}

/// Opening a path puts it first, keeps the list within `max` entries, and
/// never lists one text twice when the list did not.
pub proof fn lemma_recent_after_add(list: Seq<String>, item: String, max: int)
    requires
        max >= 1,
    ensures
        recent_after_add(list, item, max).len() >= 1,
        recent_after_add(list, item, max)[0] == item,
        recent_after_add(list, item, max).len() <= max,
        distinct_texts(list) ==> distinct_texts(recent_after_add(list, item, max)),
{
    let f = list.filter(other_text(item@));
    lemma_filter_distinct(list, item@);
    let l = seq![item] + f;
    let r = recent_after_add(list, item, max);
    assert(l[0] == item);
    if distinct_texts(list) {
        assert(distinct_texts(l)) by {
            assert forall|i: int, j: int| 0 <= i < j < l.len() implies #[trigger] l[i]@ != #[trigger] l[j]@ by {
                assert(l[j] == f[j - 1]);
                if i > 0 {
                    assert(l[i] == f[i - 1]);
                }
            }
        }
        assert forall|i: int, j: int| 0 <= i < j < r.len() implies #[trigger] r[i]@ != #[trigger] r[j]@ by {
            assert(r[i] == l[i] && r[j] == l[j]);
        }
    }
}

/// Keeping first occurrences leaves no text twice.
pub proof fn lemma_first_occurrences_distinct(s: Seq<String>)
    ensures
        distinct_texts(first_occurrences(s)),
        forall|i: int| 0 <= i < first_occurrences(s).len() ==> #[trigger] occurs_in(s, s.len() as int, first_occurrences(s)[i]@),
    decreases s.len(),
{
    if s.len() > 0 {
        let d = s.drop_last();
        lemma_first_occurrences_distinct(d);
        let fd = first_occurrences(d);
        let f = first_occurrences(s);
        assert forall|i: int| 0 <= i < fd.len() implies #[trigger] occurs_in(s, s.len() as int, fd[i]@) by {
            assert(occurs_in(d, d.len() as int, fd[i]@));
            let j = choose|j: int| 0 <= j < d.len() && #[trigger] d[j]@ == fd[i]@;
            assert(s[j] == d[j]);
        }
        if !seen_before(s, s.len() - 1) {
            assert forall|i: int, j: int| 0 <= i < j < f.len() implies #[trigger] f[i]@ != #[trigger] f[j]@ by {
                if j == f.len() - 1 {
                    assert(f[i] == fd[i]);
                    assert(occurs_in(d, d.len() as int, fd[i]@));
                    let k = choose|k: int| 0 <= k < d.len() && #[trigger] d[k]@ == fd[i]@;
                    assert(s[k] == d[k]);
                    assert(f[j] == s[s.len() - 1]);
                } else {
                    assert(f[i] == fd[i] && f[j] == fd[j]);
                }
            }
            assert(occurs_in(s, s.len() as int, s[s.len() - 1]@));
            assert forall|i: int| 0 <= i < f.len() implies #[trigger] occurs_in(s, s.len() as int, f[i]@) by {
                if i < fd.len() {
                    assert(f[i] == fd[i]);
                }
            }
        }
    }
}

/// Whether some entry before index `k` has the same text as entry `k`.
pub open spec fn seen_before(s: Seq<String>, k: int) -> bool {
    exists|j: int| 0 <= j < k && #[trigger] s[j]@ == s[k]@
}

/// The entries in their order, each text kept only where it first occurs.
pub open spec fn first_occurrences(s: Seq<String>) -> Seq<String>
    decreases s.len(),
{
    if s.len() == 0 {
        s
    } else if seen_before(s, s.len() - 1) {
        first_occurrences(s.drop_last())
    } else {
        first_occurrences(s.drop_last()).push(s.last())
    }
}

/// Whether one of the first `n` entries has the text `k`.
pub open spec fn occurs_in(s: Seq<String>, n: int, k: Seq<char>) -> bool {
    exists|j: int| 0 <= j < n && #[trigger] s[j]@ == k
}

/// Drops every entry whose text occurred earlier in the list.
pub fn dedup_paths(list: Vec<String>) -> (r: Vec<String>)
    ensures
        r@ == first_occurrences(list@),
{
    let ghost s = list@;
    let mut kept: Vec<String> = Vec::new();
    let mut i: usize = 0;
    proof {
        assert(s.take(0) =~= Seq::<String>::empty());
    }
    while i < list.len()
        invariant
            i <= s.len(),
            list@ == s,
            kept@ == first_occurrences(s.take(i as int)),
            forall|k: Seq<char>| #[trigger] occurs_in(kept@, kept@.len() as int, k) == occurs_in(s, i as int, k),
        decreases s.len() - i,
    {
        let ghost t = s.take(i + 1);
        let ghost k0 = kept@;
        proof {
            assert(t.drop_last() =~= s.take(i as int));
            assert(t.last() == s[i as int]);
        }
        let mut found = false;
        let mut m: usize = 0;
        while m < kept.len()
            invariant
                m <= kept@.len(),
                i < s.len(),
                list@ == s,
                found == occurs_in(kept@, m as int, s[i as int]@),
            decreases kept@.len() - m,
        {
            if same_text(kept[m].as_str(), list[i].as_str()) {
                found = true;
            }
            proof {
                if !found {
                    assert forall|q: int| 0 <= q < m + 1 implies #[trigger] kept@[q]@ != s[i as int]@ by {
                        if q < m {
                            assert(!occurs_in(kept@, m as int, s[i as int]@));
                        }
                    }
                } else {
                    if kept@[m as int]@ == s[i as int]@ {
                        assert(kept@[m as int]@ == s[i as int]@);
                    } else {
                        let q = choose|q: int| 0 <= q < m && #[trigger] kept@[q]@ == s[i as int]@;
                        assert(kept@[q]@ == s[i as int]@);
                    }
                }
            }
            m = m + 1;
        }
        proof {
            assert(occurs_in(s, i as int, s[i as int]@) == seen_before(t, t.len() - 1)) by {
                if occurs_in(s, i as int, s[i as int]@) {
                    let j = choose|j: int| 0 <= j < i && #[trigger] s[j]@ == s[i as int]@;
                    assert(t[j]@ == t[t.len() - 1]@);
                }
                if seen_before(t, t.len() - 1) {
                    let j = choose|j: int| 0 <= j < t.len() - 1 && #[trigger] t[j]@ == t[t.len() - 1]@;
                    assert(s[j]@ == s[i as int]@);
                }
            }
        }
        if !found {
            kept.push(list[i].clone());
        }
        proof {
            assert forall|k: Seq<char>| #[trigger] occurs_in(kept@, kept@.len() as int, k) == occurs_in(
                s,
                i + 1,
                k,
            ) by {
                assert(occurs_in(k0, k0.len() as int, k) == occurs_in(s, i as int, k));
                if occurs_in(kept@, kept@.len() as int, k) {
                    let m2 = choose|m2: int| 0 <= m2 < kept@.len() && #[trigger] kept@[m2]@ == k;
                    if m2 < k0.len() {
                        assert(k0[m2]@ == k);
                        assert(occurs_in(k0, k0.len() as int, k));
                        let j = choose|j: int| 0 <= j < i && #[trigger] s[j]@ == k;
                        assert(s[j]@ == k);
                    } else {
                        assert(s[i as int]@ == k);
                    }
                }
                if occurs_in(s, i + 1, k) {
                    let j = choose|j: int| 0 <= j < i + 1 && #[trigger] s[j]@ == k;
                    if j < i {
                        assert(occurs_in(s, i as int, k));
                        let m2 = choose|m2: int| 0 <= m2 < k0.len() && #[trigger] k0[m2]@ == k;
                        assert(kept@[m2]@ == k);
                    } else if found {
                        let m2 = choose|m2: int| 0 <= m2 < k0.len() && #[trigger] k0[m2]@ == s[i as int]@;
                        assert(kept@[m2]@ == k);
                    } else {
                        assert(kept@[kept@.len() - 1]@ == k);
                    }
                }
            }
        }
        i = i + 1;
    }
    proof {
        assert(s.take(s.len() as int) =~= s);
    }
    kept
}

/// The Windows verbatim prefix `\\?\`.
pub open spec fn verbatim_prefix() -> Seq<char> {
    seq!['\\', '\\', '?', '\\']
}

/// A path without a leading Windows verbatim prefix `\\?\`.
pub open spec fn without_verbatim_prefix(p: Seq<char>) -> Seq<char> {
    if p.len() >= 4 && p.take(4) == verbatim_prefix() {
        p.skip(4)
    } else {
        p
    }
}

/// Removes a leading Windows verbatim prefix (`\\?\`) from a path.
pub fn strip_verbatim_prefix(path: &str) -> (r: String)
    ensures
        r@ == without_verbatim_prefix(path@),
{
    let cs = crate::text::chars_vec(path);
    let has_prefix = cs.len() >= 4 && cs[0] == '\\' && cs[1] == '\\' && cs[2] == '?' && cs[3] == '\\';
    let start: usize = if has_prefix { 4 } else { 0 };
    proof {
        if cs@.len() >= 4 {
            assert(has_prefix <==> cs@.take(4) =~= verbatim_prefix());
        }
    }
    let mut out = String::new();
    let mut i: usize = start;
    proof {
        assert(out@ =~= cs@.subrange(start as int, start as int));
    }
    while i < cs.len()
        invariant
            start <= i <= cs@.len(),
            out@ == cs@.subrange(start as int, i as int),
        decreases cs@.len() - i,
    {
        out.append(char_text(cs[i]).as_str());
        i = i + 1;
        proof {
            assert(out@ =~= cs@.subrange(start as int, i as int));
        }
    }
    proof {
        assert(cs@.subrange(start as int, cs@.len() as int) =~= cs@.skip(start as int));
        if !has_prefix {
            assert(cs@.skip(0) =~= cs@);
        }
    }
    out
}

} // verus!
