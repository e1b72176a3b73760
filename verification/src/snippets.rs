//! Snippets: short trigger words that expand to longer text.
//!
//! A trigger typed before the cursor (a word delimited by white space) is
//! replaced by its expansion. Four triggers are built in and expand to the
//! current local time (`;date`, `;time`, `;datetime`, `;now`); the others are
//! the user's own, kept as trigger/expansion pairs. The user's snippets are a
//! map: a trigger has at most one expansion.

use vstd::prelude::*;
use vstd::string::*;
use vstd::utf8::*;
use chrono::Local;
use crate::text::{chars_vec, same_text, is_whitespace, is_white_space, byte_offset,
    lemma_encode_utf8_concat};

verus! {

broadcast use vstd::string::group_string_axioms, vstd::utf8::group_utf8_lib;

// ─────────────────────────────────────────────────────────────────────────
// The local clock
// ─────────────────────────────────────────────────────────────────────────

/// The strftime patterns of the built-in snippets.
pub open spec fn is_stamp_pattern(p: Seq<char>) -> bool {
    p == "%Y-%m-%d"@ || p == "%H:%M"@ || p == "%Y-%m-%d %H:%M"@
}

/// An ASCII decimal digit.
pub open spec fn is_digit(c: char) -> bool {
    '0' <= c && c <= '9'
}

/// The value of a decimal digit.
pub open spec fn digit_value(c: char) -> int {
    c as int - '0' as int
}

/// Two digits at `i` and `i + 1` whose decimal value lies in `lo..=hi`.
pub open spec fn two_digits(s: Seq<char>, i: int, lo: int, hi: int) -> bool {
    &&& 0 <= i && i + 1 < s.len()
    &&& is_digit(s[i]) && is_digit(s[i + 1])
    &&& lo <= 10 * digit_value(s[i]) + digit_value(s[i + 1]) <= hi
}

/// A year as `%Y` writes it: four digits, or (before year 0 and after
/// 9999) a sign followed by at least four digits.
pub open spec fn year_shape(y: Seq<char>) -> bool {
    ||| y.len() == 4 && forall|i: int| 0 <= i < 4 ==> #[trigger] is_digit(y[i])
    ||| y.len() >= 5 && (y[0] == '+' || y[0] == '-') && forall|i: int| 1 <= i < y.len() ==> #[trigger] is_digit(y[i])
}

/// `%Y-%m-%d`: a year, a month 01–12 and a day 01–31.
pub open spec fn date_shape(s: Seq<char>) -> bool {
    let n = s.len() as int;
    &&& n >= 10
    &&& year_shape(s.take(n - 6))
    &&& s[n - 6] == '-'
    &&& two_digits(s, n - 5, 1, 12)
    &&& s[n - 3] == '-'
    &&& two_digits(s, n - 2, 1, 31)
}

/// `%H:%M`: an hour 00–23 and a minute 00–59.
pub open spec fn clock_shape(s: Seq<char>) -> bool {
    &&& s.len() == 5
    &&& two_digits(s, 0, 0, 23)
    &&& s[2] == ':'
    &&& two_digits(s, 3, 0, 59)
}

/// `%Y-%m-%d %H:%M`: a date, a space and a clock time.
pub open spec fn date_clock_shape(s: Seq<char>) -> bool {
    let n = s.len() as int;
    &&& n >= 16
    &&& date_shape(s.take(n - 6))
    &&& s[n - 6] == ' '
    &&& clock_shape(s.skip(n - 5))
}

/// What a built-in strftime pattern writes.
pub open spec fn stamp_shape(pattern: Seq<char>, s: Seq<char>) -> bool {
    if pattern == "%Y-%m-%d"@ {
        date_shape(s)
    } else if pattern == "%H:%M"@ {
        clock_shape(s)
    } else if pattern == "%Y-%m-%d %H:%M"@ {
        date_clock_shape(s)
    } else {
        false
    }
}

/// An RFC 3339 timestamp as chrono writes it, with `k` characters of
/// fraction (none, or a dot and 3, 6 or 9 digits): date, `T`, hour 00–23,
/// minute 00–59, second 00–60, fraction, then the offset as a sign, hours
/// 00–24, a colon and minutes 00–59.
pub open spec fn rfc3339_with_fraction(s: Seq<char>, k: int) -> bool {
    let n = s.len() as int;
    let t = n - 6 - k - 9;
    &&& t >= 10
    &&& date_shape(s.take(t))
    &&& s[t] == 'T'
    &&& two_digits(s, t + 1, 0, 23)
    &&& s[t + 3] == ':'
    &&& two_digits(s, t + 4, 0, 59)
    &&& s[t + 6] == ':'
    &&& two_digits(s, t + 7, 0, 60)
    &&& k > 0 ==> s[t + 9] == '.' && forall|j: int| t + 10 <= j < t + 9 + k ==> #[trigger] is_digit(s[j])
    &&& (s[n - 6] == '+' || s[n - 6] == '-')
    &&& two_digits(s, n - 5, 0, 24)
    &&& s[n - 3] == ':'
    &&& two_digits(s, n - 2, 0, 59)
}

/// An RFC 3339 timestamp as chrono's `to_rfc3339` writes it.
pub open spec fn rfc3339_shape(s: Seq<char>) -> bool {
    rfc3339_with_fraction(s, 0) || rfc3339_with_fraction(s, 4) || rfc3339_with_fraction(s, 7)
        || rfc3339_with_fraction(s, 10)
}

/// chrono's `Local::now()` written with `DateTime::format(pattern)`. Which
/// time it writes rests on the clock and the local time zone; what is
/// stated is the shape the pattern gives (chrono's strftime: `%Y` four
/// digits or a sign and more, `%m` 01–12, `%d` 01–31, `%H` 00–23, `%M`
/// 00–59).
#[verifier::external_body]
fn local_now_formatted(pattern: &str) -> (s: String)
    requires
        is_stamp_pattern(pattern@),
    ensures
        stamp_shape(pattern@, s@),
{
    Local::now().format(pattern).to_string()
}

/// chrono's `Local::now()` written with `DateTime::to_rfc3339`. Which time
/// it writes rests on the clock and the local time zone; what is stated is
/// the RFC 3339 shape chrono writes (`rfc3339_shape`).
#[verifier::external_body]
fn local_now_rfc3339() -> (s: String)
    ensures
        rfc3339_shape(s@),
{
    Local::now().to_rfc3339()
}

/// The shape of the expansion of a built-in trigger: `;date` a date,
/// `;time` a clock time, `;datetime` both, `;now` an RFC 3339 timestamp.
pub open spec fn builtin_stamp(trigger: Seq<char>, s: Seq<char>) -> bool {
    if trigger == ";date"@ {
        date_shape(s)
    } else if trigger == ";time"@ {
        clock_shape(s)
    } else if trigger == ";datetime"@ {
        date_clock_shape(s)
    } else if trigger == ";now"@ {
        rfc3339_shape(s)
    } else {
        false
    }
}

// ─────────────────────────────────────────────────────────────────────────
// The model
// ─────────────────────────────────────────────────────────────────────────

/// The built-in triggers.
pub open spec fn is_builtin_trigger(t: Seq<char>) -> bool {
    t == ";date"@ || t == ";time"@ || t == ";datetime"@ || t == ";now"@
}

/// The description of a built-in trigger.
pub open spec fn builtin_description_text(t: Seq<char>) -> Option<Seq<char>> {
    if t == ";date"@ {
        Some("Current date (YYYY-MM-DD)"@)
    } else if t == ";time"@ {
        Some("Current time (HH:MM)"@)
    } else if t == ";datetime"@ {
        Some("Current date and time (YYYY-MM-DD HH:MM)"@)
    } else if t == ";now"@ {
        Some("ISO 8601 timestamp"@)
    } else {
        None
    }
}

/// The text of an optional string.
pub open spec fn opt_text(o: Option<String>) -> Option<Seq<char>> {
    match o {
        Some(s) => Some(s@),
        None => None,
    }
}

/// The map that a list of trigger/expansion pairs stands for; a later pair
/// overrides an earlier one with the same trigger.
pub open spec fn pairs_map(s: Seq<(String, String)>) -> Map<Seq<char>, Seq<char>>
    decreases s.len(),
{
    if s.len() == 0 {
        Map::empty()
    } else {
        pairs_map(s.drop_last()).insert(s.last().0@, s.last().1@)
    }
}

/// No trigger occurs twice.
pub open spec fn triggers_unique(s: Seq<(String, String)>) -> bool {
    forall|i: int, j: int| 0 <= i < j < s.len() ==> s[i].0@ != s[j].0@
}

/// What a lookup of `t` in the pairs gives.
pub open spec fn lookup(s: Seq<(String, String)>, t: Seq<char>) -> Option<Seq<char>> {
    if pairs_map(s).contains_key(t) {
        Some(pairs_map(s)[t])
    } else {
        None
    }
}

/// A trigger is in the map exactly when some pair has it.
pub proof fn lemma_pairs_map_dom(s: Seq<(String, String)>, k: Seq<char>)
    ensures
        pairs_map(s).contains_key(k) <==> exists|i: int| 0 <= i < s.len() && s[i].0@ == k,
    decreases s.len(),
{
    if s.len() > 0 {
        let d = s.drop_last();
        lemma_pairs_map_dom(d, k);
        if pairs_map(s).contains_key(k) {
            if s.last().0@ != k {
                let i = choose|i: int| 0 <= i < d.len() && d[i].0@ == k;
                assert(s[i] == d[i]);
            } else {
                assert(s[s.len() - 1].0@ == k);
            }
        }
        if exists|i: int| 0 <= i < s.len() && s[i].0@ == k {
            let i = choose|i: int| 0 <= i < s.len() && s[i].0@ == k;
            if i < s.len() - 1 {
                assert(d[i] == s[i]);
            }
        }
    }
}

/// With no trigger twice, each pair's expansion is what the map gives for its
/// trigger.
pub proof fn lemma_pairs_map_value(s: Seq<(String, String)>, i: int)
    requires
        triggers_unique(s),
        0 <= i < s.len(),
    ensures
        pairs_map(s).contains_key(s[i].0@),
        pairs_map(s)[s[i].0@] == s[i].1@,
    decreases s.len(),
{
    if i < s.len() - 1 {
        let d = s.drop_last();
        assert(d[i] == s[i]);
        assert(s[i].0@ != s[s.len() - 1].0@);
        lemma_pairs_map_value(d, i);
    }
}

/// With no trigger twice, the map has one entry per pair.
pub proof fn lemma_pairs_map_len(s: Seq<(String, String)>)
    requires
        triggers_unique(s),
    ensures
        pairs_map(s).dom().finite(),
        pairs_map(s).dom().len() == s.len(),
    decreases s.len(),
{
    if s.len() > 0 {
        let d = s.drop_last();
        lemma_pairs_map_len(d);
        lemma_pairs_map_dom(d, s.last().0@);
        if pairs_map(d).contains_key(s.last().0@) {
            let i = choose|i: int| 0 <= i < d.len() && d[i].0@ == s.last().0@;
            assert(s[i] == d[i]);
        }
    }
}

// ─────────────────────────────────────────────────────────────────────────
// Snippet configuration
// ─────────────────────────────────────────────────────────────────────────

/// Whether snippets expand, and the user's trigger/expansion pairs.
#[derive(Debug)]
pub struct SnippetConfig {
    /// Whether snippets expansion is enabled.
    pub enabled: bool,
    /// The user's trigger/expansion pairs, in the order they were added.
    pub snippets: Vec<(String, String)>,
}

impl SnippetConfig {
    /// The user's pairs, in the order they were added.
    pub open spec fn entries(&self) -> Seq<(String, String)> {
        self.snippets@
    }

    /// The user's snippets: trigger to expansion.
    pub open spec fn snippet_map(&self) -> Map<Seq<char>, Seq<char>> {
        pairs_map(self.entries())
    }

    /// No trigger occurs twice among the user's pairs.
    pub open spec fn wf(&self) -> bool {
        triggers_unique(self.entries())
    }

    /// Enabled, with no user snippets.
    pub fn new() -> (c: Self)
        ensures
            c.enabled,
            c.entries().len() == 0,
            c.snippet_map() == Map::<Seq<char>, Seq<char>>::empty(),
            c.wf(),
    {
        SnippetConfig { enabled: true, snippets: Vec::new() }
    }

    /// The user's pairs, in the order they were added.
    pub fn snippets(&self) -> (r: &Vec<(String, String)>)
        ensures
            r@ == self.entries(),
    {
        &self.snippets
    }

    /// The expansion of a built-in trigger, read from the local clock:
    /// `;date` as YYYY-MM-DD, `;time` as HH:MM, `;datetime` as
    /// YYYY-MM-DD HH:MM and `;now` as an RFC 3339 timestamp. `None` for any
    /// other word.
    pub fn builtin_expansion(trigger: &str) -> (r: Option<String>)
        ensures
            r is Some <==> is_builtin_trigger(trigger@),
            r is Some ==> builtin_stamp(trigger@, r->0@),
    {
        proof {
            reveal_strlit("%Y-%m-%d");
            reveal_strlit("%H:%M");
            reveal_strlit("%Y-%m-%d %H:%M");
            assert("%Y-%m-%d"@.len() == 8);
            assert("%H:%M"@.len() == 5);
            assert("%Y-%m-%d %H:%M"@.len() == 14);
        }
        if same_text(trigger, ";date") {
            let s = local_now_formatted("%Y-%m-%d");
            assert(date_shape(s@));
            Some(s)
        } else if same_text(trigger, ";time") {
            let s = local_now_formatted("%H:%M");
            assert(clock_shape(s@));
            Some(s)
        } else if same_text(trigger, ";datetime") {
            let s = local_now_formatted("%Y-%m-%d %H:%M");
            assert(date_clock_shape(s@));
            Some(s)
        } else if same_text(trigger, ";now") {
            Some(local_now_rfc3339())
        } else {
            None
        }
    }

    /// The user's expansion of `trigger`, if any.
    pub fn custom_expansion(&self, trigger: &str) -> (r: Option<String>)
        ensures
            opt_text(r) == lookup(self.entries(), trigger@),
    {
        let ghost s = self.snippets@;
        let mut i = self.snippets.len();
        proof {
            assert(s.take(i as int) =~= s);
        }
        while i > 0
            invariant
                s == self.snippets@,
                i <= s.len(),
                lookup(s, trigger@) == lookup(s.take(i as int), trigger@),
            decreases i,
        {
            let ghost t = s.take(i as int);
            proof {
                assert(t.drop_last() =~= s.take(i - 1));
                assert(t.last() == s[i - 1]);
            }
            if same_text(self.snippets[i - 1].0.as_str(), trigger) {
                let e = self.snippets[i - 1].1.clone();
                return Some(e);
            }
            i = i - 1;
        }
        proof {
            assert(s.take(0) =~= Seq::<(String, String)>::empty());
        }
        None
    }

    /// What `get_expansion` answers once the built-in expansion of the
    /// trigger (`None` for a word that is not built in) is known: nothing when
    /// snippets are disabled, else the built-in expansion, else the user's.
    pub fn expansion_given_builtin(&self, trigger: &str, builtin: Option<String>) -> (r: Option<String>)
        ensures
            opt_text(r) == if !self.enabled {
                None
            } else if builtin is Some {
                opt_text(builtin)
            } else {
                lookup(self.entries(), trigger@)
            },
    {
        if !self.enabled {
            return None;
        }
        match builtin {
            Some(e) => Some(e),
            None => self.custom_expansion(trigger),
        }
    }

    /// The expansion of a trigger: `None` when snippets are disabled; a
    /// built-in trigger expands to the current time; any other word to the
    /// user's expansion, if there is one.
    pub fn get_expansion(&self, trigger: &str) -> (r: Option<String>)
        ensures
            !self.enabled ==> r is None,
            self.enabled && is_builtin_trigger(trigger@) ==> r is Some && builtin_stamp(trigger@, r->0@),
            self.enabled && !is_builtin_trigger(trigger@) ==> opt_text(r) == lookup(
                self.entries(),
                trigger@,
            ),
    {
        if !self.enabled {
            return None;
        }
        let builtin = Self::builtin_expansion(trigger);
        self.expansion_given_builtin(trigger, builtin)
    }

    /// Removes every pair with the trigger `trigger` and gives back the
    /// expansion the map held for it.
    fn take_trigger(&mut self, trigger: &str) -> (r: Option<String>)
        ensures
            final(self).enabled == old(self).enabled,
            final(self).snippet_map() == old(self).snippet_map().remove(trigger@),
            opt_text(r) == lookup(old(self).entries(), trigger@),
            forall|i: int| 0 <= i < final(self).entries().len() ==> final(self).entries()[i].0@ != trigger@,
            old(self).wf() ==> final(self).wf(),
            final(self).entries().len() <= old(self).entries().len(),
    {
        let ghost s = self.snippets@;
        let mut kept: Vec<(String, String)> = Vec::new();
        let mut removed: Option<String> = None;
        let mut i: usize = 0;
        let n = self.snippets.len();
        proof {
            assert(s.take(0) =~= Seq::<(String, String)>::empty());
            assert(pairs_map(kept@) =~= pairs_map(s.take(0)).remove(trigger@));
        }
        while i < n
            invariant
                s == self.snippets@,
                n == s.len(),
                i <= n,
                kept@.len() <= i,
                pairs_map(kept@) == pairs_map(s.take(i as int)).remove(trigger@),
                opt_text(removed) == lookup(s.take(i as int), trigger@),
                forall|j: int| 0 <= j < kept@.len() ==> kept@[j].0@ != trigger@,
                forall|j: int|
                    0 <= j < kept@.len() ==> exists|m: int| 0 <= m < i && #[trigger] kept@[j] == s[m],
                triggers_unique(s) ==> triggers_unique(kept@),
            decreases n - i,
        {
            let ghost t1 = s.take(i + 1);
            proof {
                assert(t1.drop_last() =~= s.take(i as int));
                assert(t1.last() == s[i as int]);
            }
            let p = &self.snippets[i];
            if same_text(p.0.as_str(), trigger) {
                removed = Some(p.1.clone());
                proof {
                    assert(pairs_map(kept@) =~= pairs_map(t1).remove(trigger@));
                }
            } else {
                let ghost old_kept = kept@;
                let k = p.0.clone();
                let v = p.1.clone();
                kept.push((k, v));
                proof {
                    assert(kept@.drop_last() =~= old_kept);
                    assert(pairs_map(kept@) =~= pairs_map(t1).remove(trigger@));
                    assert forall|j: int| 0 <= j < kept@.len() implies exists|m: int|
                        0 <= m < i + 1 && #[trigger] kept@[j] == s[m] by {
                        if j < old_kept.len() {
                            assert(kept@[j] == old_kept[j]);
                        } else {
                            assert(kept@[j] == s[i as int]);
                        }
                    }
                    if triggers_unique(s) {
                        assert forall|a: int, b: int| 0 <= a < b < kept@.len() implies kept@[a].0@
                            != kept@[b].0@ by {
                            if b == kept@.len() - 1 {
                                assert(kept@[a] == old_kept[a]);
                                let m = choose|m: int| 0 <= m < i && old_kept[a] == s[m];
                                assert(kept@[b] == s[i as int]);
                            } else {
                                assert(kept@[a] == old_kept[a]);
                                assert(kept@[b] == old_kept[b]);
                            }
                        }
                    }
                }
            }
            i = i + 1;
        }
        proof {
            assert(s.take(n as int) =~= s);
        }
        self.snippets = kept;
        removed
    }

    /// Adds a snippet, or replaces the expansion of its trigger.
    pub fn set_snippet(&mut self, trigger: String, expansion: String)
        ensures
            final(self).enabled == old(self).enabled,
            final(self).snippet_map() == old(self).snippet_map().insert(trigger@, expansion@),
            lookup(final(self).entries(), trigger@) == Some(expansion@),
            old(self).wf() ==> final(self).wf(),
    {
        let _ = self.take_trigger(trigger.as_str());
        let ghost before = self.snippets@;
        self.snippets.push((trigger, expansion));
        proof {
            assert(self.snippets@.drop_last() =~= before);
            assert(self.snippet_map() =~= old(self).snippet_map().insert(trigger@, expansion@));
        }
    }

    /// Removes a snippet and gives back its expansion, if it had one.
    pub fn remove_snippet(&mut self, trigger: &str) -> (r: Option<String>)
        ensures
            final(self).enabled == old(self).enabled,
            final(self).snippet_map() == old(self).snippet_map().remove(trigger@),
            opt_text(r) == lookup(old(self).entries(), trigger@),
            lookup(final(self).entries(), trigger@) is None,
            old(self).wf() ==> final(self).wf(),
    {
        self.take_trigger(trigger)
    }

    /// Whether `trigger` is one of the built-in triggers.
    pub fn is_builtin(trigger: &str) -> (r: bool)
        ensures
            r == is_builtin_trigger(trigger@),
    {
        same_text(trigger, ";date") || same_text(trigger, ";time") || same_text(trigger, ";datetime")
            || same_text(trigger, ";now")
    }

    /// The built-in triggers.
    pub fn builtin_triggers() -> (r: &'static [&'static str])
        ensures
            r@.len() == 4,
            r@[0]@ == ";date"@,
            r@[1]@ == ";time"@,
            r@[2]@ == ";datetime"@,
            r@[3]@ == ";now"@,
            forall|i: int| 0 <= i < r@.len() ==> is_builtin_trigger(#[trigger] r@[i]@),
    {
        let r: &'static [&'static str] = &[";date", ";time", ";datetime", ";now"];
        assert(r@ == seq![";date", ";time", ";datetime", ";now"]);
        r
    }

    /// The description of a built-in trigger, `None` for any other word.
    pub fn builtin_description(trigger: &str) -> (r: Option<&'static str>)
        ensures
            match r {
                Some(d) => builtin_description_text(trigger@) == Some(d@),
                None => builtin_description_text(trigger@) is None,
            },
    {
        if same_text(trigger, ";date") {
            Some("Current date (YYYY-MM-DD)")
        } else if same_text(trigger, ";time") {
            Some("Current time (HH:MM)")
        } else if same_text(trigger, ";datetime") {
            Some("Current date and time (YYYY-MM-DD HH:MM)")
        } else if same_text(trigger, ";now") {
            Some("ISO 8601 timestamp")
        } else {
            None
        }
    }
}

impl Clone for SnippetConfig {
    /// A copy with the same setting and the same pairs.
    fn clone(&self) -> (c: Self)
        ensures
            c.enabled == self.enabled,
            c.entries() == self.entries(),
    {
        let mut v: Vec<(String, String)> = Vec::new();
        let mut i: usize = 0;
        while i < self.snippets.len()
            invariant
                i <= self.snippets@.len(),
                v@ == self.snippets@.take(i as int),
            decreases self.snippets@.len() - i,
        {
            let k = self.snippets[i].0.clone();
            let e = self.snippets[i].1.clone();
            v.push((k, e));
            proof {
                assert(v@ =~= self.snippets@.take(i + 1));
            }
            i = i + 1;
        }
        proof {
            assert(v@ =~= self.snippets@);
        }
        SnippetConfig { enabled: self.enabled, snippets: v }
    }
}

impl Default for SnippetConfig {
    /// Enabled, with no user snippets.
    fn default() -> (c: Self)
        ensures
            c.enabled,
            c.entries().len() == 0,
            c.snippet_map() == Map::<Seq<char>, Seq<char>>::empty(),
            c.wf(),
    {
        Self::new()
    }
}

// ─────────────────────────────────────────────────────────────────────────
// Snippet manager
// ─────────────────────────────────────────────────────────────────────────

/// The snippet configuration together with the file it is kept in.
#[derive(Debug)]
pub struct SnippetManager {
    /// The current snippet configuration.
    pub config: SnippetConfig,
    /// The path of the snippets file.
    pub config_path: String,
}

impl SnippetManager {
    /// A manager for `config`, kept at `config_path`.
    pub fn with_config(config: SnippetConfig, config_path: String) -> (m: Self)
        ensures
            m.config == config,
            m.config_path == config_path,
    {
        SnippetManager { config, config_path }
    }

    /// The expansion of a trigger (see `SnippetConfig::get_expansion`).
    pub fn get_expansion(&self, trigger: &str) -> (r: Option<String>)
        ensures
            !self.config.enabled ==> r is None,
            self.config.enabled && is_builtin_trigger(trigger@) ==> r is Some && builtin_stamp(trigger@, r->0@),
            self.config.enabled && !is_builtin_trigger(trigger@) ==> opt_text(r) == lookup(
                self.config.entries(),
                trigger@,
            ),
    {
        self.config.get_expansion(trigger)
    }

    /// Whether snippets are enabled.
    pub fn is_enabled(&self) -> (r: bool)
        ensures
            r == self.config.enabled,
    {
        self.config.enabled
    }

    /// Enables or disables snippets.
    pub fn set_enabled(&mut self, enabled: bool)
        ensures
            final(self).config.enabled == enabled,
            final(self).config.entries() == old(self).config.entries(),
            final(self).config_path == old(self).config_path,
    {
        self.config.enabled = enabled;
    }

    /// Adds a snippet, or replaces the expansion of its trigger.
    pub fn set_snippet(&mut self, trigger: String, expansion: String)
        ensures
            final(self).config.enabled == old(self).config.enabled,
            final(self).config.snippet_map() == old(self).config.snippet_map().insert(
                trigger@,
                expansion@,
            ),
            lookup(final(self).config.entries(), trigger@) == Some(expansion@),
            old(self).config.wf() ==> final(self).config.wf(),
            final(self).config_path == old(self).config_path,
    {
        self.config.set_snippet(trigger, expansion);
    }

    /// Removes a snippet and gives back its expansion, if it had one.
    pub fn remove_snippet(&mut self, trigger: &str) -> (r: Option<String>)
        ensures
            final(self).config.enabled == old(self).config.enabled,
            final(self).config.snippet_map() == old(self).config.snippet_map().remove(trigger@),
            opt_text(r) == lookup(old(self).config.entries(), trigger@),
            lookup(final(self).config.entries(), trigger@) is None,
            old(self).config.wf() ==> final(self).config.wf(),
            final(self).config_path == old(self).config_path,
    {
        self.config.remove_snippet(trigger)
    }

    /// The user's snippets as trigger/expansion pairs; with no trigger twice,
    /// they list exactly the snippet map.
    pub fn custom_snippets(&self) -> (r: &Vec<(String, String)>)
        ensures
            r@ == self.config.entries(),
            self.config.wf() ==> forall|i: int|
                0 <= i < r@.len() ==> self.config.snippet_map().contains_key(#[trigger] r@[i].0@)
                    && self.config.snippet_map()[r@[i].0@] == r@[i].1@,
            forall|k: Seq<char>|
                self.config.snippet_map().contains_key(k) ==> exists|i: int|
                    0 <= i < r@.len() && #[trigger] r@[i].0@ == k,
    {
        proof {
            let s = self.config.entries();
            if self.config.wf() {
                assert forall|i: int| 0 <= i < s.len() implies self.config.snippet_map().contains_key(
                    #[trigger] s[i].0@,
                ) && self.config.snippet_map()[s[i].0@] == s[i].1@ by {
                    lemma_pairs_map_value(s, i);
                }
            }
            assert forall|k: Seq<char>| self.config.snippet_map().contains_key(k) implies exists|i: int|
                0 <= i < s.len() && #[trigger] s[i].0@ == k by {
                lemma_pairs_map_dom(s, k);
            }
        }
        self.config.snippets()
    }

    /// The number of user snippets.
    pub fn custom_snippet_count(&self) -> (n: usize)
        ensures
            n == self.config.entries().len(),
            self.config.wf() ==> n == self.config.snippet_map().dom().len(),
    {
        proof {
            if self.config.wf() {
                lemma_pairs_map_len(self.config.entries());
            }
        }
        self.config.snippets().len()
    }
}

// ─────────────────────────────────────────────────────────────────────────
// Trigger detection and expansion
// ─────────────────────────────────────────────────────────────────────────

/// A trigger found before the cursor: its byte range, its text and what it
/// expands to.
#[derive(Debug)]
pub struct SnippetMatch {
    /// Starting position of the trigger in the text (byte offset).
    pub start: usize,
    /// Ending position of the trigger in the text (byte offset).
    pub end: usize,
    /// The trigger text that was matched.
    pub trigger: String,
    /// The expansion text to replace it with.
    pub expansion: String,
}

/// The index of the last white space character of `s`, or -1.
pub open spec fn last_space(s: Seq<char>) -> int
    decreases s.len(),
{
    if s.len() == 0 {
        -1
    } else if is_white_space(s.last()) {
        s.len() - 1
    } else {
        last_space(s.drop_last())
    }
}

/// The characters before byte `cursor` of a text.
pub open spec fn chars_before(s: Seq<char>, cursor: int) -> Seq<char> {
    decode_utf8(encode_utf8(s).subrange(0, cursor))
}

/// The word that ends at the end of `b`: the characters after its last white
/// space.
pub open spec fn trailing_word(b: Seq<char>) -> Seq<char> {
    b.subrange(last_space(b) + 1, b.len() as int)
}

/// The cursor can cut the text: it lies past the end (then nothing is
/// looked for) or on a character boundary.
pub open spec fn cursor_readable(text: Seq<char>, cursor: int) -> bool {
    cursor > encode_utf8(text).len() || is_char_boundary(encode_utf8(text), cursor)
}

/// Finds the snippet trigger that ends at the cursor: the word between the
/// last white space before the cursor and the cursor. `None` when snippets
/// are disabled, the cursor lies past the end, the word is empty or it is
/// no trigger.
pub fn find_trigger_at_cursor(text: &str, cursor_byte_pos: usize, manager: &SnippetManager) -> (r:
    Option<SnippetMatch>)
    requires
        encode_utf8(text@).len() <= usize::MAX,
        manager.config.enabled ==> cursor_readable(text@, cursor_byte_pos as int),
    ensures
        !manager.config.enabled ==> r is None,
        cursor_byte_pos > encode_utf8(text@).len() ==> r is None,
        manager.config.enabled && cursor_byte_pos <= encode_utf8(text@).len() ==> {
            let b = chars_before(text@, cursor_byte_pos as int);
            let w = trailing_word(b);
            &&& (r is Some <==> w.len() > 0 && (is_builtin_trigger(w) || pairs_map(
                manager.config.entries(),
            ).contains_key(w)))
            &&& r is Some ==> {
                &&& r->0.start == byte_offset(b, last_space(b) + 1)
                &&& r->0.end == cursor_byte_pos
                &&& r->0.trigger@ == w
                &&& is_builtin_trigger(w) ==> builtin_stamp(w, r->0.expansion@)
                &&& !is_builtin_trigger(w) ==> Some(r->0.expansion@) == lookup(
                    manager.config.entries(),
                    w,
                )
            }
        },
{
    if !manager.is_enabled() {
        return None;
    }
    if cursor_byte_pos > text.len() {
        return None;
    }
    let (before, _rest) = text.split_at(cursor_byte_pos);
    let ghost b = chars_before(text@, cursor_byte_pos as int);
    assert(before@ == b);
    let chars = chars_vec(before);
    let n = chars.len();
    let mut i = n;
    proof {
        assert(chars@.take(n as int) =~= chars@);
    }
    while i > 0 && !is_whitespace(chars[i - 1])
        invariant
            chars@ == b,
            n == b.len(),
            i <= n,
            last_space(b) == last_space(b.take(i as int)),
        decreases i,
    {
        proof {
            assert(b.take(i as int).drop_last() =~= b.take(i - 1));
        }
        i = i - 1;
    }
    proof {
        if i == 0 {
            assert(b.take(0).len() == 0);
        } else {
            assert(b.take(i as int).last() == b[i - 1]);
        }
        assert(last_space(b) + 1 == i);
    }
    assert(trailing_word(b).len() == n - i);
    if i == n {
        return None;
    }
    let word = before.substring_char(i, n);
    assert(word@ == trailing_word(b));
    let start = before.substring_char(0, i).len();
    assert(b.subrange(0, i as int) =~= b.take(i as int));
    proof {
        assert(b =~= b.take(i as int) + b.skip(i as int));
        lemma_encode_utf8_concat(b.take(i as int), b.skip(i as int));
    }
    assert(start == byte_offset(b, last_space(b) + 1));
    let trigger = String::from_str(word);
    assert(trigger@ == trailing_word(b));
    match manager.get_expansion(word) {
        Some(expansion) => Some(
            SnippetMatch {
                start,
                end: cursor_byte_pos,
                trigger,
                expansion,
            },
        ),
        None => None,
    }
}

/// Replaces the trigger's byte range `start..end` of the text with the
/// expansion; gives the new text and the byte position right after the
/// expansion.
pub fn apply_snippet(text: &str, snippet_match: &SnippetMatch) -> (r: (String, usize))
    requires
        encode_utf8(text@).len() <= usize::MAX,
        snippet_match.start <= snippet_match.end,
        snippet_match.end - snippet_match.start <= encode_utf8(text@).len(),
        is_char_boundary(encode_utf8(text@), snippet_match.start as int),
        snippet_match.end < encode_utf8(text@).len() ==> is_char_boundary(
            encode_utf8(text@),
            snippet_match.end as int,
        ),
        encode_utf8(text@).len() - (snippet_match.end - snippet_match.start) + encode_utf8(
            snippet_match.expansion@,
        ).len() <= usize::MAX,
        snippet_match.start + encode_utf8(snippet_match.expansion@).len() <= usize::MAX,
    ensures
        encode_utf8(r.0@) == encode_utf8(text@).subrange(0, snippet_match.start as int)
            + encode_utf8(snippet_match.expansion@) + if snippet_match.end < encode_utf8(
            text@,
        ).len() {
            encode_utf8(text@).subrange(snippet_match.end as int, encode_utf8(text@).len() as int)
        } else {
            Seq::<u8>::empty()
        },
        r.1 == snippet_match.start + encode_utf8(snippet_match.expansion@).len(),
{
    let (pre, _) = text.split_at(snippet_match.start);
    let mut new_content = String::from_str(pre);
    let exp = snippet_match.expansion.as_str();
    new_content.append(exp);
    let new_cursor = snippet_match.start + exp.len();
    proof {
        lemma_encode_utf8_concat(pre@, exp@);
    }
    if snippet_match.end < text.len() {
        let (_, post) = text.split_at(snippet_match.end);
        let ghost mid = new_content@;
        new_content.append(post);
        proof {
            lemma_encode_utf8_concat(mid, post@);
        }
        assert(encode_utf8(new_content@) == encode_utf8(text@).subrange(0, snippet_match.start as int)
            + encode_utf8(snippet_match.expansion@) + encode_utf8(text@).subrange(snippet_match.end as int, encode_utf8(text@).len() as int));
    } else {
        assert(encode_utf8(new_content@) == encode_utf8(text@).subrange(0, snippet_match.start as int)
            + encode_utf8(snippet_match.expansion@));
        assert(encode_utf8(new_content@) =~= encode_utf8(new_content@) + Seq::<u8>::empty());
    }
    (new_content, new_cursor)
}

} // verus!
