//! Operation-based undo/redo history.
//!
//! Edits are recorded as insert/delete operations rather than snapshots.
//! Operations recorded within 500 ms of the previous one join its group, and
//! one undo reverts a whole group.

use vstd::prelude::*;
use std::time::{Duration, Instant};
use crate::buffer::TextBuffer;

verus! {

#[verifier::external_type_specification]
#[verifier::external_body]
pub struct ExInstant(Instant);

/// `Instant::now`: the current time (nothing is stated of it).
#[verifier::external_body]
fn instant_now() -> (t: Instant) {
    Instant::now()
}

/// Operations recorded less than this many milliseconds apart join a group.
pub const GROUP_THRESHOLD_MS: u128 = 500;

/// `Instant::duration_since`: the time from `earlier` to `now` (zero when
/// `earlier` is later). Nothing is stated of it: it rests on the clock.
#[verifier::external_body]
fn duration_since(now: &Instant, earlier: &Instant) -> (d: Duration) {
    now.duration_since(*earlier)
}

/// `Duration::as_millis`: the whole milliseconds of a duration. Nothing is
/// stated of it, as nothing is known of the duration.
#[verifier::external_body]
fn duration_millis(d: &Duration) -> (ms: u128) {
    d.as_millis()
}

/// A single edit that can be undone or redone.
#[derive(Debug, Clone, PartialEq, Eq)]
pub enum EditOperation {
    /// `text` was inserted at character position `pos`.
    Insert { pos: usize, text: String },
    /// `text` was deleted from character position `pos`.
    Delete { pos: usize, text: String },
}

/// The character position of an operation.
pub open spec fn op_pos(op: EditOperation) -> int {
    match op {
        EditOperation::Insert { pos, .. } => pos as int,
        EditOperation::Delete { pos, .. } => pos as int,
    }
}

/// The characters an operation inserts or deletes.
pub open spec fn op_text(op: EditOperation) -> Seq<char> {
    match op {
        EditOperation::Insert { text, .. } => text@,
        EditOperation::Delete { text, .. } => text@,
    }
}

/// The operation that reverses `op`: an insert becomes a delete of the same
/// text at the same position, and a delete becomes an insert.
pub open spec fn inverse_op(op: EditOperation) -> EditOperation {
    match op {
        EditOperation::Insert { pos, text } => EditOperation::Delete { pos, text },
        EditOperation::Delete { pos, text } => EditOperation::Insert { pos, text },
    }
}

/// Whether `op` can be applied to text `t` without leaving its bounds.
pub open spec fn op_applicable(t: Seq<char>, op: EditOperation) -> bool {
    match op {
        EditOperation::Insert { pos, .. } => pos <= t.len(),
        EditOperation::Delete { pos, text } => text@.len() == 0 || pos + text@.len() <= t.len(),
    }
}

/// The text after applying `op` to `t`.
pub open spec fn apply_op(t: Seq<char>, op: EditOperation) -> Seq<char> {
    match op {
        EditOperation::Insert { pos, text } => t.take(pos as int) + text@ + t.skip(pos as int),
        EditOperation::Delete { pos, text } => if text@.len() == 0 {
            t
        } else {
            t.take(pos as int) + t.skip(pos + text@.len())
        },
    }
}

/// Whether `op`, applied to `t`, removes exactly the text it records (always
/// true of an insert).
pub open spec fn op_matches(t: Seq<char>, op: EditOperation) -> bool {
    match op {
        EditOperation::Insert { .. } => true,
        EditOperation::Delete { pos, text } => pos + text@.len() <= t.len() && t.subrange(
            pos as int,
            pos + text@.len(),
        ) == text@,
    }
}

/// Undoing a group: first undo the later operations, then the first one.
pub open spec fn undo_seq(t: Seq<char>, ops: Seq<EditOperation>) -> Seq<char>
    decreases ops.len(),
{
    if ops.len() == 0 {
        t
    } else {
        apply_op(undo_seq(t, ops.drop_first()), inverse_op(ops[0]))
    }
}

/// Every step of undoing a group stays within the text.
pub open spec fn undo_ok(t: Seq<char>, ops: Seq<EditOperation>) -> bool
    decreases ops.len(),
{
    ops.len() == 0 || (undo_ok(t, ops.drop_first()) && op_applicable(
        undo_seq(t, ops.drop_first()),
        inverse_op(ops[0]),
    ))
}

/// Every step of undoing a group stays within the text and removes exactly
/// the text the inverse operation records.
pub open spec fn undo_exact(t: Seq<char>, ops: Seq<EditOperation>) -> bool
    decreases ops.len(),
{
    ops.len() == 0 || (undo_exact(t, ops.drop_first()) && op_applicable(
        undo_seq(t, ops.drop_first()),
        inverse_op(ops[0]),
    ) && op_matches(undo_seq(t, ops.drop_first()), inverse_op(ops[0])))
}

/// Redoing a group: apply its operations in order.
pub open spec fn redo_seq(t: Seq<char>, ops: Seq<EditOperation>) -> Seq<char>
    decreases ops.len(),
{
    if ops.len() == 0 {
        t
    } else {
        redo_seq(apply_op(t, ops[0]), ops.drop_first())
    }
}

/// Every step of redoing a group stays within the text.
pub open spec fn redo_ok(t: Seq<char>, ops: Seq<EditOperation>) -> bool
    decreases ops.len(),
{
    ops.len() == 0 || (op_applicable(t, ops[0]) && redo_ok(apply_op(t, ops[0]), ops.drop_first()))
}

/// Cursor position after undoing a group whose first operation is `op`:
/// where an insert started, or after text a delete restored.
pub open spec fn undo_cursor(op: EditOperation) -> int {
    match op {
        EditOperation::Insert { pos, .. } => pos as int,
        EditOperation::Delete { pos, text } => pos + text@.len(),
    }
}

/// Cursor position after redoing a group whose last operation is `op`:
/// after text an insert added, or where a delete happened.
pub open spec fn redo_cursor(op: EditOperation) -> int {
    match op {
        EditOperation::Insert { pos, text } => pos + text@.len(),
        EditOperation::Delete { pos, .. } => pos as int,
    }
}

impl EditOperation {
    /// Returns the inverse operation (an insert becomes a delete and vice versa).
    pub fn inverse(&self) -> (r: Self)
        ensures
            r == inverse_op(*self),
    {
        match self {
            EditOperation::Insert { pos, text } => EditOperation::Delete {
                pos: *pos,
                text: text.clone(),
            },
            EditOperation::Delete { pos, text } => EditOperation::Insert {
                pos: *pos,
                text: text.clone(),
            },
        }
    }

    /// Applies this operation to a buffer (it must fit the buffer's text).
    pub fn apply(&self, buffer: &mut TextBuffer)
        requires
            op_applicable(old(buffer)@, *self),
        ensures
            final(buffer)@ == apply_op(old(buffer)@, *self),
    {
        match self {
            EditOperation::Insert { pos, text } => {
                buffer.insert(*pos, text.as_str());
            },
            EditOperation::Delete { pos, text } => {
                let n = text.as_str().unicode_len();
                buffer.remove(*pos, n);
            },
        }
    }
}

/// Inverting an operation twice gives it back.
pub proof fn lemma_inverse_involutive(op: EditOperation)
    ensures
        inverse_op(inverse_op(op)) == op,
{
}

/// Applying an operation and then its inverse restores the text, provided the
/// operation fits the text and, for a delete, records the text it removes.
pub proof fn lemma_inverse_restores(t: Seq<char>, op: EditOperation)
    requires
        op_applicable(t, op),
        op_matches(t, op),
    ensures
        op_applicable(apply_op(t, op), inverse_op(op)),
        op_matches(apply_op(t, op), inverse_op(op)),
        apply_op(apply_op(t, op), inverse_op(op)) == t,
{
    match op {
        EditOperation::Insert { pos, text } => {
            let u = apply_op(t, op);
            assert(u.len() == t.len() + text@.len());
            assert(u.subrange(pos as int, pos + text@.len()) =~= text@);
            if text@.len() == 0 {
                assert(u =~= t);
            } else {
                assert(u.take(pos as int) + u.skip(pos + text@.len()) =~= t);
            }
        },
        EditOperation::Delete { pos, text } => {
            if text@.len() == 0 {
                assert(t.take(pos as int) + text@ + t.skip(pos as int) =~= t);
            } else {
                let u = apply_op(t, op);
                assert(u.take(pos as int) + text@ + u.skip(pos as int) =~= t);
            }
        },
    }
}

/// Redoing a group right after undoing it restores the text the undo started
/// from, when the undo removed exactly the recorded texts.
pub proof fn lemma_redo_after_undo(t: Seq<char>, ops: Seq<EditOperation>)
    requires
        undo_exact(t, ops),
    ensures
        undo_ok(t, ops),
        redo_ok(undo_seq(t, ops), ops),
        redo_seq(undo_seq(t, ops), ops) == t,
    decreases ops.len(),
{
    if ops.len() > 0 {
        let rest = ops.drop_first();
        lemma_redo_after_undo(t, rest);
        let u = undo_seq(t, rest);
        lemma_inverse_restores(u, inverse_op(ops[0]));
        lemma_inverse_involutive(ops[0]);
    }
}

/// Undoing a group right after redoing it restores the text the redo started
/// from, when each redone delete removed exactly its recorded text.
pub proof fn lemma_undo_after_redo(t: Seq<char>, ops: Seq<EditOperation>)
    requires
        redo_ok(t, ops),
        forall|i: int|
            0 <= i < ops.len() ==> #[trigger] op_matches(redo_seq(t, ops.take(i)), ops[i]),
    ensures
        undo_ok(redo_seq(t, ops), ops),
        undo_seq(redo_seq(t, ops), ops) == t,
    decreases ops.len(),
{
    if ops.len() > 0 {
        let rest = ops.drop_first();
        let t1 = apply_op(t, ops[0]);
        assert(ops.take(0) =~= Seq::<EditOperation>::empty());
        assert(op_matches(redo_seq(t, ops.take(0)), ops[0]));
        assert forall|i: int| 0 <= i < rest.len() implies #[trigger] op_matches(
            redo_seq(t1, rest.take(i)),
            rest[i],
        ) by {
            assert(op_matches(redo_seq(t, ops.take(i + 1)), ops[i + 1]));
            assert(ops.take(i + 1).drop_first() =~= rest.take(i));
        }
        lemma_undo_after_redo(t1, rest);
        lemma_inverse_restores(t, ops[0]);
    }
}

/// A group of operations undone and redone together.
#[derive(Debug)]
struct OperationGroup {
    /// The operations, in the order they were made.
    operations: Vec<EditOperation>,
}

impl OperationGroup {
    /// A group holding one operation.
    fn new(op: EditOperation) -> (g: Self)
        ensures
            g.operations@ == seq![op],
    {
        let mut operations = Vec::new();
        operations.push(op);
        OperationGroup { operations }
    }

    /// Adds an operation at the end of the group.
    fn push(&mut self, op: EditOperation)
        ensures
            final(self).operations@ == old(self).operations@.push(op),
    {
        self.operations.push(op);
    }

    /// Applies the inverses of the operations, last to first.
    fn undo(&self, buffer: &mut TextBuffer)
        requires
            undo_ok(old(buffer)@, self.operations@),
        ensures
            final(buffer)@ == undo_seq(old(buffer)@, self.operations@),
    {
        let ghost t = buffer@;
        let ghost ops = self.operations@;
        proof {
            lemma_undo_ok_suffixes(t, ops);
            assert(ops.skip(ops.len() as int) =~= Seq::<EditOperation>::empty());
        }
        let mut i = self.operations.len();
        while i > 0
            invariant
                i <= ops.len(),
                ops == self.operations@,
                buffer@ == undo_seq(t, ops.skip(i as int)),
                forall|k: int| 0 <= k <= ops.len() ==> #[trigger] undo_ok(t, ops.skip(k)),
            decreases i,
        {
            i = i - 1;
            proof {
                assert(ops.skip(i as int).drop_first() =~= ops.skip(i + 1));
                assert(undo_ok(t, ops.skip(i as int)));
            }
            let inv = self.operations[i].inverse();
            inv.apply(buffer);
        }
        proof {
            assert(ops.skip(0) =~= ops);
        }
    }

    /// Applies the operations in order.
    fn redo(&self, buffer: &mut TextBuffer)
        requires
            redo_ok(old(buffer)@, self.operations@),
        ensures
            final(buffer)@ == redo_seq(old(buffer)@, self.operations@),
    {
        let ghost t = buffer@;
        let ghost ops = self.operations@;
        proof {
            assert(ops.skip(0) =~= ops);
        }
        let mut i: usize = 0;
        while i < self.operations.len()
            invariant
                i <= ops.len(),
                ops == self.operations@,
                redo_seq(t, ops) == redo_seq(buffer@, ops.skip(i as int)),
                redo_ok(buffer@, ops.skip(i as int)),
            decreases ops.len() - i,
        {
            proof {
                assert(ops.skip(i as int).drop_first() =~= ops.skip(i + 1));
            }
            self.operations[i].apply(buffer);
            i = i + 1;
        }
        proof {
            assert(ops.skip(ops.len() as int) =~= Seq::<EditOperation>::empty());
        }
    }
}

/// If undoing a group stays within the text, so does undoing each of its suffixes.
proof fn lemma_undo_ok_suffixes(t: Seq<char>, ops: Seq<EditOperation>)
    requires
        undo_ok(t, ops),
    ensures
        forall|k: int| 0 <= k <= ops.len() ==> #[trigger] undo_ok(t, ops.skip(k)),
{
    assert forall|k: int| 0 <= k <= ops.len() implies #[trigger] undo_ok(t, ops.skip(k)) by {
        lemma_undo_ok_suffix(t, ops, k);
    }
}

proof fn lemma_undo_ok_suffix(t: Seq<char>, ops: Seq<EditOperation>, k: int)
    requires
        undo_ok(t, ops),
        0 <= k <= ops.len(),
    ensures
        undo_ok(t, ops.skip(k)),
    decreases k,
{
    if k == 0 {
        assert(ops.skip(0) =~= ops);
    } else {
        lemma_undo_ok_suffix(t, ops, k - 1);
        assert(ops.skip(k - 1).drop_first() =~= ops.skip(k));
    }
}

/// Undoing a group whose first operation is a delete leaves a text long
/// enough to hold the restored characters.
proof fn lemma_undo_len(t: Seq<char>, ops: Seq<EditOperation>)
    requires
        ops.len() > 0,
        undo_ok(t, ops),
    ensures
        ops[0] is Delete ==> undo_cursor(ops[0]) <= undo_seq(t, ops).len(),
{
    let u = undo_seq(t, ops.drop_first());
    match ops[0] {
        EditOperation::Insert { .. } => {},
        EditOperation::Delete { pos, text } => {
            assert(apply_op(u, inverse_op(ops[0])).len() == u.len() + text@.len());
        },
    }
}

/// Redoing a group whose last operation is an insert leaves a text that
/// reaches past the inserted characters.
proof fn lemma_redo_len(t: Seq<char>, ops: Seq<EditOperation>)
    requires
        ops.len() > 0,
        redo_ok(t, ops),
    ensures
        ops.last() is Insert ==> redo_cursor(ops.last()) <= redo_seq(t, ops).len(),
    decreases ops.len(),
{
    if ops.len() == 1 {
        assert(ops.drop_first() =~= Seq::<EditOperation>::empty());
        assert(redo_seq(apply_op(t, ops[0]), ops.drop_first()) == apply_op(t, ops[0]));
        match ops[0] {
            EditOperation::Insert { pos, text } => {
                assert(apply_op(t, ops[0]).len() == t.len() + text@.len());
            },
            EditOperation::Delete { .. } => {},
        }
    } else {
        lemma_redo_len(apply_op(t, ops[0]), ops.drop_first());
    }
}

/// Whether a new record joins the last group: grouping is open, there is
/// a group, and the time since the previous record is known and less than
/// `GROUP_THRESHOLD_MS`.
pub open spec fn joins_group(grouping_open: bool, groups: nat, elapsed_ms: Option<u128>) -> bool {
    grouping_open && groups > 0 && match elapsed_ms {
        Some(ms) => ms < GROUP_THRESHOLD_MS,
        None => false,
    }
}

/// The undo groups after recording `op`: appended to the last group when
/// it joins, else as a group of its own.
pub open spec fn recorded_groups(groups: Seq<Seq<EditOperation>>, op: EditOperation, join: bool) -> Seq<Seq<EditOperation>> {
    if join && groups.len() > 0 {
        groups.drop_last().push(groups.last().push(op))
    } else {
        groups.push(seq![op])
    }
}

/// Recording adds `op` at the end of the recorded operations, whether it
/// joins a group or not.
proof fn lemma_recorded_groups_flatten(gs: Seq<Seq<EditOperation>>, op: EditOperation, join: bool)
    ensures
        flatten_groups(recorded_groups(gs, op, join)) == flatten_groups(gs).push(op),
{
    assert(flatten_groups(gs.push(seq![op])) =~= flatten_groups(gs).push(op)) by {
        assert(gs.push(seq![op]).drop_last() =~= gs);
    }
    if gs.len() > 0 {
        let gs2 = gs.drop_last().push(gs.last().push(op));
        assert(gs2.drop_last() =~= gs.drop_last());
        assert(flatten_groups(gs2) =~= flatten_groups(gs).push(op));
    }
}

/// Undo/redo history: a stack of groups that can be undone and a stack of
/// groups that can be redone.
#[derive(Debug)]
pub struct EditHistory {
    undo_stack: Vec<OperationGroup>,
    redo_stack: Vec<OperationGroup>,
    last_edit_time: Option<Instant>,
}

/// The operations of a list of groups, group after group.
pub open spec fn flatten_groups(gs: Seq<Seq<EditOperation>>) -> Seq<EditOperation>
    decreases gs.len(),
{
    if gs.len() == 0 {
        Seq::<EditOperation>::empty()
    } else {
        flatten_groups(gs.drop_last()) + gs.last()
    }
}

/// The operations of each group of a stack.
spec fn group_ops(stack: Seq<OperationGroup>) -> Seq<Seq<EditOperation>> {
    stack.map_values(|g: OperationGroup| g.operations@)
}

impl EditHistory {
    /// The groups that can be undone, oldest first.
    pub closed spec fn undo_groups(self) -> Seq<Seq<EditOperation>> {
        group_ops(self.undo_stack@)
    }

    /// The groups that can be redone, the next one to redo last.
    pub closed spec fn redo_groups(self) -> Seq<Seq<EditOperation>> {
        group_ops(self.redo_stack@)
    }

    /// Every group of both stacks holds at least one operation.
    pub open spec fn groups_nonempty(self) -> bool {
        &&& forall|i: int| 0 <= i < self.undo_groups().len() ==> #[trigger] self.undo_groups()[i].len() > 0
        &&& forall|i: int| 0 <= i < self.redo_groups().len() ==> #[trigger] self.redo_groups()[i].len() > 0
    }

    /// Every operation that can be undone, in the order it was recorded.
    pub open spec fn recorded(self) -> Seq<EditOperation> {
        flatten_groups(self.undo_groups())
    }

    /// Whether the next recorded operation may join the last group (if it
    /// comes soon enough).
    pub closed spec fn grouping_open(self) -> bool {
        self.last_edit_time is Some
    }

    /// An empty history.
    pub fn new() -> (h: Self)
        ensures
            h.undo_groups() == Seq::<Seq<EditOperation>>::empty(),
            h.redo_groups() == Seq::<Seq<EditOperation>>::empty(),
            !h.grouping_open(),
    {
        let h = EditHistory { undo_stack: Vec::new(), redo_stack: Vec::new(), last_edit_time: None };
        proof {
            assert(group_ops(h.undo_stack@) =~= Seq::<Seq<EditOperation>>::empty());
            assert(group_ops(h.redo_stack@) =~= Seq::<Seq<EditOperation>>::empty());
        }
        h
    }

    /// Records `op` either as a new group or, when `group` holds and there is
    /// a group to undo, at the end of the last group; clears the redo stack.
    pub fn record_operation_grouped(&mut self, op: EditOperation, group: bool)
        ensures
            group && old(self).undo_groups().len() > 0 ==> final(self).undo_groups()
                == old(self).undo_groups().drop_last().push(
                old(self).undo_groups().last().push(op),
            ),
            !(group && old(self).undo_groups().len() > 0) ==> final(self).undo_groups()
                == old(self).undo_groups().push(seq![op]),
            final(self).redo_groups() == Seq::<Seq<EditOperation>>::empty(),
            final(self).grouping_open() == old(self).grouping_open(),
    {
        let ghost old_groups = group_ops(self.undo_stack@);
        let n = self.undo_stack.len();
        if group && n > 0 {
            let mut last = self.undo_stack.pop().unwrap();
            last.push(op);
            self.undo_stack.push(last);
            proof {
                assert(group_ops(self.undo_stack@) =~= old_groups.drop_last().push(
                    old_groups.last().push(op),
                ));
            }
        } else {
            self.undo_stack.push(OperationGroup::new(op));
            proof {
                assert(group_ops(self.undo_stack@) =~= old_groups.push(seq![op]));
            }
        }
        self.redo_stack.clear();
        proof {
            assert(group_ops(self.redo_stack@) =~= Seq::<Seq<EditOperation>>::empty());
        }
    }

    /// Records `op`, `elapsed_ms` after the previous record (`None` when that
    /// time is not known): it joins the last group exactly when grouping is
    /// open, there is a group to join and less than `GROUP_THRESHOLD_MS`
    /// milliseconds have passed; otherwise it starts a new group. The redo
    /// stack is cleared.
    pub fn record_operation_after(&mut self, op: EditOperation, elapsed_ms: Option<u128>)
        ensures
            final(self).undo_groups() == recorded_groups(
                old(self).undo_groups(),
                op,
                joins_group(old(self).grouping_open(), old(self).undo_groups().len(), elapsed_ms),
            ),
            final(self).redo_groups() == Seq::<Seq<EditOperation>>::empty(),
            final(self).grouping_open() == old(self).grouping_open(),
            final(self).recorded() == old(self).recorded().push(op),
    {
        proof {
            lemma_recorded_groups_flatten(old(self).undo_groups(), op, joins_group(
                old(self).grouping_open(),
                old(self).undo_groups().len(),
                elapsed_ms,
            ));
        }
        let soon = match elapsed_ms {
            Some(ms) => ms < GROUP_THRESHOLD_MS,
            None => false,
        };
        let group = self.last_edit_time.is_some() && soon;
        self.record_operation_grouped(op, group);
    }

    /// Records an operation, timing it against the previous record: it joins
    /// the last group when grouping is open and the previous record was less
    /// than `GROUP_THRESHOLD_MS` milliseconds ago (see
    /// `record_operation_after`); otherwise it starts a new group. The redo
    /// stack is cleared and grouping is open afterwards.
    pub fn record_operation(&mut self, op: EditOperation)
        ensures
            !old(self).grouping_open() ==> final(self).undo_groups() == old(self).undo_groups().push(seq![op]),
            exists|ms: u128|
                final(self).undo_groups() == recorded_groups(
                    old(self).undo_groups(),
                    op,
                    #[trigger] joins_group(old(self).grouping_open(), old(self).undo_groups().len(), Some(ms)),
                ),
            final(self).redo_groups() == Seq::<Seq<EditOperation>>::empty(),
            final(self).grouping_open(),
            final(self).recorded() == old(self).recorded().push(op),
    {
        let now = instant_now();
        let elapsed = match &self.last_edit_time {
            Some(last) => Some(duration_millis(&duration_since(&now, last))),
            None => None,
        };
        let ghost w: u128 = match elapsed {
            Some(m) => m,
            None => 0,
        };
        self.record_operation_after(op, elapsed);
        assert(joins_group(old(self).grouping_open(), old(self).undo_groups().len(), elapsed) == joins_group(
            old(self).grouping_open(),
            old(self).undo_groups().len(),
            Some(w),
        ));
        self.last_edit_time = Some(now);
    }

    /// Undoes the last group: applies the inverses of its operations, last to
    /// first, and moves it to the redo stack. Returns the cursor position to
    /// restore (`undo_cursor` of the group's first operation), or `None` when
    /// there is nothing to undo.
    pub fn undo(&mut self, buffer: &mut TextBuffer) -> (r: Option<usize>)
        requires
            old(self).undo_groups().len() > 0 ==> undo_ok(
                old(buffer)@,
                old(self).undo_groups().last(),
            ),
        ensures
            old(self).undo_groups().len() == 0 ==> r is None && final(buffer)@ == old(buffer)@
                && final(self).undo_groups() == old(self).undo_groups() && final(self).redo_groups()
                == old(self).redo_groups() && final(self).grouping_open()
                == old(self).grouping_open(),
            old(self).undo_groups().len() > 0 ==> ({
                let g = old(self).undo_groups().last();
                &&& r == (if g.len() > 0 { Some(undo_cursor(g[0]) as usize) } else { None })
                &&& final(buffer)@ == undo_seq(old(buffer)@, g)
                &&& final(self).undo_groups() == old(self).undo_groups().drop_last()
                &&& final(self).redo_groups() == old(self).redo_groups().push(g)
                &&& !final(self).grouping_open()
            }),
    {
        let ghost old_undo = group_ops(self.undo_stack@);
        let ghost old_redo = group_ops(self.redo_stack@);
        if self.undo_stack.len() == 0 {
            return None;
        }
        let group = self.undo_stack.pop().unwrap();
        proof {
            assert(group.operations@ == old_undo.last());
            assert(group_ops(self.undo_stack@) =~= old_undo.drop_last());
            if group.operations@.len() > 0 {
                lemma_undo_len(buffer@, group.operations@);
            }
        }
        group.undo(buffer);
        // The restored text lies within the buffer, whose length fits in usize.
        let total = buffer.len();
        let cursor_pos = if group.operations.len() > 0 {
            match &group.operations[0] {
                EditOperation::Insert { pos, .. } => Some(*pos),
                EditOperation::Delete { pos, text } => {
                    assert(*pos + text@.len() <= total);
                    Some(*pos + text.as_str().unicode_len())
                },
            }
        } else {
            None
        };
        self.redo_stack.push(group);
        self.last_edit_time = None;
        proof {
            assert(group_ops(self.redo_stack@) =~= old_redo.push(old_undo.last()));
        }
        cursor_pos
    }

    /// Redoes the last undone group: applies its operations in order and moves
    /// it back to the undo stack. Returns the cursor position to restore
    /// (`redo_cursor` of the group's last operation), or `None` when there is
    /// nothing to redo.
    pub fn redo(&mut self, buffer: &mut TextBuffer) -> (r: Option<usize>)
        requires
            old(self).redo_groups().len() > 0 ==> redo_ok(
                old(buffer)@,
                old(self).redo_groups().last(),
            ),
        ensures
            old(self).redo_groups().len() == 0 ==> r is None && final(buffer)@ == old(buffer)@
                && final(self).undo_groups() == old(self).undo_groups() && final(self).redo_groups()
                == old(self).redo_groups() && final(self).grouping_open()
                == old(self).grouping_open(),
            old(self).redo_groups().len() > 0 ==> ({
                let g = old(self).redo_groups().last();
                &&& r == (if g.len() > 0 { Some(redo_cursor(g.last()) as usize) } else { None })
                &&& final(buffer)@ == redo_seq(old(buffer)@, g)
                &&& final(self).redo_groups() == old(self).redo_groups().drop_last()
                &&& final(self).undo_groups() == old(self).undo_groups().push(g)
                &&& !final(self).grouping_open()
            }),
    {
        let ghost old_undo = group_ops(self.undo_stack@);
        let ghost old_redo = group_ops(self.redo_stack@);
        if self.redo_stack.len() == 0 {
            return None;
        }
        let group = self.redo_stack.pop().unwrap();
        proof {
            assert(group.operations@ == old_redo.last());
            assert(group_ops(self.redo_stack@) =~= old_redo.drop_last());
            if group.operations@.len() > 0 {
                lemma_redo_len(buffer@, group.operations@);
            }
        }
        group.redo(buffer);
        // The inserted text lies within the buffer, whose length fits in usize.
        let total = buffer.len();
        let n = group.operations.len();
        let cursor_pos = if n > 0 {
            match &group.operations[n - 1] {
                EditOperation::Insert { pos, text } => {
                    assert(*pos + text@.len() <= total);
                    Some(*pos + text.as_str().unicode_len())
                },
                EditOperation::Delete { pos, .. } => Some(*pos),
            }
        } else {
            None
        };
        self.undo_stack.push(group);
        self.last_edit_time = None;
        proof {
            assert(group_ops(self.undo_stack@) =~= old_undo.push(old_redo.last()));
        }
        cursor_pos
    }

    /// Whether there is a group to undo.
    pub fn can_undo(&self) -> (r: bool)
        ensures
            r == (self.undo_groups().len() > 0),
    {
        self.undo_stack.len() > 0
    }

    /// Whether there is a group to redo.
    pub fn can_redo(&self) -> (r: bool)
        ensures
            r == (self.redo_groups().len() > 0),
    {
        self.redo_stack.len() > 0
    }

    /// Clears both stacks and ends the current group.
    pub fn clear(&mut self)
        ensures
            final(self).undo_groups() == Seq::<Seq<EditOperation>>::empty(),
            final(self).redo_groups() == Seq::<Seq<EditOperation>>::empty(),
            !final(self).grouping_open(),
    {
        self.undo_stack.clear();
        self.redo_stack.clear();
        self.last_edit_time = None;
        proof {
            assert(group_ops(self.undo_stack@) =~= Seq::<Seq<EditOperation>>::empty());
            assert(group_ops(self.redo_stack@) =~= Seq::<Seq<EditOperation>>::empty());
        }
    }

    /// The number of groups that can be undone.
    pub fn undo_count(&self) -> (n: usize)
        ensures
            n == self.undo_groups().len(),
    {
        self.undo_stack.len()
    }

    /// The number of groups that can be redone.
    pub fn redo_count(&self) -> (n: usize)
        ensures
            n == self.redo_groups().len(),
    {
        self.redo_stack.len()
    }

    /// Ends the current group: the next operation starts a new one.
    pub fn break_group(&mut self)
        ensures
            final(self).undo_groups() == old(self).undo_groups(),
            final(self).redo_groups() == old(self).redo_groups(),
            !final(self).grouping_open(),
    {
        self.last_edit_time = None;
    }
}

impl Default for EditHistory {
    /// An empty history.
    fn default() -> (h: Self)
        ensures
            h.undo_groups() == Seq::<Seq<EditOperation>>::empty(),
            h.redo_groups() == Seq::<Seq<EditOperation>>::empty(),
            !h.grouping_open(),
    {
        Self::new()
    }
}

} // verus!
