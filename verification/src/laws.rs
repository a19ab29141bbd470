//! Store laws proved over whole sequences of operations.
//!
//! `run_ops` replays any mix of `add_entry` and `set_default_entry` calls on
//! the store model, exactly as the executable operations behave (a refused
//! call leaves the store unchanged).  The lemmas below state the histories'
//! global properties: the invariant always holds, a non-empty history of
//! operations containing an `add` ends with exactly one default entry, a
//! run of distinct adds fills the store up to the cap and no further, and a
//! dedup hit changes neither the row count nor which entry is default.

use vstd::math::min;
use vstd::prelude::*;

use crate::store::DbModel;
use crate::store::HISTORY_CAP;
use crate::store::can_add;
use crate::store::has_content;
use crate::store::at_most_one_default;
use crate::store::is_default_id;
use crate::store::lemma_add_preserves_wf;
use crate::store::lemma_set_default_preserves_wf;
use crate::store::orig_index;
use crate::store::content_index;
use crate::store::some_default;
use crate::store::step_add;
use crate::store::step_set_default;

verus! {

/// One logical mutation of the store, as issued against the public API.
pub ghost enum StoreOp {
    Add { content: Seq<char> },
    SetDefault { id: int },
}

/// The content an `Add` operation carries.
pub open spec fn op_content(op: StoreOp) -> Seq<char> {
    match op {
        StoreOp::Add { content } => content,
        StoreOp::SetDefault { id: _ } => Seq::empty(),
    }
}

/// The store after one operation.  As in the executable store, an `add`
/// without counter room and a promotion of an unknown id leave the store
/// unchanged.
pub open spec fn apply_op(m: DbModel, op: StoreOp) -> DbModel {
    match op {
        StoreOp::Add { content } => if can_add(m, content) {
            step_add(m, content)
        } else {
            m
        },
        StoreOp::SetDefault { id } => step_set_default(m, id),
    }
}

/// The store after a whole sequence of operations.
pub open spec fn run_ops(m: DbModel, ops: Seq<StoreOp>) -> DbModel
    decreases ops.len(),
{
    if ops.len() == 0 {
        m
    } else {
        run_ops(apply_op(m, ops[0]), ops.drop_first())
    }
}

/// Law: every single operation preserves the store invariant.
pub proof fn lemma_apply_op_wf(m: DbModel, op: StoreOp)
    requires
        m.wf(),
    ensures
        apply_op(m, op).wf(),
{
    match op {
        StoreOp::Add { content } => {
            if can_add(m, content) {
                lemma_add_preserves_wf(m, content);
            }
        },
        StoreOp::SetDefault { id } => {
            lemma_set_default_preserves_wf(m, id);
        },
    }
}

/// Law: the store invariant holds after any sequence of operations.
pub proof fn lemma_run_ops_wf(m: DbModel, ops: Seq<StoreOp>)
    requires
        m.wf(),
    ensures
        run_ops(m, ops).wf(),
    decreases ops.len(),
{
    if ops.len() > 0 {
        lemma_apply_op_wf(m, ops[0]);
        lemma_run_ops_wf(apply_op(m, ops[0]), ops.drop_first());
    }
}

/// One operation grows each counter by at most one, never shrinks a
/// non-empty store to empty, and an `add` with counter room leaves the
/// store non-empty.
proof fn lemma_apply_op_progress(m: DbModel, op: StoreOp)
    requires
        m.wf(),
    ensures
        apply_op(m, op).clock <= m.clock + 1,
        apply_op(m, op).next_id <= m.next_id + 1,
        m.entries.len() > 0 ==> apply_op(m, op).entries.len() > 0,
        (op is Add && can_add(m, op_content(op))) ==> apply_op(m, op).entries.len() > 0,
{
}

/// Law: after any sequence of operations that starts from an empty store
/// and contains at least one `add`, the store is non-empty and exactly one
/// live entry is the default — provided the sequence is short enough for
/// the counters, which admit `i64::MAX` operations.
pub proof fn lemma_single_default_after_ops(ops: Seq<StoreOp>)
    requires
        ops.len() <= i64::MAX,
        exists|i: int| 0 <= i < ops.len() && (#[trigger] ops[i]) is Add,
    ensures
        run_ops(DbModel::empty(), ops).wf(),
        run_ops(DbModel::empty(), ops).entries.len() > 0,
        at_most_one_default(run_ops(DbModel::empty(), ops).entries),
        some_default(run_ops(DbModel::empty(), ops).entries),
{
    lemma_run_ops_nonempty(DbModel::empty(), ops);
    lemma_run_ops_wf(DbModel::empty(), ops);
}

/// Helper for `lemma_single_default_after_ops`, generalized over the start
/// state for the induction.
proof fn lemma_run_ops_nonempty(m: DbModel, ops: Seq<StoreOp>)
    requires
        m.wf(),
        m.clock + ops.len() <= i64::MAX,
        m.next_id + ops.len() <= i64::MAX,
        m.entries.len() > 0 || exists|i: int| 0 <= i < ops.len() && (#[trigger] ops[i]) is Add,
    ensures
        run_ops(m, ops).entries.len() > 0,
    decreases ops.len(),
{
    if ops.len() == 0 {
    } else {
        let m1 = apply_op(m, ops[0]);
        lemma_apply_op_wf(m, ops[0]);
        lemma_apply_op_progress(m, ops[0]);
        if m.entries.len() > 0 || ops[0] is Add {
            assert(m1.entries.len() > 0);
            lemma_run_ops_nonempty(m1, ops.drop_first());
        } else {
            let w = choose|i: int| 0 <= i < ops.len() && (#[trigger] ops[i]) is Add;
            assert(ops.drop_first()[w - 1] is Add);
            lemma_run_ops_nonempty(m1, ops.drop_first());
        }
    }
}

/// Law: starting from an empty store, a sequence of `add`s with pairwise
/// distinct contents leaves exactly `min(N, cap)` live entries.
pub proof fn lemma_distinct_adds_fill(ops: Seq<StoreOp>)
    requires
        ops.len() <= i64::MAX,
        forall|i: int| 0 <= i < ops.len() ==> (#[trigger] ops[i]) is Add,
        forall|i: int, j: int|
            0 <= i < j < ops.len() ==> op_content(#[trigger] ops[i]) != op_content(
                #[trigger] ops[j],
            ),
    ensures
        run_ops(DbModel::empty(), ops).entries.len() == min(ops.len() as int, HISTORY_CAP as int),
{
    lemma_distinct_adds_fill_rec(DbModel::empty(), ops);
}

/// Helper for `lemma_distinct_adds_fill`, generalized over a start state
/// none of whose live contents recurs in the adds.
proof fn lemma_distinct_adds_fill_rec(m: DbModel, ops: Seq<StoreOp>)
    requires
        m.wf(),
        m.clock + ops.len() <= i64::MAX,
        m.next_id + ops.len() <= i64::MAX,
        forall|i: int| 0 <= i < ops.len() ==> (#[trigger] ops[i]) is Add,
        forall|i: int, j: int|
            0 <= i < j < ops.len() ==> op_content(#[trigger] ops[i]) != op_content(
                #[trigger] ops[j],
            ),
        forall|i: int|
            0 <= i < ops.len() ==> !has_content(m.entries, op_content(#[trigger] ops[i])),
    ensures
        run_ops(m, ops).entries.len() == min(m.entries.len() + ops.len() as int, HISTORY_CAP as int),
    decreases ops.len(),
{
    if ops.len() > 0 {
        let c = op_content(ops[0]);
        assert(!has_content(m.entries, c));
        assert(can_add(m, c));
        let m1 = apply_op(m, ops[0]);
        lemma_apply_op_wf(m, ops[0]);
        assert(m1.entries.len() == min(m.entries.len() as int + 1, HISTORY_CAP as int));
        // The contents live after the insert are the new one plus a subset
        // of the old ones, so no later add can collide.
        assert forall|i: int|
            0 <= i < ops.drop_first().len() implies !has_content(
            m1.entries,
            op_content(#[trigger] ops.drop_first()[i]),
        ) by {
            let ci = op_content(ops.drop_first()[i]);
            assert(ops.drop_first()[i] == ops[i + 1]);
            assert(ci != c);
            assert(!has_content(m.entries, ci));
            if has_content(m1.entries, ci) {
                let w = content_index(m1.entries, ci);
                assert(0 <= w < m1.entries.len() && m1.entries[w].content == ci);
                assert(w != 0);
                assert(m1.entries[w].content == m.entries[w - 1].content);
            }
        }
        lemma_distinct_adds_fill_rec(m1, ops.drop_first());
    }
}

/// Law: re-adding a content that is already live never changes the row
/// count and never changes which entry is the default; the existing row's
/// timestamp is refreshed in place.
pub proof fn lemma_readd_keeps_count_and_default(m: DbModel, c: Seq<char>)
    requires
        m.wf(),
        has_content(m.entries, c),
        can_add(m, c),
    ensures
        step_add(m, c).entries.len() == m.entries.len(),
        forall|id: int| is_default_id(step_add(m, c).entries, id) == is_default_id(m.entries, id),
{
    let i = content_index(m.entries, c);
    assert(0 <= i < m.entries.len() && m.entries[i].content == c);
    let s2 = step_add(m, c).entries;
    m.entries.remove_ensures(i);
    assert forall|k: int| 1 <= k < s2.len() implies s2[k] == m.entries[orig_index(i, k)] by {
        assert(s2[k] == m.entries.remove(i)[k - 1]);
    }
    assert forall|id: int|
        is_default_id(s2, id) == is_default_id(m.entries, id) by {
        if is_default_id(s2, id) {
            let a = choose|a: int| 0 <= a < s2.len() && (#[trigger] s2[a]).id == id && s2[a].is_default;
            if a == 0 {
                assert(m.entries[i].id == id && m.entries[i].is_default);
            } else {
                let oa = orig_index(i, a);
                assert(m.entries[oa].id == id && m.entries[oa].is_default);
            }
        }
        if is_default_id(m.entries, id) {
            let a = choose|a: int|
                0 <= a < m.entries.len() && (#[trigger] m.entries[a]).id == id
                    && m.entries[a].is_default;
            if a == i {
                assert(s2[0].id == id && s2[0].is_default);
            } else if a < i {
                assert(s2[a + 1] == m.entries[a]);
                assert(s2[a + 1].id == id && s2[a + 1].is_default);
            } else {
                assert(s2[a] == m.entries[a]);
                assert(s2[a].id == id && s2[a].is_default);
            }
        }
    }
}

} // verus!
