//! The executor's laws, stated and proved over the model in
//! [`crate::model`]. Every executable transition is pinned to a model
//! transition by its `ensures`, so these laws carry over to the running
//! code.

use vstd::prelude::*;

use crate::model::{
    acquire_t, dispatchable, enter_t, idle_ready, is_pick, lemma_signal_wf, locked, release_t,
    running, signal_t, top_task, uses, valid_task, wf, wf_cell, wf_lock, ExecModel,
};

verus! {

/// Mutual exclusion, structural part: a cell is never locked twice, so
/// of all the tasks sharing it at most one holds its lock at any
/// instant.
pub proof fn lemma_mutual_exclusion(m: ExecModel, j: int, k: int)
    requires
        wf(m),
        0 <= j < m.locks.len(),
        0 <= k < m.locks.len(),
        m.locks[j].cell == m.locks[k].cell,
    ensures
        j == k,
{
    if j < k {
        assert(m.locks[j].frame <= m.locks[k].frame);
        assert(false);
    }
    if k < j {
        assert(m.locks[k].frame <= m.locks[j].frame);
        assert(false);
    }
}

/// Mutual exclusion, dynamic part: while any context holds a lock on a
/// cell, every task allowed to lock that cell is masked — its priority
/// does not exceed the current one — so the dispatcher can never start
/// it, and no competitor can ever reach the acquire.
pub proof fn lemma_lock_masks_sharers(m: ExecModel, c: int, t: int)
    requires
        wf(m),
        locked(m, c),
        valid_task(m, t),
        uses(m, t, c),
    ensures
        m.tasks[t].pri <= m.cur,
        !dispatchable(m, t),
{
    let k = choose|k: int| 0 <= k < m.locks.len() && m.locks[k].cell == c;
    assert(wf_lock(m, m.locks[k]));
    assert(wf_cell(m, m.cells[c]));
    let i = choose|i: int| 0 <= i < m.cells[c].users.len() && m.cells[c].users[i] == t;
    assert(m.tasks[m.cells[c].users[i]].pri <= m.cells[c].ceiling);
}

/// Mutual exclusion, re-entry part: when the running task is allowed to
/// lock a cell and that cell is locked at all, the lock can only belong
/// to the running context itself — a preempted competitor can never be
/// the holder, because everything dispatched above the holder outranks
/// the ceiling and so cannot share the cell.
pub proof fn lemma_holder_is_running(m: ExecModel, c: int, k: int)
    requires
        wf(m),
        running(m),
        uses(m, top_task(m), c),
        0 <= k < m.locks.len(),
        m.locks[k].cell == c,
    ensures
        m.locks[k].frame == m.frames.len() - 1,
{
    assert(wf_lock(m, m.locks[k]));
    assert(wf_cell(m, m.cells[c]));
    let top = m.frames.len() - 1;
    if m.locks[k].frame < top {
        assert(m.frames[top].saved >= m.cells[c].ceiling);
        assert(m.frames[top].saved < m.tasks[top_task(m)].pri);
        let i = choose|i: int| 0 <= i < m.cells[c].users.len() && m.cells[c].users[i] == top_task(m);
        assert(m.tasks[m.cells[c].users[i]].pri <= m.cells[c].ceiling);
        assert(false);
    }
}

/// Priority ordering: while a higher-priority task is pending, the
/// dispatcher never chooses a lower-priority one.
pub proof fn lemma_priority_order(m: ExecModel, a: int, b: int, r: Option<int>)
    requires
        wf(m),
        valid_task(m, a),
        valid_task(m, b),
        m.pending[a],
        m.tasks[a].pri > m.tasks[b].pri,
        is_pick(m, r),
    ensures
        r != Some(b),
{
    if r == Some(b) {
        assert(dispatchable(m, b));
        assert(dispatchable(m, a));
        assert(m.tasks[a].pri <= m.tasks[b].pri);
        assert(false);
    }
}

/// Priority ordering, running part: a task at or below the running
/// task's priority cannot preempt, so the running task completes before
/// any such task starts or resumes.
pub proof fn lemma_running_masks_lower(m: ExecModel, b: int)
    requires
        wf(m),
        running(m),
        valid_task(m, b),
        m.tasks[b].pri <= m.tasks[top_task(m)].pri,
    ensures
        !dispatchable(m, b),
{
    assert(m.cur >= m.tasks[top_task(m)].pri);
}

/// No lost signal: a signal arriving while its task is masked is
/// latched — and only that latch moves — yet the task is not started
/// while the mask lasts.
pub proof fn lemma_no_lost_signal(m: ExecModel, t: int)
    requires
        wf(m),
        valid_task(m, t),
        m.tasks[t].pri <= m.cur,
    ensures
        wf(signal_t(m, t)),
        signal_t(m, t).pending[t],
        !dispatchable(signal_t(m, t), t),
        forall|u: int|
            0 <= u < m.pending.len() && u != t ==> signal_t(m, t).pending[u] == m.pending[u],
{
    lemma_signal_wf(m, t);
}

/// Unmasking services the latch: when releasing a lock drops the
/// current priority below the latched task's, and no pending task
/// outranks it, that task is the dispatcher's next choice.
pub proof fn lemma_unmasked_signal_picked(m: ExecModel, t: int)
    requires
        wf(m),
        m.locks.len() > 0,
        m.locks.last().frame == m.frames.len() - 1,
        valid_task(m, t),
        m.pending[t],
        m.tasks[t].pri > release_t(m).cur,
        forall|j: int|
            dispatchable(release_t(m), j) ==> m.tasks[j].pri <= m.tasks[t].pri,
    ensures
        wf(release_t(m)),
        is_pick(release_t(m), Some(t)),
{
    crate::model::lemma_release_wf(m);
}

/// Exactly-once service: once the latched task is the dispatcher's
/// choice, dispatching it clears the latch, and the dispatcher can never
/// choose it again until a fresh signal arrives.
pub proof fn lemma_serviced_exactly_once(m: ExecModel, t: int)
    requires
        wf(m),
        dispatchable(m, t),
        forall|j: int| dispatchable(m, j) ==> m.tasks[j].pri <= m.tasks[t].pri,
    ensures
        is_pick(m, Some(t)),
        !enter_t(m, t).pending[t],
        forall|r: Option<int>| is_pick(enter_t(m, t), r) ==> r != Some(t),
{
    let m1 = enter_t(m, t);
    assert(!m1.pending[t]);
    assert forall|r: Option<int>| is_pick(m1, r) implies r != Some(t) by {
        if r == Some(t) {
            assert(dispatchable(m1, t));
            assert(false);
        }
    }
}

/// The idle loop runs exactly when the pending set is empty and the
/// current priority is at its minimum — equivalently, when nothing is
/// running and the dispatcher has nothing to choose.
pub proof fn lemma_idle_iff(m: ExecModel)
    requires
        wf(m),
    ensures
        idle_ready(m) <==> (!running(m) && is_pick(m, None)),
{
    if idle_ready(m) {
        if running(m) {
            assert(valid_task(m, top_task(m)));
            assert(m.tasks[top_task(m)].pri >= 1);
            assert(m.cur >= m.tasks[top_task(m)].pri);
            assert(false);
        }
        assert forall|j: int| !dispatchable(m, j) by {
            if dispatchable(m, j) {
                assert(m.pending[j]);
                assert(false);
            }
        }
    }
    if !running(m) && is_pick(m, None) {
        assert(m.cur == 0);
        assert forall|t: int| 0 <= t < m.pending.len() implies !m.pending[t] by {
            if m.pending[t] {
                assert(m.tasks[t].pri >= 1);
                assert(dispatchable(m, t));
                assert(false);
            }
        }
    }
}

/// Stack discipline: releasing a lock restores the current priority —
/// and the whole state — to exactly what it was before the acquire. This
/// holds at any nesting depth; the triple-nested form is stated
/// alongside the single step.
pub proof fn lemma_lock_stack_discipline(m: ExecModel, c1: int, c2: int, c3: int)
    ensures
        release_t(acquire_t(m, c1)) == m,
        release_t(acquire_t(m, c1)).cur == m.cur,
        release_t(release_t(release_t(acquire_t(acquire_t(acquire_t(m, c1), c2), c3)))) == m,
{
    let m1 = acquire_t(m, c1);
    let m2 = acquire_t(m1, c2);
    let m3 = acquire_t(m2, c3);
    assert(release_t(m3) =~= m2);
    assert(release_t(m2) =~= m1);
    assert(release_t(m1) =~= m);
}

} // verus!
