//! Whole-run corollaries: the per-transition laws of [`crate::laws`],
//! extended by induction to arbitrary sequences of enabled scheduler
//! events, so that they hold at any instant of any execution.

use vstd::prelude::*;

use crate::laws::lemma_priority_order;
use crate::model::{
    acquire_t, cell_write_t, dispatchable, enter_t, finish_t, holds_lock, is_pick,
    lemma_acquire_wf, lemma_cell_write_wf, lemma_enter_wf, lemma_finish_wf, lemma_release_wf,
    lemma_signal_wf, locked, release_t, running, signal_t, top_lock_free, top_task, uses,
    valid_cell, valid_task, wf, ExecModel,
};

verus! {

/// One scheduler event: a hardware or software signal, a dispatch, a
/// normal return, a lock acquire or release, or a write under a lock.
pub enum Event {
    Sig { t: int },
    Disp { t: int },
    Fin,
    Acq { c: int },
    Rel,
    Wr { c: int, v: int },
}

/// The event's enabling condition: exactly the `requires` of the
/// executable transition that performs it.
pub open spec fn enabled(m: ExecModel, e: Event) -> bool {
    match e {
        Event::Sig { t } => valid_task(m, t),
        Event::Disp { t } => is_pick(m, Some(t)),
        Event::Fin => running(m) && top_lock_free(m),
        Event::Acq { c } => running(m) && valid_cell(m, c) && uses(m, top_task(m), c)
            && !locked(m, c),
        Event::Rel => m.locks.len() > 0 && m.locks.last().frame == m.frames.len() - 1,
        Event::Wr { c, v } => valid_cell(m, c) && holds_lock(m, c) && 0 <= v < 0x1_0000_0000,
    }
}

/// The event's effect: the model transition it performs.
pub open spec fn step(m: ExecModel, e: Event) -> ExecModel {
    match e {
        Event::Sig { t } => signal_t(m, t),
        Event::Disp { t } => enter_t(m, t),
        Event::Fin => finish_t(m),
        Event::Acq { c } => acquire_t(m, c),
        Event::Rel => release_t(m),
        Event::Wr { c, v } => cell_write_t(m, c, v),
    }
}

/// The state after running a whole event sequence from `m`.
pub open spec fn run(m: ExecModel, es: Seq<Event>) -> ExecModel
    decreases es.len(),
{
    if es.len() == 0 {
        m
    } else {
        step(run(m, es.drop_last()), es.last())
    }
}

/// Every event of the sequence is enabled in the state it meets.
pub open spec fn all_enabled(m: ExecModel, es: Seq<Event>) -> bool
    decreases es.len(),
{
    if es.len() == 0 {
        true
    } else {
        all_enabled(m, es.drop_last()) && enabled(run(m, es.drop_last()), es.last())
    }
}

/// The event dispatches task `t`.
pub open spec fn dispatches(e: Event, t: int) -> bool {
    match e {
        Event::Disp { t: u } => u == t,
        _ => false,
    }
}

/// Invariance: the executor invariant holds in every state reachable
/// from a well-formed one through enabled events, and the dispatch
/// table never moves.
pub proof fn lemma_run_wf(m: ExecModel, es: Seq<Event>)
    requires
        wf(m),
        all_enabled(m, es),
    ensures
        wf(run(m, es)),
        run(m, es).tasks == m.tasks,
        run(m, es).pending.len() == m.pending.len(),
    decreases es.len(),
{
    if es.len() > 0 {
        lemma_run_wf(m, es.drop_last());
        let mp = run(m, es.drop_last());
        match es.last() {
            Event::Sig { t } => lemma_signal_wf(mp, t),
            Event::Disp { t } => lemma_enter_wf(mp, t),
            Event::Fin => lemma_finish_wf(mp),
            Event::Acq { c } => lemma_acquire_wf(mp, c),
            Event::Rel => lemma_release_wf(mp),
            Event::Wr { c, v } => lemma_cell_write_wf(mp, c, v),
        }
    }
}

/// Each prefix of an enabled run is an enabled run, and the event after
/// it is enabled in the state the prefix reaches.
pub proof fn lemma_enabled_at(m: ExecModel, es: Seq<Event>, i: int)
    requires
        all_enabled(m, es),
        0 <= i < es.len(),
    ensures
        all_enabled(m, es.take(i)),
        enabled(run(m, es.take(i)), es[i]),
    decreases es.len(),
{
    if i == es.len() - 1 {
        assert(es.take(i) =~= es.drop_last());
    } else {
        lemma_enabled_at(m, es.drop_last(), i);
        assert(es.drop_last().take(i) =~= es.take(i));
    }
}

/// No lost signal, over whole runs: a latched task stays latched
/// through every enabled event until the step that dispatches it.
pub proof fn lemma_signal_persists(m: ExecModel, es: Seq<Event>, a: int)
    requires
        wf(m),
        all_enabled(m, es),
        valid_task(m, a),
        m.pending[a],
        forall|j: int| 0 <= j < es.len() ==> !dispatches(#[trigger] es[j], a),
    ensures
        run(m, es).pending[a],
    decreases es.len(),
{
    if es.len() > 0 {
        let pre = es.drop_last();
        assert(forall|j: int| 0 <= j < pre.len() ==> pre[j] == es[j]);
        lemma_signal_persists(m, pre, a);
        lemma_run_wf(m, pre);
        let mp = run(m, pre);
        match es.last() {
            Event::Sig { t } => {
                assert(run(m, es).pending[a]);
            },
            Event::Disp { t } => {
                assert(!dispatches(es[es.len() - 1], a));
                assert(t != a);
                assert(run(m, es).pending[a]);
            },
            Event::Fin => {},
            Event::Acq { c } => {},
            Event::Rel => {},
            Event::Wr { c, v } => {},
        }
    }
}

/// Priority ordering, over whole runs: from any well-formed state in
/// which task `a` is latched, no enabled run can dispatch a task of
/// lower priority than `a` at any step before the one that dispatches
/// `a` itself.
pub proof fn lemma_no_low_dispatch_while_high_pending(
    m: ExecModel,
    es: Seq<Event>,
    a: int,
    b: int,
    i: int,
)
    requires
        wf(m),
        all_enabled(m, es),
        valid_task(m, a),
        valid_task(m, b),
        m.pending[a],
        m.tasks[a].pri > m.tasks[b].pri,
        0 <= i < es.len(),
        forall|j: int| 0 <= j < i ==> !dispatches(#[trigger] es[j], a),
    ensures
        !dispatches(es[i], b),
{
    let pre = es.take(i);
    lemma_enabled_at(m, es, i);
    assert(forall|j: int| 0 <= j < pre.len() ==> pre[j] == es[j]);
    lemma_signal_persists(m, pre, a);
    lemma_run_wf(m, pre);
    let mi = run(m, pre);
    if dispatches(es[i], b) {
        assert(is_pick(mi, Some(b)));
        lemma_priority_order(mi, a, b, Some(b));
        assert(false);
    }
}

} // verus!
