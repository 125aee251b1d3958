//! The mathematical model of the executor.
//!
//! Every executable structure in this crate has a view into these ghost
//! types, and every executable transition is pinned, in its `ensures`, to
//! one of the transition functions below. The laws in [`crate::laws`] are
//! stated and proved over this model alone.

use vstd::prelude::*;

verus! {

/// A task as the dispatcher sees it: the interrupt line it is bound to
/// and its static priority (higher = more urgent; 0 is reserved for the
/// idle loop and is never a task priority).
#[verifier::ext_equal]
pub struct TaskModel {
    pub irq: int,
    pub pri: int,
}

/// A resource cell: a shared value, the static ceiling under which it may
/// be touched, and the indices of the tasks allowed to lock it.
#[verifier::ext_equal]
pub struct CellModel {
    pub value: int,
    pub ceiling: int,
    pub users: Seq<int>,
}

/// One entry of the preemption stack: a task that is running or was
/// preempted, and the current priority at the instant it started.
#[verifier::ext_equal]
pub struct FrameModel {
    pub task: int,
    pub saved: int,
}

/// One entry of the lock stack: the locked cell, the current priority
/// immediately before the acquire, and the frame that holds the lock.
#[verifier::ext_equal]
pub struct LockModel {
    pub cell: int,
    pub saved: int,
    pub frame: int,
}

/// The whole executor state: the static configuration (tasks, cells), the
/// pending set, the current priority, the preemption stack and the lock
/// stack.
#[verifier::ext_equal]
pub struct ExecModel {
    pub tasks: Seq<TaskModel>,
    pub cells: Seq<CellModel>,
    pub pending: Seq<bool>,
    pub cur: int,
    pub frames: Seq<FrameModel>,
    pub locks: Seq<LockModel>,
}

pub open spec fn valid_task(m: ExecModel, t: int) -> bool {
    0 <= t < m.tasks.len()
}

pub open spec fn valid_cell(m: ExecModel, c: int) -> bool {
    0 <= c < m.cells.len()
}

/// Task `t` is among the tasks allowed to lock cell `c`.
pub open spec fn uses(m: ExecModel, t: int, c: int) -> bool {
    m.cells[c].users.contains(t)
}

/// Some execution context currently holds a lock on cell `c`.
pub open spec fn locked(m: ExecModel, c: int) -> bool {
    exists|k: int| 0 <= k < m.locks.len() && m.locks[k].cell == c
}

/// A task is running or preempted (the preemption stack is not empty).
pub open spec fn running(m: ExecModel) -> bool {
    m.frames.len() > 0
}

/// The task of the innermost frame: the one currently executing.
pub open spec fn top_task(m: ExecModel) -> int {
    m.frames[m.frames.len() - 1].task
}

/// The innermost frame holds a lock on cell `c`.
pub open spec fn holds_lock(m: ExecModel, c: int) -> bool {
    exists|k: int|
        0 <= k < m.locks.len() && m.locks[k].cell == c && m.locks[k].frame == m.frames.len() - 1
}

/// Task `t` could be dispatched right now: it is pending and its priority
/// exceeds the current one.
pub open spec fn dispatchable(m: ExecModel, t: int) -> bool {
    valid_task(m, t) && m.pending[t] && m.tasks[t].pri > m.cur
}

/// `r` is the dispatcher's choice: the highest-priority dispatchable task,
/// or nothing when no pending task exceeds the current priority.
pub open spec fn is_pick(m: ExecModel, r: Option<int>) -> bool {
    match r {
        Some(t) => dispatchable(m, t) && forall|j: int|
            dispatchable(m, j) ==> m.tasks[j].pri <= m.tasks[t].pri,
        None => forall|j: int| !dispatchable(m, j),
    }
}

/// No task is pending.
pub open spec fn pending_none(m: ExecModel) -> bool {
    forall|t: int| 0 <= t < m.pending.len() ==> !m.pending[t]
}

/// The idle loop is eligible to run: nothing pending and the current
/// priority at its minimum.
pub open spec fn idle_ready(m: ExecModel) -> bool {
    pending_none(m) && m.cur == 0
}

/// The running context holds no lock, so it may return.
pub open spec fn top_lock_free(m: ExecModel) -> bool {
    forall|k: int| 0 <= k < m.locks.len() ==> m.locks[k].frame != m.frames.len() - 1
}

/// The ceiling of a set of users: the greatest static priority among them
/// (0 when the set is empty).
pub open spec fn ceiling_of(tasks: Seq<TaskModel>, users: Seq<int>) -> int
    decreases users.len(),
{
    if users.len() == 0 {
        0
    } else {
        let rest = ceiling_of(tasks, users.drop_last());
        let p = tasks[users.last()].pri;
        if p > rest {
            p
        } else {
            rest
        }
    }
}

/// The ceiling of a non-empty user set whose tasks all carry positive
/// priorities is the priority of one of them, and no user exceeds it.
pub proof fn lemma_ceiling_of_bounds(tasks: Seq<TaskModel>, users: Seq<int>)
    requires
        users.len() > 0,
        forall|k: int|
            0 <= k < users.len() ==> 0 <= #[trigger] users[k] < tasks.len()
                && tasks[users[k]].pri >= 1,
    ensures
        forall|k: int|
            0 <= k < users.len() ==> tasks[#[trigger] users[k]].pri <= ceiling_of(tasks, users),
        exists|k: int|
            0 <= k < users.len() && tasks[#[trigger] users[k]].pri == ceiling_of(tasks, users),
    decreases users.len(),
{
    let rest = users.drop_last();
    let p = tasks[users.last()].pri;
    if rest.len() == 0 {
        assert(ceiling_of(tasks, rest) == 0);
        assert(tasks[users[users.len() - 1]].pri == ceiling_of(tasks, users));
    } else {
        assert(forall|k: int| 0 <= k < rest.len() ==> #[trigger] rest[k] == users[k]);
        lemma_ceiling_of_bounds(tasks, rest);
        let w = choose|k: int|
            0 <= k < rest.len() && tasks[#[trigger] rest[k]].pri == ceiling_of(tasks, rest);
        if p > ceiling_of(tasks, rest) {
            assert(tasks[users[users.len() - 1]].pri == ceiling_of(tasks, users));
        } else {
            assert(tasks[users[w]].pri == ceiling_of(tasks, users));
        }
        assert forall|k: int|
            0 <= k < users.len() implies tasks[#[trigger] users[k]].pri <= ceiling_of(
            tasks,
            users,
        ) by {
            if k < users.len() - 1 {
                assert(rest[k] == users[k]);
            }
        }
    }
}

/// Well-formedness of the static part: priorities are positive, fit a
/// byte, and are unique; interrupt bindings are unique.
pub open spec fn wf_tasks(m: ExecModel) -> bool {
    &&& forall|i: int| 0 <= i < m.tasks.len() ==> 1 <= #[trigger] m.tasks[i].pri <= 255
    &&& forall|i: int, j: int|
        0 <= i < m.tasks.len() && 0 <= j < m.tasks.len() && i != j ==> #[trigger] m.tasks[i].irq
            != #[trigger] m.tasks[j].irq && m.tasks[i].pri != m.tasks[j].pri
}

/// Well-formedness of the cells: each has at least one user, its value
/// fits the machine word, and its ceiling is exactly the greatest priority
/// among its users.
pub open spec fn wf_cells(m: ExecModel) -> bool {
    forall|c: int| 0 <= c < m.cells.len() ==> wf_cell(m, #[trigger] m.cells[c])
}

/// One cell's conditions, against the table in `m`.
pub open spec fn wf_cell(m: ExecModel, cell: CellModel) -> bool {
    &&& 1 <= cell.ceiling <= 255
    &&& 0 <= cell.value < 0x1_0000_0000
    &&& cell.users.len() > 0
    &&& forall|k: int|
        0 <= k < cell.users.len() ==> valid_task(m, #[trigger] cell.users[k])
            && m.tasks[cell.users[k]].pri <= cell.ceiling
    &&& exists|k: int|
        0 <= k < cell.users.len() && m.tasks[#[trigger] cell.users[k]].pri == cell.ceiling
}

/// Well-formedness of the dynamic scheduler state: the pending set covers
/// the tasks; the current priority sits above the running task and above
/// every held ceiling; frames record a properly nested preemption history.
pub open spec fn wf_sched(m: ExecModel) -> bool {
    &&& m.pending.len() == m.tasks.len()
    &&& 0 <= m.cur <= 255
    &&& (m.frames.len() == 0 ==> m.cur == 0 && m.locks.len() == 0)
    &&& (m.frames.len() > 0 ==> m.cur >= m.tasks[top_task(m)].pri)
    &&& forall|i: int| 0 <= i < m.frames.len() ==> valid_task(m, #[trigger] m.frames[i].task)
    &&& (m.frames.len() > 0 ==> m.frames[0].saved == 0)
    &&& forall|i: int| 0 <= i < m.frames.len() ==> 0 <= #[trigger] m.frames[i].saved <= 255
    &&& forall|i: int|
        0 <= i < m.frames.len() ==> #[trigger] m.frames[i].saved < m.tasks[m.frames[i].task].pri
    &&& forall|i: int|
        1 <= i < m.frames.len() ==> #[trigger] m.frames[i].saved >= m.tasks[m.frames[i
            - 1].task].pri
}

/// Well-formedness of the lock stack: every lock sits on a valid cell, is
/// held by a live frame that is allowed to use that cell, and masks the
/// current priority up to its ceiling; locks nest with the frames, no cell
/// is locked twice, and each recorded pre-acquire priority dominates every
/// ceiling taken earlier, so that releases unwind correctly.
pub open spec fn wf_locks(m: ExecModel) -> bool {
    &&& forall|k: int| 0 <= k < m.locks.len() ==> wf_lock(m, #[trigger] m.locks[k])
    &&& forall|j: int, k: int|
        0 <= j < k < m.locks.len() ==> #[trigger] m.locks[j].frame <= #[trigger] m.locks[k].frame
            && m.locks[k].saved >= m.cells[m.locks[j].cell].ceiling && m.locks[j].cell
            != m.locks[k].cell
    &&& forall|k: int, i: int|
        0 <= k < m.locks.len() && m.locks[k].frame < i < m.frames.len()
            ==> #[trigger] m.frames[i].saved >= m.cells[#[trigger] m.locks[k].cell].ceiling
}

/// One lock entry's conditions, against the frames and cells in `m`.
pub open spec fn wf_lock(m: ExecModel, l: LockModel) -> bool {
    &&& valid_cell(m, l.cell)
    &&& 0 <= l.frame < m.frames.len()
    &&& uses(m, m.frames[l.frame].task, l.cell)
    &&& m.cur >= m.cells[l.cell].ceiling
    &&& l.saved >= m.tasks[m.frames[l.frame].task].pri
    &&& 0 <= l.saved <= 255
}

/// The executor invariant: established at start-up and preserved by every
/// transition.
pub open spec fn wf(m: ExecModel) -> bool {
    wf_tasks(m) && wf_cells(m) && wf_sched(m) && wf_locks(m)
}

/// A hardware or software signal for task `t`: the pending latch is set;
/// nothing else moves, in particular a signal is never lost and never
/// duplicated (the latch is idempotent).
pub open spec fn signal_t(m: ExecModel, t: int) -> ExecModel {
    ExecModel { pending: m.pending.update(t, true), ..m }
}

/// Dispatch of task `t`: its latch is cleared, the preempted context is
/// pushed with the priority it ran at, and the current priority becomes
/// the task's own.
pub open spec fn enter_t(m: ExecModel, t: int) -> ExecModel {
    ExecModel {
        pending: m.pending.update(t, false),
        frames: m.frames.push(FrameModel { task: t, saved: m.cur }),
        cur: m.tasks[t].pri,
        ..m
    }
}

/// Normal return of the running task: its frame is popped and the
/// priority saved at dispatch is restored.
pub open spec fn finish_t(m: ExecModel) -> ExecModel {
    ExecModel {
        frames: m.frames.drop_last(),
        cur: m.frames.last().saved,
        ..m
    }
}

/// Lock acquisition on cell `c` by the running context: the pre-acquire
/// priority is recorded and the current priority rises to at least the
/// cell's ceiling. Granting is immediate — the raise itself is the
/// exclusion mechanism, so there is nothing to block on.
pub open spec fn acquire_t(m: ExecModel, c: int) -> ExecModel {
    ExecModel {
        locks: m.locks.push(
            LockModel { cell: c, saved: m.cur, frame: m.frames.len() - 1 },
        ),
        cur: if m.cells[c].ceiling > m.cur {
            m.cells[c].ceiling
        } else {
            m.cur
        },
        ..m
    }
}

/// Lock release: the innermost lock is popped and the current priority
/// returns to exactly its pre-acquire value (stack discipline).
pub open spec fn release_t(m: ExecModel) -> ExecModel {
    ExecModel { locks: m.locks.drop_last(), cur: m.locks.last().saved, ..m }
}

/// Write of `v` into cell `c`; ceiling and users are static and keep
/// their values.
pub open spec fn cell_write_t(m: ExecModel, c: int, v: int) -> ExecModel {
    ExecModel {
        cells: m.cells.update(c, CellModel { value: v, ..m.cells[c] }),
        ..m
    }
}

/// Wrap-around of a sum of two machine words into the word range.
pub open spec fn wrap32(v: int) -> int {
    if v >= 0x1_0000_0000 {
        v - 0x1_0000_0000
    } else {
        v
    }
}

/// A signal moves only the addressed pending latch and keeps the
/// invariant.
pub proof fn lemma_signal_wf(m: ExecModel, t: int)
    requires
        wf(m),
        valid_task(m, t),
    ensures
        wf(signal_t(m, t)),
{
    let m1 = signal_t(m, t);
    assert forall|c: int| 0 <= c < m1.cells.len() implies wf_cell(m1, #[trigger] m1.cells[c]) by {
        assert(wf_cell(m, m.cells[c]));
    }
    assert forall|k: int| 0 <= k < m1.locks.len() implies wf_lock(m1, #[trigger] m1.locks[k]) by {
        assert(wf_lock(m, m.locks[k]));
    }
}

/// Dispatching a task that is pending and outranks the current priority
/// keeps the invariant.
pub proof fn lemma_enter_wf(m: ExecModel, t: int)
    requires
        wf(m),
        dispatchable(m, t),
    ensures
        wf(enter_t(m, t)),
{
    let m1 = enter_t(m, t);
    assert forall|c: int| 0 <= c < m1.cells.len() implies wf_cell(m1, #[trigger] m1.cells[c]) by {
        assert(wf_cell(m, m.cells[c]));
    }
    assert forall|i: int| 0 <= i < m1.frames.len() implies valid_task(
        m1,
        #[trigger] m1.frames[i].task,
    ) by {
        if i < m.frames.len() {
            assert(valid_task(m, m.frames[i].task));
        }
    }
    assert forall|i: int|
        1 <= i < m1.frames.len() implies #[trigger] m1.frames[i].saved >= m1.tasks[m1.frames[i
        - 1].task].pri by {
        if i < m.frames.len() {
            assert(m.frames[i].saved >= m.tasks[m.frames[i - 1].task].pri);
        }
    }
    assert forall|k: int| 0 <= k < m1.locks.len() implies wf_lock(m1, #[trigger] m1.locks[k]) by {
        assert(wf_lock(m, m.locks[k]));
        assert(m1.frames[m1.locks[k].frame] == m.frames[m.locks[k].frame]);
    }
    assert forall|k: int, i: int|
        0 <= k < m1.locks.len() && m1.locks[k].frame < i < m1.frames.len()
        implies #[trigger] m1.frames[i].saved >= m1.cells[#[trigger] m1.locks[k].cell].ceiling by {
        assert(wf_lock(m, m.locks[k]));
        if i < m.frames.len() {
            assert(m.frames[i].saved >= m.cells[m.locks[k].cell].ceiling);
        } else {
            assert(m1.frames[i].saved == m.cur);
        }
    }
}

/// A task that returns with no lock of its own left open pops its frame
/// and keeps the invariant.
pub proof fn lemma_finish_wf(m: ExecModel)
    requires
        wf(m),
        running(m),
        top_lock_free(m),
    ensures
        wf(finish_t(m)),
{
    let m1 = finish_t(m);
    assert forall|c: int| 0 <= c < m1.cells.len() implies wf_cell(m1, #[trigger] m1.cells[c]) by {
        assert(wf_cell(m, m.cells[c]));
    }
    if m1.frames.len() == 0 {
        if m.locks.len() > 0 {
            assert(wf_lock(m, m.locks[0]));
            assert(false);
        }
    } else {
        assert(m.frames.last().saved >= m.tasks[m.frames[m.frames.len() - 2].task].pri);
    }
    assert forall|k: int| 0 <= k < m1.locks.len() implies wf_lock(m1, #[trigger] m1.locks[k]) by {
        assert(wf_lock(m, m.locks[k]));
        assert(m.locks[k].frame != m.frames.len() - 1);
        assert(m.frames.last().saved >= m.cells[m.locks[k].cell].ceiling);
        assert(m1.frames[m1.locks[k].frame] == m.frames[m.locks[k].frame]);
    }
}

/// Acquiring a free cell from the running context records the current
/// priority, raises it to at least the ceiling, and keeps the invariant.
pub proof fn lemma_acquire_wf(m: ExecModel, c: int)
    requires
        wf(m),
        running(m),
        valid_cell(m, c),
        uses(m, top_task(m), c),
        !locked(m, c),
    ensures
        wf(acquire_t(m, c)),
{
    let m1 = acquire_t(m, c);
    assert forall|cc: int| 0 <= cc < m1.cells.len() implies wf_cell(
        m1,
        #[trigger] m1.cells[cc],
    ) by {
        assert(wf_cell(m, m.cells[cc]));
    }
    assert forall|k: int| 0 <= k < m1.locks.len() implies wf_lock(m1, #[trigger] m1.locks[k]) by {
        if k < m.locks.len() {
            assert(wf_lock(m, m.locks[k]));
        }
    }
    assert forall|j: int, k: int|
        0 <= j < k < m1.locks.len() implies #[trigger] m1.locks[j].frame
        <= #[trigger] m1.locks[k].frame && m1.locks[k].saved >= m1.cells[m1.locks[j].cell].ceiling
        && m1.locks[j].cell != m1.locks[k].cell by {
        assert(wf_lock(m, m.locks[j]));
        if k < m.locks.len() {
            assert(m.locks[j].frame <= m.locks[k].frame);
            assert(m.locks[k].saved >= m.cells[m.locks[j].cell].ceiling);
            assert(m.locks[j].cell != m.locks[k].cell);
        }
    }
    assert forall|k: int, i: int|
        0 <= k < m1.locks.len() && m1.locks[k].frame < i < m1.frames.len()
        implies #[trigger] m1.frames[i].saved >= m1.cells[#[trigger] m1.locks[k].cell].ceiling by {
        if k < m.locks.len() {
            assert(m.frames[i].saved >= m.cells[m.locks[k].cell].ceiling);
        }
    }
}

/// Releasing the innermost lock — necessarily one held by the running
/// context — restores its recorded priority and keeps the invariant.
pub proof fn lemma_release_wf(m: ExecModel)
    requires
        wf(m),
        m.locks.len() > 0,
        m.locks.last().frame == m.frames.len() - 1,
    ensures
        wf(release_t(m)),
{
    let m1 = release_t(m);
    let last = m.locks.last();
    assert(wf_lock(m, last));
    assert forall|c: int| 0 <= c < m1.cells.len() implies wf_cell(m1, #[trigger] m1.cells[c]) by {
        assert(wf_cell(m, m.cells[c]));
    }
    assert(m1.cur >= m.tasks[m.frames[last.frame].task].pri);
    assert forall|k: int| 0 <= k < m1.locks.len() implies wf_lock(m1, #[trigger] m1.locks[k]) by {
        assert(wf_lock(m, m.locks[k]));
        assert(last.saved >= m.cells[m.locks[k].cell].ceiling);
    }
}

/// Writing a value into a cell moves nothing but that value and keeps
/// the invariant.
pub proof fn lemma_cell_write_wf(m: ExecModel, c: int, v: int)
    requires
        wf(m),
        valid_cell(m, c),
        0 <= v < 0x1_0000_0000,
    ensures
        wf(cell_write_t(m, c, v)),
{
    let m1 = cell_write_t(m, c, v);
    assert forall|cc: int| 0 <= cc < m1.cells.len() implies wf_cell(
        m1,
        #[trigger] m1.cells[cc],
    ) by {
        assert(wf_cell(m, m.cells[cc]));
        if cc == c {
            let old_cell = m.cells[c];
            let new_cell = m1.cells[c];
            assert(new_cell.users == old_cell.users);
            assert(new_cell.ceiling == old_cell.ceiling);
            let w = choose|k: int|
                0 <= k < old_cell.users.len() && m.tasks[#[trigger] old_cell.users[k]].pri
                    == old_cell.ceiling;
            assert(m1.tasks[new_cell.users[w]].pri == new_cell.ceiling);
        }
    }
    assert forall|k: int| 0 <= k < m1.locks.len() implies wf_lock(m1, #[trigger] m1.locks[k]) by {
        assert(wf_lock(m, m.locks[k]));
        assert(m1.cells[m1.locks[k].cell].ceiling == m.cells[m.locks[k].cell].ceiling);
    }
    assert forall|j: int, k: int|
        0 <= j < k < m1.locks.len() implies #[trigger] m1.locks[j].frame
        <= #[trigger] m1.locks[k].frame && m1.locks[k].saved >= m1.cells[m1.locks[j].cell].ceiling
        && m1.locks[j].cell != m1.locks[k].cell by {
        assert(wf_lock(m, m.locks[j]));
        assert(m.locks[j].frame <= m.locks[k].frame);
        assert(m.locks[k].saved >= m.cells[m.locks[j].cell].ceiling);
        assert(m.locks[j].cell != m.locks[k].cell);
    }
    assert forall|k: int, i: int|
        0 <= k < m1.locks.len() && m1.locks[k].frame < i < m1.frames.len()
        implies #[trigger] m1.frames[i].saved >= m1.cells[#[trigger] m1.locks[k].cell].ceiling by {
        assert(wf_lock(m, m.locks[k]));
        assert(m.frames[i].saved >= m.cells[m.locks[k].cell].ceiling);
    }
}

} // verus!
