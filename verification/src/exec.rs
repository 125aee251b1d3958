//! The executable executor: the dispatcher, the lock protocol and the
//! resource cells, each transition pinned to its model counterpart.

use vstd::prelude::*;

use crate::config::{CellState, Config, TaskEntry};
use crate::model::{
    acquire_t, cell_write_t, dispatchable, enter_t, finish_t, holds_lock, idle_ready, is_pick,
    lemma_acquire_wf, lemma_cell_write_wf, lemma_enter_wf, lemma_finish_wf, lemma_release_wf,
    lemma_signal_wf, locked, release_t, running, signal_t, top_lock_free, top_task, uses,
    valid_cell, valid_task, wf, wrap32, ExecModel, FrameModel, LockModel,
};

verus! {

/// The capability returned by a lock acquisition: the locked cell and the
/// current priority recorded immediately before the acquire. Reading or
/// writing a cell requires a guard for it, and releasing hands the guard
/// back, so the value cannot be touched outside the lock's scope.
pub struct Guard {
    pub cell: usize,
    pub saved: u8,
}

/// One preemption-stack entry: a dispatched task and the current priority
/// at the instant it preempted.
pub struct Frame {
    pub task: usize,
    pub saved: u8,
}

impl View for Frame {
    type V = FrameModel;

    open spec fn view(&self) -> FrameModel {
        FrameModel { task: self.task as int, saved: self.saved as int }
    }
}

/// One lock-stack entry: the locked cell, the pre-acquire priority, and
/// the index of the frame holding the lock.
pub struct LockEntry {
    pub cell: usize,
    pub saved: u8,
    pub frame: usize,
}

impl View for LockEntry {
    type V = LockModel;

    open spec fn view(&self) -> LockModel {
        LockModel { cell: self.cell as int, saved: self.saved as int, frame: self.frame as int }
    }
}

/// The executor: the immutable dispatch table and cells, the pending
/// latches, the current priority, the preemption stack and the lock
/// stack. There is exactly one of these per system, created once at
/// start-up and never torn down.
pub struct Executor {
    pub tasks: Vec<TaskEntry>,
    pub cells: Vec<CellState>,
    pub pending: Vec<bool>,
    pub cur: u8,
    pub frames: Vec<Frame>,
    pub locks: Vec<LockEntry>,
}

impl View for Executor {
    type V = ExecModel;

    open spec fn view(&self) -> ExecModel {
        ExecModel {
            tasks: self.tasks@.map_values(|t: TaskEntry| t@),
            cells: self.cells@.map_values(|c: CellState| c@),
            pending: self.pending@,
            cur: self.cur as int,
            frames: self.frames@.map_values(|f: Frame| f@),
            locks: self.locks@.map_values(|l: LockEntry| l@),
        }
    }
}

impl Executor {
    /// Takes over from the configuration phase: the table and cells are
    /// frozen, nothing is pending, the priority is at its minimum and
    /// nothing runs. Called exactly once; from here on the executor owns
    /// the control flow.
    pub fn start(cfg: Config) -> (e: Executor)
        ensures
            e@ == cfg@,
    {
        let n = cfg.tasks.len();
        let mut pending: Vec<bool> = Vec::new();
        let mut i: usize = 0;
        while i < n
            invariant
                i <= n,
                pending@.len() == i,
                forall|j: int| 0 <= j < i ==> !(#[trigger] pending@[j]),
            decreases n - i,
        {
            pending.push(false);
            i += 1;
        }
        let e = Executor {
            tasks: cfg.tasks,
            cells: cfg.cells,
            pending,
            cur: 0,
            frames: Vec::new(),
            locks: Vec::new(),
        };
        proof {
            assert(e@.pending =~= cfg@.pending);
            assert(e@.frames =~= cfg@.frames);
            assert(e@.locks =~= cfg@.locks);
            assert(e@ =~= cfg@);
        }
        e
    }

    /// A signal for the task bound to interrupt line `irq`, from hardware
    /// or — for startup priming — from software: its pending latch is
    /// set. Returns the task's index, or `None` when the line is not
    /// bound (the signal is then ignored).
    pub fn pend(&mut self, irq: u16) -> (r: Option<usize>)
        requires
            wf(old(self)@),
        ensures
            wf(final(self)@),
            match r {
                Some(i) => valid_task(old(self)@, i as int) && old(self)@.tasks[i as int].irq
                    == irq && final(self)@ == signal_t(old(self)@, i as int),
                None => (forall|j: int|
                    0 <= j < old(self)@.tasks.len() ==> #[trigger] old(self)@.tasks[j].irq
                        != irq) && final(self)@ == old(self)@,
            },
    {
        let n = self.tasks.len();
        let mut i: usize = 0;
        while i < n
            invariant
                *self == *old(self),
                wf(old(self)@),
                n == self.tasks.len(),
                i <= n,
                forall|j: int| 0 <= j < i ==> #[trigger] self@.tasks[j].irq != irq,
            decreases n - i,
        {
            if self.tasks[i].irq == irq {
                self.pending[i] = true;
                proof {
                    assert(self@ =~= signal_t(old(self)@, i as int));
                    lemma_signal_wf(old(self)@, i as int);
                }
                return Some(i);
            }
            i += 1;
        }
        None
    }

    /// True exactly when the idle loop is eligible: no task pending and
    /// the current priority at its minimum. The idle loop itself is
    /// application background work outside the executor; it takes no lock
    /// and is preempted by any signal.
    pub fn idle(&self) -> (r: bool)
        requires
            wf(self@),
        ensures
            r == idle_ready(self@),
    {
        if self.cur != 0 {
            return false;
        }
        let n = self.pending.len();
        let mut i: usize = 0;
        while i < n
            invariant
                n == self.pending.len(),
                i <= n,
                forall|j: int| 0 <= j < i ==> !(#[trigger] self@.pending[j]),
            decreases n - i,
        {
            if self.pending[i] {
                proof {
                    assert(self@.pending[i as int]);
                    assert(!crate::model::pending_none(self@));
                }
                return false;
            }
            i += 1;
        }
        true
    }

    /// The current execution priority: the level at or below which no
    /// task may preempt.
    pub fn current_priority(&self) -> (r: u8)
        ensures
            r as int == self@.cur,
    {
        self.cur
    }

    /// The task currently executing: the innermost preemption-stack
    /// entry, or `None` when only the idle loop is live.
    pub fn running_task(&self) -> (r: Option<usize>)
        ensures
            match r {
                Some(t) => running(self@) && t as int == top_task(self@),
                None => !running(self@),
            },
    {
        let n = self.frames.len();
        if n == 0 {
            None
        } else {
            Some(self.frames[n - 1].task)
        }
    }

    /// The dispatcher's choice: the highest-priority pending task whose
    /// priority exceeds the current one, or `None` when every pending
    /// task is masked (or none is pending). Choosing does not yet clear
    /// the latch; see [`Executor::dispatch`].
    pub fn next_task(&self) -> (r: Option<usize>)
        requires
            wf(self@),
        ensures
            match r {
                Some(i) => i < self@.tasks.len() && is_pick(self@, Some(i as int)),
                None => is_pick(self@, None),
            },
    {
        let n = self.tasks.len();
        let mut best: Option<usize> = None;
        let mut i: usize = 0;
        while i < n
            invariant
                wf(self@),
                n == self.tasks.len(),
                i <= n,
                match best {
                    Some(b) => b < n && dispatchable(self@, b as int) && (forall|j: int|
                        0 <= j < i && dispatchable(self@, j) ==> self@.tasks[j].pri
                            <= self@.tasks[b as int].pri),
                    None => forall|j: int| 0 <= j < i ==> !dispatchable(self@, j),
                },
            decreases n - i,
        {
            if self.pending[i] && self.tasks[i].pri > self.cur {
                match best {
                    Some(b) => {
                        if self.tasks[i].pri > self.tasks[b].pri {
                            best = Some(i);
                        }
                    },
                    None => {
                        best = Some(i);
                    },
                }
            }
            i += 1;
        }
        best
    }

    /// Runs the dispatcher once: the chosen task's latch is cleared —
    /// each signal is serviced exactly once — the preempted context is
    /// pushed, and the current priority rises to the task's. The caller
    /// then runs the task's entry function and reports its return
    /// through [`Executor::finish`].
    pub fn dispatch(&mut self) -> (r: Option<usize>)
        requires
            wf(old(self)@),
        ensures
            wf(final(self)@),
            match r {
                Some(i) => is_pick(old(self)@, Some(i as int)) && final(self)@ == enter_t(
                    old(self)@,
                    i as int,
                ),
                None => is_pick(old(self)@, None) && final(self)@ == old(self)@,
            },
    {
        match self.next_task() {
            Some(i) => {
                self.enter(i);
                Some(i)
            },
            None => None,
        }
    }

    /// Clears task `t`'s latch, pushes the preempted context and raises
    /// the current priority to the task's own.
    fn enter(&mut self, t: usize)
        requires
            wf(old(self)@),
            dispatchable(old(self)@, t as int),
        ensures
            wf(final(self)@),
            final(self)@ == enter_t(old(self)@, t as int),
    {
        let saved = self.cur;
        self.pending[t] = false;
        let pri = self.tasks[t].pri;
        self.frames.push(Frame { task: t, saved });
        self.cur = pri;
        proof {
            assert(self@.frames =~= old(self)@.frames.push(
                FrameModel { task: t as int, saved: saved as int },
            ));
            assert(self@ =~= enter_t(old(self)@, t as int));
            lemma_enter_wf(old(self)@, t as int);
        }
    }

    /// The running task has returned: its frame is popped and the
    /// priority it preempted at is restored. The task must first have
    /// released every lock it acquired (stack discipline).
    pub fn finish(&mut self)
        requires
            wf(old(self)@),
            running(old(self)@),
            top_lock_free(old(self)@),
        ensures
            wf(final(self)@),
            final(self)@ == finish_t(old(self)@),
    {
        let f = self.frames.pop().unwrap();
        self.cur = f.saved;
        proof {
            assert(self@.frames =~= old(self)@.frames.drop_last());
            assert(self@ =~= finish_t(old(self)@));
            lemma_finish_wf(old(self)@);
        }
    }

    /// Locks cell `c` for the running task: the pre-acquire priority is
    /// recorded in the returned guard and the current priority rises to
    /// at least the cell's ceiling, masking every task that could also
    /// lock `c`. Granting is immediate — nothing blocks, nothing spins,
    /// and no deadlock is possible.
    pub fn acquire(&mut self, c: usize) -> (g: Guard)
        requires
            wf(old(self)@),
            running(old(self)@),
            valid_cell(old(self)@, c as int),
            uses(old(self)@, top_task(old(self)@), c as int),
            !locked(old(self)@, c as int),
        ensures
            wf(final(self)@),
            final(self)@ == acquire_t(old(self)@, c as int),
            g.cell == c,
            g.saved as int == old(self)@.cur,
            holds_lock(final(self)@, c as int),
    {
        let saved = self.cur;
        let frame = self.frames.len() - 1;
        self.locks.push(LockEntry { cell: c, saved, frame });
        let ceil = self.cells[c].ceiling;
        if ceil > self.cur {
            self.cur = ceil;
        }
        proof {
            assert(self@.locks =~= old(self)@.locks.push(
                LockModel {
                    cell: c as int,
                    saved: saved as int,
                    frame: old(self)@.frames.len() - 1,
                },
            ));
            assert(self@ =~= acquire_t(old(self)@, c as int));
            lemma_acquire_wf(old(self)@, c as int);
            assert(self@.locks[self@.locks.len() - 1].cell == c as int);
        }
        Guard { cell: c, saved }
    }

    /// Unlocks the guard's cell — necessarily the innermost lock — and
    /// restores the current priority to exactly its pre-acquire value.
    /// Consuming the guard makes a second release, or any later access,
    /// impossible.
    pub fn release(&mut self, g: Guard)
        requires
            wf(old(self)@),
            old(self)@.locks.len() > 0,
            old(self)@.locks.last().cell == g.cell as int,
            old(self)@.locks.last().saved == g.saved as int,
            old(self)@.locks.last().frame == old(self)@.frames.len() - 1,
        ensures
            wf(final(self)@),
            final(self)@ == release_t(old(self)@),
            final(self)@.cur == g.saved as int,
    {
        let l = self.locks.pop().unwrap();
        self.cur = l.saved;
        proof {
            assert(self@.locks =~= old(self)@.locks.drop_last());
            assert(self@ =~= release_t(old(self)@));
            lemma_release_wf(old(self)@);
        }
    }

    /// Reads the guard's cell. The guard proves the lock is held by the
    /// running context, so the read is exclusive.
    pub fn cell_read(&self, g: &Guard) -> (r: u32)
        requires
            wf(self@),
            holds_lock(self@, g.cell as int),
        ensures
            r as int == self@.cells[g.cell as int].value,
    {
        proof {
            let k = choose|k: int|
                0 <= k < self@.locks.len() && self@.locks[k].cell == g.cell as int
                    && self@.locks[k].frame == self@.frames.len() - 1;
            assert(crate::model::wf_lock(self@, self@.locks[k]));
        }
        self.cells[g.cell].value
    }

    /// Overwrites the guard's cell. The guard proves the lock is held by
    /// the running context, so the write is exclusive.
    pub fn cell_write(&mut self, g: &Guard, v: u32)
        requires
            wf(old(self)@),
            holds_lock(old(self)@, g.cell as int),
        ensures
            wf(final(self)@),
            final(self)@ == cell_write_t(old(self)@, g.cell as int, v as int),
    {
        proof {
            let k = choose|k: int|
                0 <= k < self@.locks.len() && self@.locks[k].cell == g.cell as int
                    && self@.locks[k].frame == self@.frames.len() - 1;
            assert(crate::model::wf_lock(self@, self@.locks[k]));
        }
        self.cells[g.cell].value = v;
        proof {
            assert(self@.cells =~= old(self)@.cells.update(
                g.cell as int,
                crate::model::CellModel { value: v as int, ..old(self)@.cells[g.cell as int] },
            ));
            assert(self@ =~= cell_write_t(old(self)@, g.cell as int, v as int));
            lemma_cell_write_wf(old(self)@, g.cell as int, v as int);
        }
    }

    /// One whole critical section on cell `c`: acquire, read, add
    /// `delta` with wrap-around, write back, release. Because release
    /// restores exactly the pre-acquire priority, the only trace the
    /// section leaves is the cell's new value; every other part of the
    /// state comes back untouched.
    pub fn locked_add(&mut self, c: usize, delta: u32)
        requires
            wf(old(self)@),
            running(old(self)@),
            valid_cell(old(self)@, c as int),
            uses(old(self)@, top_task(old(self)@), c as int),
            !locked(old(self)@, c as int),
        ensures
            wf(final(self)@),
            final(self)@ == cell_write_t(
                old(self)@,
                c as int,
                wrap32(old(self)@.cells[c as int].value + delta),
            ),
    {
        let g = self.acquire(c);
        let x = self.cell_read(&g);
        let v: u32 = if delta <= u32::MAX - x {
            x + delta
        } else {
            delta - (u32::MAX - x) - 1
        };
        proof {
            assert(v as int == wrap32(old(self)@.cells[c as int].value + delta));
        }
        self.cell_write(&g, v);
        proof {
            assert(self@.locks.last().cell == g.cell as int);
            assert(self@.locks.last().saved == g.saved as int);
            assert(self@.locks.last().frame == self@.frames.len() - 1);
        }
        self.release(g);
        proof {
            assert(self@ =~= cell_write_t(
                old(self)@,
                c as int,
                wrap32(old(self)@.cells[c as int].value + delta),
            ));
        }
    }

    /// Whether task `t`'s pending latch is set.
    pub fn is_pending(&self, t: usize) -> (r: bool)
        requires
            t < self@.tasks.len(),
            wf(self@),
        ensures
            r == self@.pending[t as int],
    {
        self.pending[t]
    }
}

} // verus!
