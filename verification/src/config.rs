//! Build-time configuration: the dispatch table and the resource cells.
//!
//! A [`Config`] is assembled once, before the executor starts, and is
//! immutable afterwards. Misconfiguration — a duplicate interrupt
//! binding, a duplicate or zero priority, a cell with no or unknown
//! users — is rejected here, so that none of it can surface at run time.

use vstd::prelude::*;

use crate::model::{
    ceiling_of, lemma_ceiling_of_bounds, wf, CellModel, ExecModel, TaskModel,
};

verus! {

/// A configuration error, reported while the table is being built.
#[derive(Clone, Copy, Debug, PartialEq, Eq, Structural)]
pub enum ConfigError {
    /// Two tasks may never share the same interrupt identity.
    DuplicateIrq,
    /// Priorities are unique per task; ties would make dispatch ambiguous.
    DuplicatePriority,
    /// Priority 0 is the idle loop's level and cannot belong to a task.
    ZeroPriority,
    /// A cell user index that names no bound task.
    UnknownTask,
    /// A cell that no task may lock has no ceiling and is rejected.
    NoUsers,
}

/// One dispatch-table entry: an interrupt line and the static priority of
/// the task bound to it.
#[derive(Clone, Copy, Debug)]
pub struct TaskEntry {
    pub irq: u16,
    pub pri: u8,
}

impl View for TaskEntry {
    type V = TaskModel;

    open spec fn view(&self) -> TaskModel {
        TaskModel { irq: self.irq as int, pri: self.pri as int }
    }
}

/// One resource cell: the shared value, its computed ceiling, and the
/// tasks allowed to lock it.
#[derive(Debug)]
pub struct CellState {
    pub value: u32,
    pub ceiling: u8,
    pub users: Vec<usize>,
}

impl View for CellState {
    type V = CellModel;

    open spec fn view(&self) -> CellModel {
        CellModel {
            value: self.value as int,
            ceiling: self.ceiling as int,
            users: self.users@.map_values(|u: usize| u as int),
        }
    }
}

/// The static configuration under construction. Its view is the boot
/// state of the executor: nothing pending, priority at the minimum, no
/// frame and no lock.
pub struct Config {
    pub tasks: Vec<TaskEntry>,
    pub cells: Vec<CellState>,
}

impl View for Config {
    type V = ExecModel;

    open spec fn view(&self) -> ExecModel {
        ExecModel {
            tasks: self.tasks@.map_values(|t: TaskEntry| t@),
            cells: self.cells@.map_values(|c: CellState| c@),
            pending: Seq::new(self.tasks@.len(), |i: int| false),
            cur: 0,
            frames: Seq::empty(),
            locks: Seq::empty(),
        }
    }
}

impl Config {
    /// An empty, well-formed configuration: no tasks, no cells.
    pub fn new() -> (cfg: Config)
        ensures
            cfg@.tasks.len() == 0,
            cfg@.cells.len() == 0,
            wf(cfg@),
    {
        let cfg = Config { tasks: Vec::new(), cells: Vec::new() };
        proof {
            assert(cfg@.pending =~= Seq::<bool>::empty());
        }
        cfg
    }

    /// Binds interrupt line `irq` to a new task of priority `pri` and
    /// returns its index. Rejected exactly when the priority is zero,
    /// the line is already bound, or the priority is already taken.
    pub fn bind_task(&mut self, irq: u16, pri: u8) -> (r: Result<usize, ConfigError>)
        requires
            wf(old(self)@),
        ensures
            wf(final(self)@),
            match r {
                Ok(i) => {
                    &&& pri >= 1
                    &&& forall|j: int|
                        0 <= j < old(self)@.tasks.len() ==> #[trigger] old(self)@.tasks[j].irq
                            != irq && old(self)@.tasks[j].pri != pri
                    &&& i == old(self)@.tasks.len()
                    &&& final(self)@.tasks == old(self)@.tasks.push(
                        TaskModel { irq: irq as int, pri: pri as int },
                    )
                    &&& final(self)@.cells == old(self)@.cells
                },
                Err(ConfigError::ZeroPriority) => pri == 0 && final(self)@ == old(self)@,
                Err(ConfigError::DuplicateIrq) => {
                    &&& pri >= 1
                    &&& exists|j: int|
                        0 <= j < old(self)@.tasks.len() && #[trigger] old(self)@.tasks[j].irq
                            == irq
                    &&& final(self)@ == old(self)@
                },
                Err(ConfigError::DuplicatePriority) => {
                    &&& pri >= 1
                    &&& forall|j: int|
                        0 <= j < old(self)@.tasks.len() ==> #[trigger] old(self)@.tasks[j].irq
                            != irq
                    &&& exists|j: int|
                        0 <= j < old(self)@.tasks.len() && #[trigger] old(self)@.tasks[j].pri
                            == pri
                    &&& final(self)@ == old(self)@
                },
                Err(_) => false,
            },
    {
        if pri == 0 {
            return Err(ConfigError::ZeroPriority);
        }
        let n = self.tasks.len();
        let mut j: usize = 0;
        while j < n
            invariant
                *self == *old(self),
                wf(old(self)@),
                pri >= 1,
                n == self.tasks.len(),
                j <= n,
                forall|k: int| 0 <= k < j ==> #[trigger] self@.tasks[k].irq != irq,
            decreases n - j,
        {
            if self.tasks[j].irq == irq {
                proof {
                    assert(old(self)@.tasks[j as int].irq == irq as int);
                }
                return Err(ConfigError::DuplicateIrq);
            }
            j += 1;
        }
        let mut k: usize = 0;
        while k < n
            invariant
                *self == *old(self),
                wf(old(self)@),
                pri >= 1,
                n == self.tasks.len(),
                k <= n,
                forall|q: int| 0 <= q < k ==> #[trigger] self@.tasks[q].pri != pri,
                forall|q: int| 0 <= q < n ==> #[trigger] self@.tasks[q].irq != irq,
            decreases n - k,
        {
            if self.tasks[k].pri == pri {
                proof {
                    assert(old(self)@.tasks[k as int].pri == pri as int);
                }
                return Err(ConfigError::DuplicatePriority);
            }
            k += 1;
        }
        self.tasks.push(TaskEntry { irq, pri });
        proof {
            assert(self@.tasks =~= old(self)@.tasks.push(
                TaskModel { irq: irq as int, pri: pri as int },
            ));
            assert(self@.cells =~= old(self)@.cells);
            lemma_config_wf_after_bind(old(self)@, self@, irq as int, pri as int);
        }
        Ok(n)
    }

    /// Adds a resource cell holding `init`, lockable by the tasks in
    /// `users`; its ceiling is computed as the greatest priority among
    /// them. Rejected exactly when `users` is empty or names an unbound
    /// task.
    pub fn add_cell(&mut self, init: u32, users: Vec<usize>) -> (r: Result<usize, ConfigError>)
        requires
            wf(old(self)@),
        ensures
            wf(final(self)@),
            match r {
                Ok(c) => {
                    &&& users@.len() > 0
                    &&& forall|k: int|
                        0 <= k < users@.len() ==> (#[trigger] users@[k]) < old(
                            self,
                        )@.tasks.len()
                    &&& c == old(self)@.cells.len()
                    &&& final(self)@.tasks == old(self)@.tasks
                    &&& final(self)@.cells == old(self)@.cells.push(
                        CellModel {
                            value: init as int,
                            ceiling: ceiling_of(
                                old(self)@.tasks,
                                users@.map_values(|u: usize| u as int),
                            ),
                            users: users@.map_values(|u: usize| u as int),
                        },
                    )
                },
                Err(ConfigError::NoUsers) => users@.len() == 0 && final(self)@ == old(self)@,
                Err(ConfigError::UnknownTask) => {
                    &&& exists|k: int|
                        0 <= k < users@.len() && (#[trigger] users@[k]) >= old(
                            self,
                        )@.tasks.len()
                    &&& final(self)@ == old(self)@
                },
                Err(_) => false,
            },
    {
        if users.len() == 0 {
            return Err(ConfigError::NoUsers);
        }
        let n = self.tasks.len();
        let mut ceil: u8 = 0;
        let mut k: usize = 0;
        while k < users.len()
            invariant
                *self == *old(self),
                wf(old(self)@),
                n == self.tasks.len(),
                k <= users@.len(),
                forall|q: int| 0 <= q < k ==> (#[trigger] users@[q]) < n,
                ceil as int == ceiling_of(
                    self@.tasks,
                    users@.map_values(|u: usize| u as int).take(k as int),
                ),
            decreases users@.len() - k,
        {
            let u = users[k];
            if u >= n {
                proof {
                    assert(users@[k as int] >= old(self)@.tasks.len());
                }
                return Err(ConfigError::UnknownTask);
            }
            let p = self.tasks[u].pri;
            if p > ceil {
                ceil = p;
            }
            proof {
                let us = users@.map_values(|u: usize| u as int);
                assert(us.take(k as int + 1).drop_last() =~= us.take(k as int));
                assert(us.take(k as int + 1).last() == us[k as int]);
            }
            k += 1;
        }
        let c = self.cells.len();
        proof {
            let us = users@.map_values(|u: usize| u as int);
            assert(us.take(users@.len() as int) =~= us);
        }
        let ghost m0 = self@;
        let ghost us = users@.map_values(|u: usize| u as int);
        self.cells.push(CellState { value: init, ceiling: ceil, users });
        proof {
            let cell = CellModel { value: init as int, ceiling: ceil as int, users: us };
            assert(self@.cells =~= m0.cells.push(cell));
            assert(self@.tasks =~= m0.tasks);
            assert(self@.pending =~= m0.pending);
            assert forall|q: int|
                0 <= q < us.len() implies 0 <= #[trigger] us[q] < m0.tasks.len()
                && m0.tasks[us[q]].pri >= 1 by {
                assert(us[q] == cell.users[q]);
            }
            lemma_ceiling_of_bounds(m0.tasks, us);
            assert forall|cc: int|
                0 <= cc < self@.cells.len() implies crate::model::wf_cell(
                self@,
                #[trigger] self@.cells[cc],
            ) by {
                if cc < m0.cells.len() {
                    assert(crate::model::wf_cell(m0, m0.cells[cc]));
                    assert(self@.cells[cc] == m0.cells[cc]);
                } else {
                    assert(self@.cells[cc] == cell);
                    assert(ceil as int == ceiling_of(m0.tasks, us));
                    let w = choose|k: int|
                        0 <= k < us.len() && m0.tasks[#[trigger] us[k]].pri == ceiling_of(
                            m0.tasks,
                            us,
                        );
                    assert(m0.tasks[us[w]].pri == cell.ceiling);
                    assert(1 <= cell.ceiling <= 255);
                    assert(self@.tasks[cell.users[w]].pri == cell.ceiling);
                }
            }
        }
        Ok(c)
    }
}

/// Pushing a fresh task with an unused interrupt line and an unused,
/// positive priority keeps the boot state well formed.
proof fn lemma_config_wf_after_bind(m0: ExecModel, m1: ExecModel, irq: int, pri: int)
    requires
        wf(m0),
        m0.frames.len() == 0,
        m0.locks.len() == 0,
        m0.cur == 0,
        m0.pending.len() == m0.tasks.len(),
        1 <= pri <= 255,
        forall|j: int|
            0 <= j < m0.tasks.len() ==> #[trigger] m0.tasks[j].irq != irq && m0.tasks[j].pri
                != pri,
        m1.tasks == m0.tasks.push(TaskModel { irq, pri }),
        m1.cells == m0.cells,
        m1.pending == Seq::new(m1.tasks.len(), |i: int| false),
        m1.cur == 0,
        m1.frames.len() == 0,
        m1.locks.len() == 0,
    ensures
        wf(m1),
{
    assert forall|c: int| 0 <= c < m1.cells.len() implies crate::model::wf_cell(
        m1,
        #[trigger] m1.cells[c],
    ) by {
        assert(crate::model::wf_cell(m0, m0.cells[c]));
        assert forall|k: int|
            0 <= k < m1.cells[c].users.len() implies crate::model::valid_task(
            m1,
            #[trigger] m1.cells[c].users[k],
        ) && m1.tasks[m1.cells[c].users[k]].pri <= m1.cells[c].ceiling by {
            assert(crate::model::valid_task(m0, m0.cells[c].users[k]));
        }
        let w = choose|k: int|
            0 <= k < m0.cells[c].users.len() && m0.tasks[#[trigger] m0.cells[c].users[k]].pri
                == m0.cells[c].ceiling;
        assert(m1.tasks[m1.cells[c].users[w]].pri == m1.cells[c].ceiling);
    }
}

} // verus!
