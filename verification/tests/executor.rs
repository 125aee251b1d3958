use ceilex::config::Config;
use ceilex::exec::Executor;

/// Two tasks of priorities 1 and 3 sharing one cell (ceiling 3), value 0.
/// Returns the executor and the indices (low, high, cell).
fn shared_cell_pair() -> (Executor, usize, usize, usize) {
    let mut cfg = Config::new();
    let low = cfg.bind_task(10, 1).unwrap();
    let high = cfg.bind_task(11, 3).unwrap();
    let cell = cfg.add_cell(0, vec![low, high]).unwrap();
    (Executor::start(cfg), low, high, cell)
}

#[test]
fn empty_configuration_only_idles() {
    let mut e = Executor::start(Config::new());
    assert!(e.idle());
    assert_eq!(e.current_priority(), 0);
    assert_eq!(e.running_task(), None);
    assert_eq!(e.pend(0), None);
    assert_eq!(e.dispatch(), None);
    assert!(e.idle());
}

#[test]
fn idle_iff_nothing_pending_and_priority_minimum() {
    let (mut e, _low, _high, _cell) = shared_cell_pair();
    assert!(e.idle());
    assert_eq!(e.current_priority(), 0);

    assert_eq!(e.pend(10), Some(0));
    assert!(!e.idle());

    assert_eq!(e.dispatch(), Some(0));
    assert!(!e.idle());
    assert_eq!(e.current_priority(), 1);

    e.finish();
    assert!(e.idle());
    assert_eq!(e.current_priority(), 0);
}

#[test]
fn pend_on_unbound_line_is_ignored() {
    let (mut e, _low, _high, _cell) = shared_cell_pair();
    assert_eq!(e.pend(99), None);
    assert!(e.idle());
    assert_eq!(e.dispatch(), None);
}

#[test]
fn dispatch_runs_highest_pending_first() {
    let mut cfg = Config::new();
    let low = cfg.bind_task(20, 1).unwrap();
    let high = cfg.bind_task(21, 3).unwrap();
    let mut e = Executor::start(cfg);

    assert_eq!(e.pend(20), Some(low));
    assert_eq!(e.pend(21), Some(high));

    assert_eq!(e.dispatch(), Some(high));
    assert_eq!(e.running_task(), Some(high));
    e.finish();

    assert_eq!(e.dispatch(), Some(low));
    assert_eq!(e.running_task(), Some(low));
    e.finish();
    assert!(e.idle());
}

#[test]
fn higher_priority_task_preempts_running_lower() {
    let mut cfg = Config::new();
    let low = cfg.bind_task(20, 1).unwrap();
    let high = cfg.bind_task(21, 3).unwrap();
    let mut e = Executor::start(cfg);

    e.pend(20);
    assert_eq!(e.dispatch(), Some(low));

    // The signal arrives mid-run; priority 3 > 1, so it preempts.
    e.pend(21);
    assert_eq!(e.dispatch(), Some(high));
    assert_eq!(e.running_task(), Some(high));
    e.finish();

    // The preempted task resumes; nothing is dispatched anew.
    assert_eq!(e.running_task(), Some(low));
    assert_eq!(e.dispatch(), None);
    e.finish();
    assert!(e.idle());
}

#[test]
fn lock_restores_priority_nested_depth_three() {
    let mut cfg = Config::new();
    let worker = cfg.bind_task(30, 1).unwrap();
    let pri2 = cfg.bind_task(31, 2).unwrap();
    let pri4 = cfg.bind_task(32, 4).unwrap();
    let pri5 = cfg.bind_task(33, 5).unwrap();
    let c1 = cfg.add_cell(0, vec![worker, pri2]).unwrap();
    let c2 = cfg.add_cell(0, vec![worker, pri4]).unwrap();
    let c3 = cfg.add_cell(0, vec![worker, pri5]).unwrap();
    let mut e = Executor::start(cfg);

    e.pend(30);
    assert_eq!(e.dispatch(), Some(worker));
    assert_eq!(e.current_priority(), 1);

    let g1 = e.acquire(c1);
    assert_eq!(e.current_priority(), 2);
    let g2 = e.acquire(c2);
    assert_eq!(e.current_priority(), 4);
    let g3 = e.acquire(c3);
    assert_eq!(e.current_priority(), 5);

    e.release(g3);
    assert_eq!(e.current_priority(), 4);
    e.release(g2);
    assert_eq!(e.current_priority(), 2);
    e.release(g1);
    assert_eq!(e.current_priority(), 1);

    e.finish();
    assert_eq!(e.current_priority(), 0);
    assert!(e.idle());
}

#[test]
fn masked_signal_serviced_exactly_once() {
    let (mut e, low, high, cell) = shared_cell_pair();

    e.pend(10);
    assert_eq!(e.dispatch(), Some(low));
    let g = e.acquire(cell);
    assert_eq!(e.current_priority(), 3);

    // Signal the priority-3 task while the ceiling masks it.
    assert_eq!(e.pend(11), Some(high));
    assert!(e.is_pending(high));
    assert_eq!(e.next_task(), None);

    // Unmask: the latched signal is serviced exactly once.
    e.release(g);
    assert_eq!(e.next_task(), Some(high));
    assert_eq!(e.dispatch(), Some(high));
    assert!(!e.is_pending(high));
    e.finish();
    assert_eq!(e.dispatch(), None);

    e.finish();
    assert!(e.idle());
}

#[test]
fn lock_holder_blocks_sharing_higher_priority_task() {
    let (mut e, low, high, cell) = shared_cell_pair();

    e.pend(10);
    assert_eq!(e.dispatch(), Some(low));
    let g = e.acquire(cell);

    // While the priority-1 task holds the lock, the sharing priority-3
    // task must not preempt.
    e.pend(11);
    assert_eq!(e.next_task(), None);
    assert_eq!(e.running_task(), Some(low));

    // After release it runs to completion before priority 1 resumes.
    e.release(g);
    assert_eq!(e.dispatch(), Some(high));
    assert_eq!(e.running_task(), Some(high));
    e.finish();
    assert_eq!(e.running_task(), Some(low));
    e.finish();
    assert!(e.idle());
}

#[test]
fn five_increments_yield_five() {
    let (mut e, low, high, cell) = shared_cell_pair();

    // Five sequential raises of the priority-3 task's signal, each
    // incrementing the cell by one inside its lock.
    for _ in 0..5 {
        assert_eq!(e.pend(11), Some(high));
        assert_eq!(e.dispatch(), Some(high));
        e.locked_add(cell, 1);
        e.finish();
    }

    // The priority-1 task reads the cell under the same lock.
    assert_eq!(e.pend(10), Some(low));
    assert_eq!(e.dispatch(), Some(low));
    let g = e.acquire(cell);
    assert_eq!(e.cell_read(&g), 5);
    e.release(g);
    e.finish();
    assert!(e.idle());
}

#[test]
fn locked_add_wraps_around() {
    let mut cfg = Config::new();
    let t = cfg.bind_task(40, 2).unwrap();
    let cell = cfg.add_cell(u32::MAX, vec![t]).unwrap();
    let mut e = Executor::start(cfg);

    e.pend(40);
    e.dispatch();
    e.locked_add(cell, 2);
    let g = e.acquire(cell);
    assert_eq!(e.cell_read(&g), 1);
    e.release(g);
    e.finish();
}

#[test]
fn cell_write_then_read_under_one_guard() {
    let (mut e, _low, high, cell) = shared_cell_pair();

    e.pend(11);
    assert_eq!(e.dispatch(), Some(high));
    let g = e.acquire(cell);
    assert_eq!(e.cell_read(&g), 0);
    e.cell_write(&g, 41);
    assert_eq!(e.cell_read(&g), 41);
    e.release(g);
    e.finish();
}
