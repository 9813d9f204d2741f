use open_kernel::scheduler::{
    idle_task, kill_task, logger_task, snapshot_tasks, spawn_task, task_count_locked, worker_task,
    Scheduler, TaskContext, TaskState, MAX_TASKS,
};

type Body = u32;

fn three() -> Scheduler<Body> {
    let mut s = Scheduler::new();
    assert_eq!(s.add_task("a", 10), 0);
    assert_eq!(s.add_task("b", 11), 1);
    assert_eq!(s.add_task("c", 12), 2);
    s
}

#[test]
fn add_task_fills_lowest_free_slot() {
    let mut s: Scheduler<Body> = Scheduler::new();
    for i in 0..MAX_TASKS {
        assert_eq!(s.add_task("t", i as u32), i);
    }
    assert_eq!(task_count_locked(&s), MAX_TASKS);
}

#[test]
fn round_robin_with_yields() {
    let mut s = three();
    let mut order = Vec::new();
    for tick in 0..6 {
        let (idx, body, mut ctx) = s.prepare_next(tick).unwrap();
        assert_eq!(ctx.task_id, idx);
        assert_eq!(ctx.tick, tick);
        assert_eq!(body, 10 + idx as u32);
        order.push(idx);
        ctx.yield_now();
        s.finish_task(idx, &ctx);
    }
    assert_eq!(order, vec![0, 1, 2, 0, 1, 2]);
    let snap = snapshot_tasks(&s);
    assert_eq!(snap.len(), 3);
    assert!(snap.iter().all(|t| t.runs == 2 && t.state == TaskState::Ready));
}

#[test]
fn task_without_yield_runs_again() {
    let mut s = three();
    let (idx, _, ctx) = s.prepare_next(0).unwrap();
    s.finish_task(idx, &ctx);
    let (idx2, _, _) = s.prepare_next(1).unwrap();
    assert_eq!(idx, idx2);
}

#[test]
fn running_task_is_not_picked_again() {
    let mut s = three();
    let (a, _, _) = s.prepare_next(0).unwrap();
    let (b, _, _) = s.prepare_next(0).unwrap();
    assert_ne!(a, b);
    let snap = snapshot_tasks(&s);
    assert_eq!(snap[0].state, TaskState::Running);
}

#[test]
fn finished_task_never_runs_again() {
    let mut s = three();
    let (idx, _, mut ctx) = s.prepare_next(0).unwrap();
    ctx.finish();
    ctx.yield_now();
    s.finish_task(idx, &ctx);
    for tick in 1..10 {
        let (i, _, mut c) = s.prepare_next(tick).unwrap();
        assert_ne!(i, idx);
        c.yield_now();
        s.finish_task(i, &c);
    }
}

#[test]
fn empty_scheduler_has_nothing_to_run() {
    let mut s: Scheduler<Body> = Scheduler::new();
    assert!(s.prepare_next(5).is_none());
    assert!(s.can_dispatch());
}

#[test]
fn kill_marks_finished_and_spawn_reuses_slot() {
    let mut s = three();
    assert!(kill_task(&mut s, 1));
    assert!(!kill_task(&mut s, 5));
    assert!(!kill_task(&mut s, 99));
    let snap = snapshot_tasks(&s);
    assert_eq!(snap[1].state, TaskState::Finished);
    for tick in 0..6 {
        let (i, _, mut c) = s.prepare_next(tick).unwrap();
        assert_ne!(i, 1);
        c.yield_now();
        s.finish_task(i, &c);
    }
    assert_eq!(spawn_task(&mut s, "user-worker", 99), Some(1));
    let snap = snapshot_tasks(&s);
    assert_eq!(snap[1].name, "user-worker");
    assert_eq!(snap[1].runs, 0);
    assert_eq!(snap[1].state, TaskState::Ready);
    assert_eq!(spawn_task(&mut s, "w", 5), Some(3));
}

#[test]
fn spawn_fails_when_all_busy() {
    let mut s: Scheduler<Body> = Scheduler::new();
    for i in 0..MAX_TASKS {
        s.add_task("t", i as u32);
    }
    assert_eq!(spawn_task(&mut s, "x", 1), None);
    assert_eq!(task_count_locked(&s), 8);
}

#[test]
fn snapshot_lists_occupied_slots_in_order() {
    let mut s = three();
    kill_task(&mut s, 0);
    spawn_task(&mut s, "z", 7);
    let snap = snapshot_tasks(&s);
    let ids: Vec<usize> = snap.iter().map(|t| t.id).collect();
    assert_eq!(ids, vec![0, 1, 2]);
    assert_eq!(snap[0].name, "z");
}

#[test]
fn builtin_task_bodies() {
    let mut c = TaskContext::new(0, 5);
    idle_task(&mut c);
    let mut s: Scheduler<fn(&mut TaskContext)> = Scheduler::new();
    s.add_task("idle", idle_task);
    s.add_task("worker", worker_task);
    s.add_task("logger", logger_task);
    let mut ticks_seen = 0;
    for tick in [10u64, 10, 10, 200, 200, 200, 200] {
        if let Some((idx, f, mut ctx)) = s.prepare_next(tick) {
            f(&mut ctx);
            s.finish_task(idx, &ctx);
            ticks_seen += 1;
        }
    }
    assert_eq!(ticks_seen, 7);
    let snap = snapshot_tasks(&s);
    assert_eq!(snap[2].state, TaskState::Finished);
    assert_eq!(snap[0].state, TaskState::Ready);
}

#[test]
fn every_window_runs_each_ready_task_once() {
    let mut s: Scheduler<Body> = Scheduler::new();
    for i in 0..6 {
        s.add_task("t", i);
    }
    for id in [1, 2, 4] {
        assert!(kill_task(&mut s, id));
    }
    let mut order = Vec::new();
    for tick in 0..9 {
        let (idx, _, mut ctx) = s.prepare_next(tick).unwrap();
        order.push(idx);
        ctx.yield_now();
        s.finish_task(idx, &ctx);
    }
    assert_eq!(order, vec![0, 3, 5, 0, 3, 5, 0, 3, 5]);
    for w in order.windows(3) {
        let mut sorted = w.to_vec();
        sorted.sort();
        assert_eq!(sorted, vec![0, 3, 5]);
    }
}

#[test]
fn killing_a_finished_task_fails_and_changes_nothing() {
    let mut s = three();
    assert!(kill_task(&mut s, 1));
    assert!(!kill_task(&mut s, 1));
    let snap = snapshot_tasks(&s);
    assert_eq!(snap[1].state, TaskState::Finished);
    assert_eq!(snap[1].runs, 0);
}

#[test]
fn a_task_killed_while_running_stays_finished() {
    let mut s = three();
    let (idx, _, mut ctx) = s.prepare_next(0).unwrap();
    assert_eq!(snapshot_tasks(&s)[idx].state, TaskState::Running);
    assert!(kill_task(&mut s, idx));
    ctx.yield_now();
    s.finish_task(idx, &ctx);
    assert_eq!(snapshot_tasks(&s)[idx].state, TaskState::Finished);
    for tick in 1..7 {
        let (i, _, mut c) = s.prepare_next(tick).unwrap();
        assert_ne!(i, idx);
        c.yield_now();
        s.finish_task(i, &c);
    }
}
