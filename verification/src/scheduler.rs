//! A cooperative round-robin scheduler over a fixed table of task slots.
use vstd::prelude::*;

verus! {

/// The number of task slots.
pub const MAX_TASKS: usize = 8;

/// Where a task stands.
#[derive(Debug, Clone, Copy, PartialEq, Eq, Structural)]
pub enum TaskState {
    Ready,
    Running,
    Finished,
}

/// What a task sees while it runs, and how it asks to be treated afterwards.
pub struct TaskContext {
    pub task_id: usize,
    pub tick: u64,
    yielded: bool,
    finished: bool,
}

impl TaskContext {
    /// The slot of the running task.
    pub closed spec fn id(&self) -> usize {
        self.task_id
    }

    /// The timer tick the run started at.
    pub closed spec fn at_tick(&self) -> u64 {
        self.tick
    }

    /// Whether the task gave up the processor to the next slot.
    pub closed spec fn has_yielded(&self) -> bool {
        self.yielded
    }

    /// Whether the task asked never to run again.
    pub closed spec fn has_finished(&self) -> bool {
        self.finished
    }

    /// A context for a run of task `task_id` at timer tick `tick`.
    pub fn new(task_id: usize, tick: u64) -> (ctx: Self)
        ensures
            ctx.id() == task_id,
            ctx.at_tick() == tick,
            !ctx.has_yielded(),
            !ctx.has_finished(),
    {
        TaskContext { task_id, tick, yielded: false, finished: false }
    }

    /// Lets the next slot run first.
    pub fn yield_now(&mut self)
        ensures
            final(self).has_yielded(),
            final(self).has_finished() == old(self).has_finished(),
            final(self).id() == old(self).id(),
            final(self).at_tick() == old(self).at_tick(),
    {
        self.yielded = true;
    }

    /// Marks the task as done: it will not run again.
    pub fn finish(&mut self)
        ensures
            final(self).has_finished(),
            final(self).has_yielded() == old(self).has_yielded(),
            final(self).id() == old(self).id(),
            final(self).at_tick() == old(self).at_tick(),
    {
        self.finished = true;
    }
}

/// A task slot's contents: its name, its body `func`, its state and how many
/// times it was dispatched.
pub struct Task<F> {
    pub name: &'static str,
    pub func: F,
    pub state: TaskState,
    pub runs: u64,
}

impl<F> Task<F> {
    /// A ready task that has not run yet.
    pub fn new(name: &'static str, func: F) -> (t: Self)
        ensures
            t.name == name,
            t.func == func,
            t.state == TaskState::Ready,
            t.runs == 0,
    {
        Task { name, func, state: TaskState::Ready, runs: 0 }
    }
}

/// The scheduler: `MAX_TASKS` slots and the slot where the next search for a
/// ready task starts.
pub struct Scheduler<F> {
    tasks: [Option<Task<F>>; 8],
    current: usize,
}

/// Whether slot `i` holds a task in state `s`.
pub open spec fn slot_in<F>(slots: Seq<Option<Task<F>>>, i: int, s: TaskState) -> bool {
    slots[i] matches Some(t) && t.state == s
}

/// The first slot, searching cyclically from `start + k` up to `start + 7`,
/// that holds a ready task.
pub open spec fn next_ready<F>(slots: Seq<Option<Task<F>>>, start: int, k: int) -> Option<int>
    decreases 8 - k,
{
    if k >= 8 {
        None
    } else if slot_in(slots, (start + k) % 8, TaskState::Ready) {
        Some((start + k) % 8)
    } else {
        next_ready(slots, start, k + 1)
    }
}

/// The lowest empty slot at or above `k`.
pub open spec fn first_free<F>(slots: Seq<Option<Task<F>>>, k: int) -> Option<int>
    decreases 8 - k,
{
    if k >= 8 {
        None
    } else if slots[k] is None {
        Some(k)
    } else {
        first_free(slots, k + 1)
    }
}

/// The lowest slot at or above `k` that is empty or holds a finished task.
pub open spec fn first_reusable<F>(slots: Seq<Option<Task<F>>>, k: int) -> Option<int>
    decreases 8 - k,
{
    if k >= 8 {
        None
    } else if slots[k] is None || slot_in(slots, k, TaskState::Finished) {
        Some(k)
    } else {
        first_reusable(slots, k + 1)
    }
}

impl<F: Copy> Scheduler<F> {
    /// The slots, in order.
    pub closed spec fn slots(&self) -> Seq<Option<Task<F>>> {
        self.tasks@
    }

    /// The slot where the next search for a ready task starts.
    pub closed spec fn cursor(&self) -> int {
        self.current as int
    }

    /// A full table of slots and a cursor on one of them.
    pub open spec fn wf(&self) -> bool {
        &&& self.slots().len() == MAX_TASKS
        &&& 0 <= self.cursor() < MAX_TASKS
    }

    /// The task the next dispatch picks, if any, can count one more run
    /// without its run count overflowing.
    pub open spec fn next_run_countable(&self) -> bool {
        next_ready(self.slots(), self.cursor(), 0) matches Some(i) ==> self.slots()[i]->0.runs
            < u64::MAX
    }

    /// An empty table; the search starts at slot 0.
    pub fn new() -> (s: Self)
        ensures
            s.wf(),
            s.cursor() == 0,
            forall|i: int| 0 <= i < MAX_TASKS ==> #[trigger] s.slots()[i] is None,
    {
        Scheduler { tasks: [None, None, None, None, None, None, None, None], current: 0 }
    }

    /// Whether the next dispatch can count its run.
    pub fn can_dispatch(&self) -> (r: bool)
        requires
            self.wf(),
        ensures
            r == self.next_run_countable(),
    {
        proof {
            lemma_next_ready_is_ready(self.slots(), self.cursor(), 0);
        }
        match self.next_runnable_from(self.current) {
            Some(i) => match &self.tasks[i] {
                Some(t) => t.runs < u64::MAX,
                None => true,
            },
            None => true,
        }
    }

    /// Puts a new ready task in the lowest empty slot and returns the slot.
    pub fn add_task(&mut self, name: &'static str, func: F) -> (idx: usize)
        requires
            old(self).wf(),
            first_free(old(self).slots(), 0) is Some,
        ensures
            final(self).wf(),
            idx == first_free(old(self).slots(), 0)->0,
            final(self).slots() == old(self).slots().update(
                idx as int,
                Some(Task { name, func, state: TaskState::Ready, runs: 0 }),
            ),
            final(self).cursor() == old(self).cursor(),
    {
        let mut idx: usize = 0;
        while idx < MAX_TASKS
            invariant
                self.wf(),
                idx <= MAX_TASKS,
                first_free(self.slots(), 0) == first_free(self.slots(), idx as int),
                first_free(self.slots(), 0) is Some,
                self == old(self),
            decreases MAX_TASKS - idx,
        {
            if self.tasks[idx].is_none() {
                self.tasks[idx] = Some(Task::new(name, func));
                return idx;
            }
            idx += 1;
        }
        idx
    }

    /// The first slot, cyclically from `start`, that holds a ready task.
    fn next_runnable_from(&self, start: usize) -> (r: Option<usize>)
        requires
            self.wf(),
            start < MAX_TASKS,
        ensures
            r matches Some(i) ==> i < MAX_TASKS && next_ready(self.slots(), start as int, 0) == Some(
                i as int,
            ),
            r is None ==> next_ready(self.slots(), start as int, 0) is None,
    {
        let mut offset: usize = 0;
        while offset < MAX_TASKS
            invariant
                self.wf(),
                start < MAX_TASKS,
                offset <= MAX_TASKS,
                next_ready(self.slots(), start as int, 0) == next_ready(
                    self.slots(),
                    start as int,
                    offset as int,
                ),
            decreases MAX_TASKS - offset,
        {
            let idx = (start + offset) % MAX_TASKS;
            let ready = match &self.tasks[idx] {
                Some(t) => t.state == TaskState::Ready,
                None => false,
            };
            if ready {
                return Some(idx);
            }
            offset += 1;
        }
        None
    }

    /// Picks the next ready task cyclically from the cursor, marks it
    /// running, counts the run, and hands back its slot, its body and a
    /// fresh context for timer tick `tick`; `None` when no task is ready.
    pub fn prepare_next(&mut self, tick: u64) -> (r: Option<(usize, F, TaskContext)>)
        requires
            old(self).wf(),
            old(self).next_run_countable(),
        ensures
            final(self).wf(),
            final(self).cursor() == old(self).cursor(),
            match next_ready(old(self).slots(), old(self).cursor(), 0) {
                None => r is None && final(self).slots() == old(self).slots(),
                Some(i) => {
                    let t = old(self).slots()[i]->0;
                    &&& r matches Some((idx, func, ctx)) && idx == i && func == t.func
                        && ctx.id() == i && ctx.at_tick() == tick && !ctx.has_yielded()
                        && !ctx.has_finished()
                    &&& final(self).slots() == old(self).slots().update(
                        i,
                        Some(Task { state: TaskState::Running, runs: (t.runs + 1) as u64, ..t }),
                    )
                },
            },
    {
        let idx = match self.next_runnable_from(self.current) {
            Some(i) => i,
            None => return None,
        };
        proof {
            lemma_next_ready_is_ready(self.slots(), self.cursor(), 0);
        }
        let t = match &self.tasks[idx] {
            Some(t) => Task { name: t.name, func: t.func, state: TaskState::Running, runs: t.runs + 1 },
            None => return None,
        };
        let func = t.func;
        self.tasks[idx] = Some(t);
        Some((idx, func, TaskContext::new(idx, tick)))
    }

    /// Records how the task in slot `idx` left the processor: finished (by
    /// its own choice, or because it was killed while it ran), or ready
    /// again; the next search starts after it if it yielded, at it
    /// otherwise.
    pub fn finish_task(&mut self, idx: usize, ctx: &TaskContext)
        requires
            old(self).wf(),
            idx < MAX_TASKS,
            old(self).slots()[idx as int] is Some,
        ensures
            final(self).wf(),
            final(self).slots() == old(self).slots().update(
                idx as int,
                Some(
                    Task {
                        state: if ctx.has_finished() || old(self).slots()[idx as int]->0.state
                            == TaskState::Finished {
                            TaskState::Finished
                        } else {
                            TaskState::Ready
                        },
                        ..old(self).slots()[idx as int]->0
                    },
                ),
            ),
            final(self).cursor() == (if ctx.has_yielded() {
                (idx + 1) % (MAX_TASKS as int)
            } else {
                idx as int
            }),
    {
        let t = match &self.tasks[idx] {
            Some(t) => Task {
                name: t.name,
                func: t.func,
                state: if ctx.finished || t.state == TaskState::Finished {
                    TaskState::Finished
                } else {
                    TaskState::Ready
                },
                runs: t.runs,
            },
            None => return,
        };
        self.tasks[idx] = Some(t);
        self.current = if ctx.yielded {
            (idx + 1) % MAX_TASKS
        } else {
            idx
        };
    }
}

/// What the search finds is a slot holding a ready task.
pub proof fn lemma_next_ready_is_ready<F>(slots: Seq<Option<Task<F>>>, start: int, k: int)
    requires
        0 <= start < 8,
        0 <= k,
    ensures
        next_ready(slots, start, k) matches Some(i) ==> 0 <= i < 8 && slot_in(
            slots,
            i,
            TaskState::Ready,
        ),
    decreases 8 - k,
{
    if k < 8 {
        lemma_next_ready_is_ready(slots, start, k + 1);
    }
}


/// A task as `ps` shows it.
pub struct TaskInfo {
    pub id: usize,
    pub name: &'static str,
    pub state: TaskState,
    pub runs: u64,
}

/// The occupied slots below `k`, in order, as `ps` shows them.
pub open spec fn occupied<F>(slots: Seq<Option<Task<F>>>, k: int) -> Seq<(usize, &'static str, TaskState, u64)>
    decreases k,
{
    if k <= 0 {
        Seq::empty()
    } else {
        let rest = occupied(slots, k - 1);
        match slots[k - 1] {
            Some(t) => rest.push(((k - 1) as usize, t.name, t.state, t.runs)),
            None => rest,
        }
    }
}

/// The fields of each task description.
pub open spec fn info_view(v: Seq<TaskInfo>) -> Seq<(usize, &'static str, TaskState, u64)> {
    v.map_values(|t: TaskInfo| (t.id, t.name, t.state, t.runs))
}

/// Every occupied slot, in slot order, with its id, name, state and run count.
pub fn snapshot_tasks<F: Copy>(sched: &Scheduler<F>) -> (r: Vec<TaskInfo>)
    requires
        sched.wf(),
    ensures
        info_view(r@) == occupied(sched.slots(), MAX_TASKS as int),
{
    let mut r: Vec<TaskInfo> = Vec::new();
    let mut id: usize = 0;
    while id < MAX_TASKS
        invariant
            sched.wf(),
            id <= MAX_TASKS,
            info_view(r@) == occupied(sched.slots(), id as int),
        decreases MAX_TASKS - id,
    {
        match &sched.tasks[id] {
            Some(t) => {
                let ghost before = r@;
                r.push(TaskInfo { id, name: t.name, state: t.state, runs: t.runs });
                assert(info_view(r@) =~= info_view(before).push((id, t.name, t.state, t.runs)));
            },
            None => {},
        }
        id += 1;
    }
    r
}

/// Marks the task in slot `id` finished; tells whether there was one that
/// had not finished yet (otherwise nothing changes).
pub fn kill_task<F: Copy>(sched: &mut Scheduler<F>, id: usize) -> (killed: bool)
    requires
        old(sched).wf(),
    ensures
        final(sched).wf(),
        final(sched).cursor() == old(sched).cursor(),
        killed == (id < MAX_TASKS && old(sched).slots()[id as int] is Some && old(
            sched,
        ).slots()[id as int]->0.state != TaskState::Finished),
        killed ==> final(sched).slots() == old(sched).slots().update(
            id as int,
            Some(Task { state: TaskState::Finished, ..old(sched).slots()[id as int]->0 }),
        ),
        !killed ==> final(sched).slots() == old(sched).slots(),
{
    if id < MAX_TASKS {
        let t = match &sched.tasks[id] {
            Some(t) => {
                if t.state == TaskState::Finished {
                    return false;
                }
                Task { name: t.name, func: t.func, state: TaskState::Finished, runs: t.runs }
            },
            None => return false,
        };
        sched.tasks[id] = Some(t);
        return true;
    }
    false
}

/// Puts a new ready task `name` running `func` in the lowest slot that is
/// empty or holds a finished task; `None` when every slot is busy.
pub fn spawn_task<F: Copy>(sched: &mut Scheduler<F>, name: &'static str, func: F) -> (r: Option<usize>)
    requires
        old(sched).wf(),
    ensures
        final(sched).wf(),
        final(sched).cursor() == old(sched).cursor(),
        r == (match first_reusable(old(sched).slots(), 0) {
            Some(i) => Some(i as usize),
            None => None,
        }),
        r matches Some(i) ==> final(sched).slots() == old(sched).slots().update(
            i as int,
            Some(Task { name, func, state: TaskState::Ready, runs: 0 }),
        ),
        r is None ==> final(sched).slots() == old(sched).slots(),
{
    let mut idx: usize = 0;
    while idx < MAX_TASKS
        invariant
            sched.wf(),
            idx <= MAX_TASKS,
            first_reusable(sched.slots(), 0) == first_reusable(sched.slots(), idx as int),
            *sched == *old(sched),
        decreases MAX_TASKS - idx,
    {
        let reusable = match &sched.tasks[idx] {
            None => true,
            Some(t) => t.state == TaskState::Finished,
        };
        if reusable {
            sched.tasks[idx] = Some(Task::new(name, func));
            return Some(idx);
        }
        idx += 1;
    }
    None
}

/// The number of occupied slots below `k`.
pub open spec fn count_occupied<F>(slots: Seq<Option<Task<F>>>, k: int) -> nat
    decreases k,
{
    if k <= 0 {
        0
    } else {
        count_occupied(slots, k - 1) + if slots[k - 1] is Some {
            1nat
        } else {
            0nat
        }
    }
}

/// The number of occupied slots.
pub fn task_count_locked<F: Copy>(sched: &Scheduler<F>) -> (n: usize)
    requires
        sched.wf(),
    ensures
        n == count_occupied(sched.slots(), MAX_TASKS as int),
{
    let mut n: usize = 0;
    let mut i: usize = 0;
    while i < MAX_TASKS
        invariant
            sched.wf(),
            i <= MAX_TASKS,
            n == count_occupied(sched.slots(), i as int),
            n <= i,
        decreases MAX_TASKS - i,
    {
        if sched.tasks[i].is_some() {
            n += 1;
        }
        i += 1;
    }
    n
}

/// The idle task: it always yields.
pub fn idle_task(ctx: &mut TaskContext)
    ensures
        final(ctx).has_yielded(),
        final(ctx).has_finished() == old(ctx).has_finished(),
{
    ctx.yield_now();
}

/// A background worker: it always yields.
pub fn worker_task(ctx: &mut TaskContext)
    ensures
        final(ctx).has_yielded(),
        final(ctx).has_finished() == old(ctx).has_finished(),
{
    ctx.yield_now();
}

/// The logger: it finishes once the clock has passed tick 128, and yields
/// before that.
pub fn logger_task(ctx: &mut TaskContext)
    ensures
        old(ctx).at_tick() > 128 ==> final(ctx).has_finished() && final(ctx).has_yielded()
            == old(ctx).has_yielded(),
        old(ctx).at_tick() <= 128 ==> final(ctx).has_yielded() && final(ctx).has_finished()
            == old(ctx).has_finished(),
{
    if ctx.tick > 128 {
        ctx.finish();
        return;
    }
    ctx.yield_now();
}


/// How many slots after `start` (cyclically) slot `i` comes.
pub open spec fn cyclic_distance(start: int, i: int) -> int {
    (i - start + 8) % 8
}

proof fn lemma_next_ready_from<F>(slots: Seq<Option<Task<F>>>, start: int, k: int, j: int)
    requires
        0 <= start < 8,
        0 <= k <= 8,
        0 <= j < 8,
        slot_in(slots, j, TaskState::Ready),
        k <= cyclic_distance(start, j),
    ensures
        next_ready(slots, start, k) matches Some(i) && k <= cyclic_distance(start, i)
            <= cyclic_distance(start, j),
    decreases 8 - k,
{
    if k < 8 {
        if slot_in(slots, (start + k) % 8, TaskState::Ready) {
            assert(cyclic_distance(start, (start + k) % 8) == k);
        } else {
            if k == cyclic_distance(start, j) {
                assert((start + k) % 8 == j);
            }
            lemma_next_ready_from(slots, start, k + 1, j);
        }
    }
}

/// Round-robin order: when some slot holds a ready task, the scheduler
/// dispatches a ready task, and none comes cyclically closer after the
/// cursor than the one it picks.
pub proof fn lemma_round_robin<F>(slots: Seq<Option<Task<F>>>, start: int, j: int)
    requires
        slots.len() == MAX_TASKS,
        0 <= start < 8,
        0 <= j < 8,
        slot_in(slots, j, TaskState::Ready),
    ensures
        next_ready(slots, start, 0) matches Some(i) && slot_in(slots, i, TaskState::Ready)
            && cyclic_distance(start, i) <= cyclic_distance(start, j),
{
    lemma_next_ready_from(slots, start, 0, j);
    lemma_next_ready_is_ready(slots, start, 0);
}

/// Yielding is fair: after the task in slot `i` has yielded (the next search
/// starts just after it), it is picked again only when no other slot holds
/// a ready task.
pub proof fn lemma_yield_lets_others_run<F>(slots: Seq<Option<Task<F>>>, i: int, j: int)
    requires
        slots.len() == MAX_TASKS,
        0 <= i < 8,
        0 <= j < 8,
        j != i,
        slot_in(slots, j, TaskState::Ready),
    ensures
        next_ready(slots, (i + 1) % 8, 0) matches Some(k) && k != i,
{
    lemma_round_robin(slots, (i + 1) % 8, j);
    assert(cyclic_distance((i + 1) % 8, i) == 7);
    assert(cyclic_distance((i + 1) % 8, j) < 7);
}

/// Killing ends a task for good: once `kill_task` has marked the task in
/// slot `i` finished (even while it runs), `finish_task` recording the end
/// of that run leaves it finished, and no later search picks it.
pub proof fn lemma_kill_is_final<F>(slots: Seq<Option<Task<F>>>, i: int, finished: bool, start: int)
    requires
        slots.len() == MAX_TASKS,
        0 <= i < MAX_TASKS,
        slots[i] is Some,
        0 <= start < 8,
    ensures
        ({
            let killed = slots.update(i, Some(Task { state: TaskState::Finished, ..slots[i]->0 }));
            let after = killed.update(
                i,
                Some(
                    Task {
                        state: if finished || killed[i]->0.state == TaskState::Finished {
                            TaskState::Finished
                        } else {
                            TaskState::Ready
                        },
                        ..killed[i]->0
                    },
                ),
            );
            &&& slot_in(after, i, TaskState::Finished)
            &&& next_ready(after, start, 0) != Some(i)
        }),
{
    let killed = slots.update(i, Some(Task { state: TaskState::Finished, ..slots[i]->0 }));
    let after = killed.update(
        i,
        Some(
            Task {
                state: if finished || killed[i]->0.state == TaskState::Finished {
                    TaskState::Finished
                } else {
                    TaskState::Ready
                },
                ..killed[i]->0
            },
        ),
    );
    assert(slot_in(after, i, TaskState::Finished));
    lemma_next_ready_is_ready(after, start, 0);
}

/// A dispatch round trip: picking the ready task in slot `i` (marked
/// running, its run counted) and then recording that it returned without
/// finishing leaves the table as it was but for that task's run count, one
/// higher; had it finished, it stays finished.
pub proof fn lemma_dispatch_round_trip<F>(slots: Seq<Option<Task<F>>>, i: int, finished: bool)
    requires
        slots.len() == MAX_TASKS,
        0 <= i < slots.len(),
        slot_in(slots, i, TaskState::Ready),
        slots[i]->0.runs < u64::MAX,
    ensures
        ({
            let t = slots[i]->0;
            let running = slots.update(i, Some(Task { state: TaskState::Running, runs: (t.runs + 1) as u64, ..t }));
            let after = running.update(
                i,
                Some(
                    Task {
                        state: if finished || running[i]->0.state == TaskState::Finished {
                            TaskState::Finished
                        } else {
                            TaskState::Ready
                        },
                        ..running[i]->0
                    },
                ),
            );
            &&& !finished ==> after == slots.update(i, Some(Task { runs: (t.runs + 1) as u64, ..t }))
            &&& !finished ==> forall|start: int| #[trigger] next_ready(after, start, 0) == next_ready(slots, start, 0)
            &&& finished ==> slot_in(after, i, TaskState::Finished)
            &&& forall|j: int| 0 <= j < slots.len() && j != i ==> after[j] == slots[j]
        }),
{
    let t = slots[i]->0;
    let running = slots.update(i, Some(Task { state: TaskState::Running, runs: (t.runs + 1) as u64, ..t }));
    let after = running.update(
        i,
        Some(
            Task {
                state: if finished || running[i]->0.state == TaskState::Finished {
                    TaskState::Finished
                } else {
                    TaskState::Ready
                },
                ..running[i]->0
            },
        ),
    );
    if !finished {
        assert(after =~= slots.update(i, Some(Task { runs: (t.runs + 1) as u64, ..t })));
        assert forall|j: int| 0 <= j < 8 implies slot_in(after, j, TaskState::Ready) == #[trigger] slot_in(
            slots,
            j,
            TaskState::Ready,
        ) by {
            if j != i {
                assert(after[j] == slots[j]);
            }
        }
        assert forall|start: int| #[trigger] next_ready(after, start, 0) == next_ready(slots, start, 0) by {
            lemma_same_readiness(after, slots, start, 0);
        }
    }
}

proof fn lemma_same_readiness<F>(a: Seq<Option<Task<F>>>, b: Seq<Option<Task<F>>>, start: int, k: int)
    requires
        forall|j: int| 0 <= j < 8 ==> slot_in(a, j, TaskState::Ready) == #[trigger] slot_in(b, j, TaskState::Ready),
    ensures
        next_ready(a, start, k) == next_ready(b, start, k),
    decreases 8 - k,
{
    if k < 8 {
        assert(slot_in(a, (start + k) % 8, TaskState::Ready) == slot_in(b, (start + k) % 8, TaskState::Ready));
        lemma_same_readiness(a, b, start, k + 1);
    }
}

/// Whether the slot `d` places after `c` (cyclically) holds a ready task.
pub open spec fn ready_at<F>(slots: Seq<Option<Task<F>>>, c: int, d: int) -> bool {
    slot_in(slots, (c + d) % 8, TaskState::Ready)
}

/// How many of the slots `0..d` places after `c` (cyclically) hold a ready
/// task; `ready_count_from(slots, c, 8)` counts every ready task.
pub open spec fn ready_count_from<F>(slots: Seq<Option<Task<F>>>, c: int, d: int) -> nat
    decreases d,
{
    if d <= 0 {
        0
    } else {
        ready_count_from(slots, c, d - 1) + if ready_at(slots, c, d - 1) {
            1nat
        } else {
            0nat
        }
    }
}

/// How far after `c` the first ready slot at least `d` places after it
/// lies; 8 when there is none.
pub open spec fn first_ready_from<F>(slots: Seq<Option<Task<F>>>, c: int, d: int) -> int
    decreases 8 - d,
{
    if d >= 8 {
        8
    } else if ready_at(slots, c, d) {
        d
    } else {
        first_ready_from(slots, c, d + 1)
    }
}

/// The slot of the `j`-th dispatch (counting from 0) of a run that starts
/// with the search at `c`, in which every dispatched task yields without
/// finishing, so that which slots hold ready tasks stays as it is.
pub open spec fn dispatch_pick<F>(slots: Seq<Option<Task<F>>>, c: int, j: nat) -> Option<int>
    decreases j,
{
    if j == 0 {
        next_ready(slots, c, 0)
    } else {
        match dispatch_pick(slots, c, (j - 1) as nat) {
            Some(p) => next_ready(slots, (p + 1) % 8, 0),
            None => None,
        }
    }
}

proof fn lemma_first_ready_from<F>(slots: Seq<Option<Task<F>>>, c: int, d: int)
    requires
        0 <= d <= 8,
    ensures
        d <= first_ready_from(slots, c, d) <= 8,
        first_ready_from(slots, c, d) < 8 ==> ready_at(slots, c, first_ready_from(slots, c, d)),
        ready_count_from(slots, c, first_ready_from(slots, c, d)) == ready_count_from(slots, c, d),
        ready_count_from(slots, c, d) < ready_count_from(slots, c, 8) ==> first_ready_from(slots, c, d) < 8,
    decreases 8 - d,
{
    if d < 8 {
        lemma_first_ready_from(slots, c, d + 1);
        if !ready_at(slots, c, d) {
            assert(ready_count_from(slots, c, d + 1) == ready_count_from(slots, c, d));
        }
    }
}

proof fn lemma_count_mono<F>(slots: Seq<Option<Task<F>>>, c: int, d1: int, d2: int)
    requires
        0 <= d1 <= d2,
    ensures
        ready_count_from(slots, c, d1) <= ready_count_from(slots, c, d2),
        d1 < d2 && ready_at(slots, c, d1) ==> ready_count_from(slots, c, d1) < ready_count_from(slots, c, d2),
    decreases d2 - d1,
{
    if d1 < d2 {
        lemma_count_mono(slots, c, d1, d2 - 1);
    }
}

proof fn lemma_search_from<F>(slots: Seq<Option<Task<F>>>, c: int, d: int, k: int)
    requires
        0 <= c < 8,
        0 <= d < 8,
        0 <= k,
        d + k <= 8,
        first_ready_from(slots, c, d + k) < 8,
    ensures
        next_ready(slots, (c + d) % 8, k) == Some((c + first_ready_from(slots, c, d + k)) % 8),
    decreases 8 - k,
{
    let start = (c + d) % 8;
    assert((start + k) % 8 == (c + d + k) % 8);
    if d + k < 8 && !ready_at(slots, c, d + k) {
        lemma_search_from(slots, c, d, k + 1);
    }
}

/// The `j`-th ready slot after `c`, counted by distance.
pub open spec fn nth_ready<F>(slots: Seq<Option<Task<F>>>, c: int, j: nat) -> int
    decreases j,
{
    if j == 0 {
        first_ready_from(slots, c, 0)
    } else {
        first_ready_from(slots, c, nth_ready(slots, c, (j - 1) as nat) + 1)
    }
}

#[verifier::spinoff_prover]
#[verifier::rlimit(40)]
proof fn lemma_nth_pick<F>(slots: Seq<Option<Task<F>>>, c: int, j: nat)
    requires
        0 <= c < 8,
        j < ready_count_from(slots, c, 8),
    ensures
        0 <= nth_ready(slots, c, j) < 8,
        ready_at(slots, c, nth_ready(slots, c, j)),
        ready_count_from(slots, c, nth_ready(slots, c, j)) == j,
        dispatch_pick(slots, c, j) == Some((c + nth_ready(slots, c, j)) % 8),
    decreases j,
{
    if j == 0 {
        lemma_first_ready_from(slots, c, 0);
        assert(c % 8 == (c + 0) % 8);
        lemma_search_from(slots, c, 0, 0);
    } else {
        let jp = (j - 1) as nat;
        lemma_nth_pick(slots, c, jp);
        let n = nth_ready(slots, c, jp);
        assert(ready_count_from(slots, c, n + 1) == jp + 1);
        lemma_first_ready_from(slots, c, n + 1);
        let m = nth_ready(slots, c, j);
        assert(((c + n) % 8 + 1) % 8 == (c + (n + 1)) % 8);
        lemma_search_from(slots, c, n + 1, 0);
    }
}

/// Round-robin without starvation: in a run where every dispatched task
/// yields and none finishes, is killed or is spawned (so which slots hold
/// ready tasks stays as it is; see [`lemma_dispatch_round_trip`]), any
/// `R` consecutive dispatches, `R` the number of ready tasks, run every
/// ready task exactly once: each of them picks a ready slot, and no two
/// pick the same.
#[verifier::spinoff_prover]
#[verifier::rlimit(40)]
pub proof fn lemma_round_robin_window<F>(slots: Seq<Option<Task<F>>>, c: int)
    requires
        slots.len() == MAX_TASKS,
        0 <= c < 8,
    ensures
        forall|j: nat|
            j < ready_count_from(slots, c, 8) ==> (#[trigger] dispatch_pick(slots, c, j) matches Some(
                p,
            ) && 0 <= p < 8 && slot_in(slots, p, TaskState::Ready)),
        forall|j1: nat, j2: nat|
            j1 < j2 < ready_count_from(slots, c, 8) ==> #[trigger] dispatch_pick(slots, c, j1)
                != #[trigger] dispatch_pick(slots, c, j2),
{
    assert forall|j: nat| j < ready_count_from(slots, c, 8) implies (#[trigger] dispatch_pick(
        slots,
        c,
        j,
    ) matches Some(p) && 0 <= p < 8 && slot_in(slots, p, TaskState::Ready)) by {
        lemma_nth_pick(slots, c, j);
    }
    assert forall|j1: nat, j2: nat| j1 < j2 < ready_count_from(slots, c, 8) implies #[trigger] dispatch_pick(
        slots,
        c,
        j1,
    ) != #[trigger] dispatch_pick(slots, c, j2) by {
        lemma_nth_pick(slots, c, j1);
        lemma_nth_pick(slots, c, j2);
        let n1 = nth_ready(slots, c, j1);
        let n2 = nth_ready(slots, c, j2);
        if n2 <= n1 {
            lemma_count_mono(slots, c, n2, n1);
        }
        assert(n1 < n2);
        assert((c + n1) % 8 != (c + n2) % 8);
    }
}

/// Only ready tasks run: a task that is running or finished (killed, or
/// done by its own choice) is never picked.
pub proof fn lemma_only_ready_dispatched<F>(slots: Seq<Option<Task<F>>>, start: int, i: int)
    requires
        0 <= start < 8,
        next_ready(slots, start, 0) == Some(i),
    ensures
        slot_in(slots, i, TaskState::Ready),
        !slot_in(slots, i, TaskState::Finished),
{
    lemma_next_ready_is_ready(slots, start, 0);
}

/// After `kill_task` has killed slot `id`, `spawn_task` always finds room:
/// a finished task's slot is reusable.
pub proof fn lemma_killed_slot_reusable<F>(slots: Seq<Option<Task<F>>>, id: int)
    requires
        0 <= id < MAX_TASKS,
        slot_in(slots, id, TaskState::Finished),
    ensures
        first_reusable(slots, 0) matches Some(i) && i <= id,
{
    lemma_first_reusable_below(slots, 0, id);
}

proof fn lemma_first_reusable_below<F>(slots: Seq<Option<Task<F>>>, k: int, id: int)
    requires
        0 <= k <= id < 8,
        slot_in(slots, id, TaskState::Finished),
    ensures
        first_reusable(slots, k) matches Some(i) && k <= i <= id,
    decreases id - k,
{
    if k < id && !(slots[k] is None || slot_in(slots, k, TaskState::Finished)) {
        lemma_first_reusable_below(slots, k + 1, id);
    }
}

} // verus!
