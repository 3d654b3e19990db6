//! Kernel task scheduler state: round-robin selection, per-task CPU
//! accounting, kill, futex wait/wake and the task listing. The stack
//! switching itself (saving and loading registers) happens at the CPU edge,
//! which asks [`switch_with`] which task to resume.

use vstd::prelude::*;

verus! {

/// Lifecycle state of a task.
#[derive(Clone, Copy, PartialEq, Eq, Debug, Structural)]
pub enum TaskState {
    Runnable,
    /// Blocked on a futex address (`wait_key`); skipped until woken.
    Blocked,
    Finished,
}

/// The scheduler's record of one task.
#[derive(Clone, Copy)]
pub struct TaskRec {
    pub id: u64,
    pub name: &'static str,
    pub state: TaskState,
    /// Accumulated CPU time in timer ticks.
    pub cpu_ticks: u64,
    /// Futex key the task waits on; meaningful while it is `Blocked`.
    pub wait_key: u64,
    /// Whether the task backs a ring-3 user thread.
    pub user: bool,
}

/// Snapshot of a task for the process listing.
#[derive(Clone, Copy)]
pub struct TaskInfo {
    pub id: u64,
    pub name: &'static str,
    pub running: bool,
    pub finished: bool,
    pub cpu_ticks: u64,
}

/// Round-robin scheduler state. Task 0 is the boot flow.
pub struct Scheduler {
    pub tasks: Vec<TaskRec>,
    pub current: usize,
    pub next_id: u64,
    /// Whether the scheduler has been started.
    pub started: bool,
    /// Timer-driven preemption (cooperative yields always work).
    pub preempt_enabled: bool,
}

impl Scheduler {
    /// The current index names a task.
    pub open spec fn wf(&self) -> bool {
        self.current < self.tasks@.len()
    }
}

/// Register the running boot flow as task 0 ("kernel").
pub fn init() -> (s: Scheduler)
    ensures
        s.wf(),
        s.tasks@.len() == 1,
        s.tasks@[0].id == 0 && s.tasks@[0].state == TaskState::Runnable && s.tasks@[0].cpu_ticks == 0,
        s.current == 0 && s.next_id == 1 && s.started && !s.preempt_enabled,
{
    let mut tasks: Vec<TaskRec> = Vec::new();
    tasks.push(TaskRec { id: 0, name: "kernel", state: TaskState::Runnable, cpu_ticks: 0, wait_key: 0, user: false });
    Scheduler { tasks, current: 0, next_id: 1, started: true, preempt_enabled: false }
}

/// Index reached `off` steps after `cur` in a ring of `n` tasks.
pub open spec fn ring(cur: int, off: int, n: int) -> int {
    (cur + off) % n
}

/// The next runnable task after `cur` in round-robin order (checking the
/// following tasks and finally `cur` itself), else `cur`.
pub open spec fn pick_next_spec(tasks: Seq<TaskRec>, cur: int) -> int {
    let n = tasks.len() as int;
    if exists|off: int| 1 <= off <= n && #[trigger] tasks[ring(cur, off, n)].state == TaskState::Runnable {
        ring(cur, choose|off: int| 1 <= off <= n && tasks[ring(cur, off, n)].state == TaskState::Runnable
            && forall|o: int| 1 <= o < off ==> #[trigger] tasks[ring(cur, o, n)].state != TaskState::Runnable, n)
    } else {
        cur
    }
}

/// Pick the next runnable task after `current` (round-robin).
pub fn pick_next(s: &Scheduler) -> (i: usize)
    requires
        s.wf(),
    ensures
        i < s.tasks@.len(),
        i == pick_next_spec(s.tasks@, s.current as int),
        i == s.current || s.tasks@[i as int].state == TaskState::Runnable,
{
    let n = s.tasks.len();
    let mut off: usize = 1;
    while off < n
        invariant
            1 <= off <= n,
            n == s.tasks@.len(),
            s.current < n,
            forall|o: int| 1 <= o < off ==> #[trigger] s.tasks@[ring(s.current as int, o, n as int)].state != TaskState::Runnable,
        decreases n - off,
    {
        let idx = if off < n - s.current { s.current + off } else { off - (n - s.current) };
        proof {
            if off < n - s.current {
                vstd::arithmetic::div_mod::lemma_small_mod((s.current + off) as nat, n as nat);
            } else {
                vstd::arithmetic::div_mod::lemma_mod_sub_multiples_vanish((s.current + off) as int, n as int);
                vstd::arithmetic::div_mod::lemma_small_mod((s.current + off - n) as nat, n as nat);
            }
            assert(idx == ring(s.current as int, off as int, n as int));
        }
        if s.tasks[idx].state == TaskState::Runnable {
            proof {
                let c = choose|o: int| 1 <= o <= n && s.tasks@[ring(s.current as int, o, n as int)].state == TaskState::Runnable
                    && forall|p: int| 1 <= p < o ==> #[trigger] s.tasks@[ring(s.current as int, p, n as int)].state != TaskState::Runnable;
                assert(s.tasks@[ring(s.current as int, off as int, n as int)].state == TaskState::Runnable);
                if c < off as int {
                } else if c > off as int {
                    assert(s.tasks@[ring(s.current as int, off as int, n as int)].state != TaskState::Runnable);
                }
            }
            return idx;
        }
        off = off + 1;
    }
    proof {
        vstd::arithmetic::div_mod::lemma_mod_sub_multiples_vanish((s.current + n) as int, n as int);
        vstd::arithmetic::div_mod::lemma_small_mod(s.current as nat, n as nat);
        assert(ring(s.current as int, n as int, n as int) == s.current);
        if s.tasks@[s.current as int].state == TaskState::Runnable {
            let c = choose|o: int| 1 <= o <= n && s.tasks@[ring(s.current as int, o, n as int)].state == TaskState::Runnable
                && forall|p: int| 1 <= p < o ==> #[trigger] s.tasks@[ring(s.current as int, p, n as int)].state != TaskState::Runnable;
            assert(s.tasks@[ring(s.current as int, n as int, n as int)].state == TaskState::Runnable);
            if c < n as int {
            } else if c > n as int {
            }
        } else {
            assert forall|o: int| 1 <= o <= n implies #[trigger] s.tasks@[ring(s.current as int, o, n as int)].state != TaskState::Runnable by {
                if o < n as int {
                    assert(s.tasks@[ring(s.current as int, o, n as int)].state != TaskState::Runnable);
                }
            }
        }
    }
    s.current
}

/// Charge one timer tick to the currently running task.
pub fn account_tick(s: &mut Scheduler)
    requires
        old(s).wf(),
    ensures
        final(s).wf(),
        final(s).tasks@ == old(s).tasks@.update(old(s).current as int, TaskRec {
            cpu_ticks: old(s).tasks@[old(s).current as int].cpu_ticks.wrapping_add(1),
            ..old(s).tasks@[old(s).current as int]
        }),
        final(s).current == old(s).current && final(s).next_id == old(s).next_id,
        final(s).started == old(s).started && final(s).preempt_enabled == old(s).preempt_enabled,
{
    let cur = s.current;
    let mut t = s.tasks[cur];
    t.cpu_ticks = t.cpu_ticks.wrapping_add(1);
    s.tasks.set(cur, t);
}

/// The listing entry of task `t` given the current task's id.
pub open spec fn info_of(t: TaskRec, current_id: u64) -> TaskInfo {
    TaskInfo {
        id: t.id,
        name: t.name,
        running: t.state == TaskState::Runnable && t.id == current_id,
        finished: t.state == TaskState::Finished,
        cpu_ticks: t.cpu_ticks,
    }
}

/// The task listing of a scheduler.
pub open spec fn list_spec(s: &Scheduler) -> Seq<TaskInfo> {
    s.tasks@.map_values(|t: TaskRec| info_of(t, s.tasks@[s.current as int].id))
}

/// List all tasks (kernel-side). The user app is added by the process layer.
pub fn list(s: &Scheduler) -> (v: Vec<TaskInfo>)
    requires
        s.wf(),
    ensures
        v@ == list_spec(s),
{
    let cur_id = s.tasks[s.current].id;
    let mut v: Vec<TaskInfo> = Vec::new();
    let mut i: usize = 0;
    while i < s.tasks.len()
        invariant
            i <= s.tasks@.len(),
            v@.len() == i,
            s.wf(),
            cur_id == s.tasks@[s.current as int].id,
            forall|j: int| 0 <= j < i ==> #[trigger] v@[j] == info_of(s.tasks@[j], cur_id),
        decreases s.tasks@.len() - i,
    {
        let t = s.tasks[i];
        v.push(TaskInfo {
            id: t.id,
            name: t.name,
            running: t.state == TaskState::Runnable && t.id == cur_id,
            finished: t.state == TaskState::Finished,
            cpu_ticks: t.cpu_ticks,
        });
        i = i + 1;
    }
    assert(v@ =~= list_spec(s));
    v
}

/// Index of the first task with `id`.
pub open spec fn first_with_id(tasks: Seq<TaskRec>, id: u64) -> int {
    if exists|i: int| 0 <= i < tasks.len() && #[trigger] tasks[i].id == id {
        choose|i: int| 0 <= i < tasks.len() && tasks[i].id == id && forall|j: int| 0 <= j < i ==> #[trigger] tasks[j].id != id
    } else {
        -1
    }
}

fn find_id(s: &Scheduler, id: u64) -> (r: Option<usize>)
    ensures
        r is None ==> forall|i: int| 0 <= i < s.tasks@.len() ==> #[trigger] s.tasks@[i].id != id,
        r is None ==> first_with_id(s.tasks@, id) == -1,
        r is Some ==> r->0 < s.tasks@.len() && s.tasks@[r->0 as int].id == id && first_with_id(s.tasks@, id) == r->0,
{
    let mut i: usize = 0;
    while i < s.tasks.len()
        invariant
            i <= s.tasks@.len(),
            forall|j: int| 0 <= j < i ==> #[trigger] s.tasks@[j].id != id,
        decreases s.tasks@.len() - i,
    {
        if s.tasks[i].id == id {
            proof {
                let c = choose|c: int| 0 <= c < s.tasks@.len() && s.tasks@[c].id == id && forall|j: int| 0 <= j < c ==> #[trigger] s.tasks@[j].id != id;
                if c < i as int {} else if c > i as int { assert(s.tasks@[i as int].id == id); }
            }
            return Some(i);
        }
        i = i + 1;
    }
    None
}

/// Mark a task finished by id (for PROC_KILL). The boot task (id 0) is
/// protected. Returns true if a live task (runnable, or blocked on a futex)
/// was terminated.
pub fn kill(s: &mut Scheduler, id: u64) -> (killed: bool)
    requires
        old(s).wf(),
    ensures
        final(s).wf(),
        final(s).current == old(s).current && final(s).next_id == old(s).next_id,
        final(s).started == old(s).started && final(s).preempt_enabled == old(s).preempt_enabled,
        killed == (id != 0 && first_with_id(old(s).tasks@, id) >= 0
            && old(s).tasks@[first_with_id(old(s).tasks@, id)].state != TaskState::Finished),
        killed ==> final(s).tasks@ == old(s).tasks@.update(first_with_id(old(s).tasks@, id), TaskRec {
            state: TaskState::Finished,
            ..old(s).tasks@[first_with_id(old(s).tasks@, id)]
        }),
        !killed ==> final(s).tasks@ == old(s).tasks@,
{
    if id == 0 {
        return false;
    }
    match find_id(s, id) {
        Some(i) => {
            if s.tasks[i].state != TaskState::Finished {
                let mut t = s.tasks[i];
                t.state = TaskState::Finished;
                s.tasks.set(i, t);
                true
            } else {
                false
            }
        },
        None => false,
    }
}

/// Register a new kernel task named `name`; returns its id. Finished tasks'
/// resources are reaped at the CPU edge at the same time.
pub fn spawn_named(s: &mut Scheduler, name: &'static str) -> (id: u64)
    requires
        old(s).wf(),
        old(s).next_id < u64::MAX,
    ensures
        final(s).wf(),
        id == old(s).next_id,
        final(s).next_id == old(s).next_id + 1,
        final(s).current == old(s).current,
        final(s).tasks@ == old(s).tasks@.push(TaskRec {
            id, name, state: TaskState::Runnable, cpu_ticks: 0, wait_key: 0, user: false,
        }),
{
    let id = s.next_id;
    s.next_id = s.next_id + 1;
    s.tasks.push(TaskRec { id, name, state: TaskState::Runnable, cpu_ticks: 0, wait_key: 0, user: false });
    id
}

/// Register a new kernel task with the default name "task"; returns its id.
pub fn spawn(s: &mut Scheduler) -> (id: u64)
    requires
        old(s).wf(),
        old(s).next_id < u64::MAX,
    ensures
        final(s).wf(),
        id == old(s).next_id,
        final(s).next_id == old(s).next_id + 1,
        final(s).current == old(s).current,
        final(s).tasks@ == old(s).tasks@.push(TaskRec {
            id, name: "task", state: TaskState::Runnable, cpu_ticks: 0, wait_key: 0, user: false,
        }),
{
    spawn_named(s, "task")
}

/// Register a ring-3 user thread ("uthread"); returns its thread id.
pub fn spawn_user_thread(s: &mut Scheduler) -> (id: u64)
    requires
        old(s).wf(),
        old(s).next_id < u64::MAX,
    ensures
        final(s).wf(),
        id == old(s).next_id,
        final(s).next_id == old(s).next_id + 1,
        final(s).current == old(s).current,
        final(s).tasks@ == old(s).tasks@.push(TaskRec {
            id, name: "uthread", state: TaskState::Runnable, cpu_ticks: 0, wait_key: 0, user: true,
        }),
{
    let id = s.next_id;
    s.next_id = s.next_id + 1;
    s.tasks.push(TaskRec { id, name: "uthread", state: TaskState::Runnable, cpu_ticks: 0, wait_key: 0, user: true });
    id
}

/// Current thread's id (backs THREAD_SELF).
pub fn current_id(s: &Scheduler) -> (id: u64)
    requires
        s.wf(),
    ensures
        id == s.tasks@[s.current as int].id,
{
    s.tasks[s.current].id
}

/// Futex wait decision: block the current thread on `key` when another task
/// is runnable to switch to (the caller then yields). Returns whether it
/// blocked.
pub fn futex_wait_block(s: &mut Scheduler, key: u64) -> (blocked: bool)
    requires
        old(s).wf(),
    ensures
        final(s).wf(),
        final(s).current == old(s).current && final(s).next_id == old(s).next_id,
        blocked == exists|i: int| 0 <= i < old(s).tasks@.len() && i != old(s).current
            && #[trigger] old(s).tasks@[i].state == TaskState::Runnable,
        blocked ==> final(s).tasks@ == old(s).tasks@.update(old(s).current as int, TaskRec {
            state: TaskState::Blocked,
            wait_key: key,
            ..old(s).tasks@[old(s).current as int]
        }),
        !blocked ==> final(s).tasks@ == old(s).tasks@,
{
    let cur = s.current;
    let mut i: usize = 0;
    let mut has_other = false;
    while i < s.tasks.len()
        invariant
            i <= s.tasks@.len(),
            s.tasks@ == old(s).tasks@,
            cur == s.current,
            s.current == old(s).current,
            has_other == exists|j: int| 0 <= j < i && j != cur && #[trigger] s.tasks@[j].state == TaskState::Runnable,
        decreases s.tasks@.len() - i,
    {
        if i != cur && s.tasks[i].state == TaskState::Runnable {
            has_other = true;
        }
        i = i + 1;
    }
    if has_other {
        let mut t = s.tasks[cur];
        t.state = TaskState::Blocked;
        t.wait_key = key;
        s.tasks.set(cur, t);
    }
    has_other
}

/// Number of tasks among the first `k` that are blocked on `key`.
pub open spec fn blocked_on(tasks: Seq<TaskRec>, key: u64, k: int) -> int
    decreases k,
{
    if k <= 0 {
        0
    } else {
        blocked_on(tasks, key, k - 1) + if tasks[k - 1].state == TaskState::Blocked && tasks[k - 1].wait_key == key { 1int } else { 0int }
    }
}

/// The task list after waking: in list order, tasks blocked on `key` become
/// runnable (wait key cleared) until `count` have been woken.
pub open spec fn woken(t: TaskRec, key: u64, i: int, tasks: Seq<TaskRec>, count: u64) -> TaskRec {
    if t.state == TaskState::Blocked && t.wait_key == key && blocked_on(tasks, key, i) < count {
        TaskRec { state: TaskState::Runnable, wait_key: 0, ..t }
    } else {
        t
    }
}

/// Futex wake: make up to `count` threads blocked on `key` runnable, in list
/// order. Returns the number woken.
pub fn futex_wake(s: &mut Scheduler, key: u64, count: u64) -> (n: u64)
    requires
        old(s).wf(),
    ensures
        final(s).wf(),
        final(s).current == old(s).current && final(s).next_id == old(s).next_id,
        final(s).tasks@.len() == old(s).tasks@.len(),
        forall|i: int| 0 <= i < old(s).tasks@.len() ==> #[trigger] final(s).tasks@[i] == woken(old(s).tasks@[i], key, i, old(s).tasks@, count),
        n == (if blocked_on(old(s).tasks@, key, old(s).tasks@.len() as int) < count {
            blocked_on(old(s).tasks@, key, old(s).tasks@.len() as int)
        } else {
            count as int
        }),
{
    let ghost orig = s.tasks@;
    let mut n: u64 = 0;
    let mut i: usize = 0;
    while i < s.tasks.len()
        invariant
            i <= s.tasks@.len(),
            s.tasks@.len() == orig.len(),
            orig == old(s).tasks@,
            s.current == old(s).current && s.next_id == old(s).next_id,
            n == (if blocked_on(orig, key, i as int) < count { blocked_on(orig, key, i as int) } else { count as int }),
            forall|j: int| 0 <= j < i ==> #[trigger] s.tasks@[j] == woken(orig[j], key, j, orig, count),
            forall|j: int| i <= j < orig.len() ==> #[trigger] s.tasks@[j] == orig[j],
        decreases orig.len() - i,
    {
        let t = s.tasks[i];
        if t.state == TaskState::Blocked && t.wait_key == key && n < count {
            s.tasks.set(i, TaskRec { state: TaskState::Runnable, wait_key: 0, ..t });
            n = n + 1;
        }
        proof {
            assert(blocked_on(orig, key, i as int + 1) == blocked_on(orig, key, i as int)
                + if orig[i as int].state == TaskState::Blocked && orig[i as int].wait_key == key { 1int } else { 0int });
        }
        i = i + 1;
    }
    n
}

/// True if the thread with `id` has finished (or no longer exists).
pub fn is_finished(s: &Scheduler, id: u64) -> (f: bool)
    ensures
        f == (first_with_id(s.tasks@, id) < 0 || s.tasks@[first_with_id(s.tasks@, id)].state == TaskState::Finished),
{
    match find_id(s, id) {
        Some(i) => s.tasks[i].state == TaskState::Finished,
        None => true,
    }
}

/// When an app finishes: every other task backing a user thread is marked
/// finished and the current task stops being a user thread.
pub fn terminate_user_threads(s: &mut Scheduler)
    requires
        old(s).wf(),
    ensures
        final(s).wf(),
        final(s).current == old(s).current && final(s).next_id == old(s).next_id,
        final(s).tasks@.len() == old(s).tasks@.len(),
        forall|i: int| 0 <= i < old(s).tasks@.len() && i != old(s).current ==> #[trigger] final(s).tasks@[i]
            == if old(s).tasks@[i].user { TaskRec { state: TaskState::Finished, ..old(s).tasks@[i] } } else { old(s).tasks@[i] },
        final(s).tasks@[old(s).current as int] == (TaskRec { user: false, ..old(s).tasks@[old(s).current as int] }),
{
    let cur = s.current;
    let mut i: usize = 0;
    while i < s.tasks.len()
        invariant
            i <= s.tasks@.len(),
            s.tasks@.len() == old(s).tasks@.len(),
            cur == s.current && s.current == old(s).current && s.next_id == old(s).next_id,
            cur < s.tasks@.len(),
            forall|j: int| 0 <= j < i && j != cur ==> #[trigger] s.tasks@[j]
                == if old(s).tasks@[j].user { TaskRec { state: TaskState::Finished, ..old(s).tasks@[j] } } else { old(s).tasks@[j] },
            forall|j: int| (i <= j < old(s).tasks@.len() || j == cur) && 0 <= j ==> #[trigger] s.tasks@[j] == old(s).tasks@[j],
        decreases s.tasks@.len() - i,
    {
        if i != cur && s.tasks[i].user {
            let t = s.tasks[i];
            s.tasks.set(i, TaskRec { state: TaskState::Finished, ..t });
        }
        i = i + 1;
    }
    let t = s.tasks[cur];
    s.tasks.set(cur, TaskRec { user: false, ..t });
}

/// Enable or disable timer-driven preemption.
pub fn set_preemption(s: &mut Scheduler, enabled: bool)
    ensures
        final(s).preempt_enabled == enabled,
        final(s).tasks == old(s).tasks && final(s).current == old(s).current && final(s).next_id == old(s).next_id,
        final(s).started == old(s).started,
{
    s.preempt_enabled = enabled;
}

/// The switch decision of a yield or preemption: after `before` has been
/// applied, pick the next runnable task; if it differs from the current one,
/// make it current and return `(previous, next)` for the CPU edge to switch
/// stacks.
pub fn switch_with(s: &mut Scheduler) -> (sw: Option<(usize, usize)>)
    requires
        old(s).wf(),
    ensures
        final(s).wf(),
        final(s).tasks@ == old(s).tasks@ && final(s).next_id == old(s).next_id,
        ({
            let next = pick_next_spec(old(s).tasks@, old(s).current as int);
            &&& next == old(s).current ==> sw is None && final(s).current == old(s).current
            &&& next != old(s).current ==> sw == Some((old(s).current, next as usize)) && final(s).current == next
        }),
{
    let next = pick_next(s);
    if next == s.current {
        return None;
    }
    let prev = s.current;
    s.current = next;
    Some((prev, next))
}

/// Voluntarily give up the CPU: switch when the scheduler has started.
pub fn yield_now(s: &mut Scheduler) -> (sw: Option<(usize, usize)>)
    requires
        old(s).wf(),
    ensures
        final(s).wf(),
        !old(s).started ==> sw is None && *final(s) == *old(s),
        old(s).started ==> final(s).tasks@ == old(s).tasks@ && ({
            let next = pick_next_spec(old(s).tasks@, old(s).current as int);
            &&& next == old(s).current ==> sw is None && final(s).current == old(s).current
            &&& next != old(s).current ==> sw == Some((old(s).current, next as usize)) && final(s).current == next
        }),
{
    if !s.started {
        return None;
    }
    switch_with(s)
}

/// Timer-interrupt preemption: switch only when started and enabled.
pub fn preempt(s: &mut Scheduler) -> (sw: Option<(usize, usize)>)
    requires
        old(s).wf(),
    ensures
        final(s).wf(),
        !(old(s).started && old(s).preempt_enabled) ==> sw is None && *final(s) == *old(s),
        old(s).started && old(s).preempt_enabled ==> final(s).tasks@ == old(s).tasks@ && ({
            let next = pick_next_spec(old(s).tasks@, old(s).current as int);
            &&& next == old(s).current ==> sw is None && final(s).current == old(s).current
            &&& next != old(s).current ==> sw == Some((old(s).current, next as usize)) && final(s).current == next
        }),
{
    if !s.started || !s.preempt_enabled {
        return None;
    }
    switch_with(s)
}

/// Mark the current task finished and pick the task to switch to.
pub fn exit_current(s: &mut Scheduler) -> (sw: Option<(usize, usize)>)
    requires
        old(s).wf(),
    ensures
        final(s).wf(),
        final(s).tasks@[old(s).current as int].state == TaskState::Finished,
{
    let cur = s.current;
    let t = s.tasks[cur];
    s.tasks.set(cur, TaskRec { state: TaskState::Finished, ..t });
    switch_with(s)
}

/// Law: the boot task can never be killed.
pub proof fn lemma_boot_task_protected(tasks: Seq<TaskRec>, id: u64)
    requires
        id == 0,
    ensures
        !(id != 0 && first_with_id(tasks, id) >= 0),
{
}

/// The first index with `id` is the unique index holding `id` with no
/// earlier one.
proof fn lemma_first_unique(tasks: Seq<TaskRec>, id: u64, a: int)
    requires
        0 <= a < tasks.len(),
        tasks[a].id == id,
        forall|j: int| 0 <= j < a ==> #[trigger] tasks[j].id != id,
    ensures
        first_with_id(tasks, id) == a,
{
    let c = first_with_id(tasks, id);
    assert(tasks[c].id == id && forall|j: int| 0 <= j < c ==> #[trigger] tasks[j].id != id);
    if c < a {
        assert(tasks[c].id != id);
    } else if c > a {
        assert(tasks[a].id != id);
    }
}

/// Law: a task that `kill` terminated reads as finished afterwards.
pub proof fn lemma_killed_is_finished(tasks: Seq<TaskRec>, id: u64)
    requires
        id != 0,
        first_with_id(tasks, id) >= 0,
    ensures
        ({
            let i = first_with_id(tasks, id);
            let after = tasks.update(i, TaskRec { state: TaskState::Finished, ..tasks[i] });
            first_with_id(after, id) == i && after[first_with_id(after, id)].state == TaskState::Finished
        }),
{
    let i = first_with_id(tasks, id);
    assert(exists|k: int| 0 <= k < tasks.len() && #[trigger] tasks[k].id == id);
    let k = choose|k: int| 0 <= k < tasks.len() && #[trigger] tasks[k].id == id;
    lemma_first_id_exists(tasks, id, k);
    assert(tasks[i].id == id && forall|j: int| 0 <= j < i ==> #[trigger] tasks[j].id != id);
    let after = tasks.update(i, TaskRec { state: TaskState::Finished, ..tasks[i] });
    assert forall|j: int| 0 <= j < i implies #[trigger] after[j].id != id by {
        assert(after[j] == tasks[j]);
    }
    lemma_first_unique(after, id, i);
}

/// Law: round-robin selection only ever resumes a runnable task, or stays put.
#[verifier::spinoff_prover]
#[verifier::rlimit(40)]
pub proof fn lemma_pick_next_runnable(tasks: Seq<TaskRec>, cur: int)
    requires
        0 <= cur < tasks.len(),
    ensures
        pick_next_spec(tasks, cur) == cur || tasks[pick_next_spec(tasks, cur)].state == TaskState::Runnable,
        0 <= pick_next_spec(tasks, cur) < tasks.len(),
{
    let n = tasks.len() as int;
    if exists|off: int| 1 <= off <= n && #[trigger] tasks[ring(cur, off, n)].state == TaskState::Runnable {
        let w = choose|off: int| 1 <= off <= n && tasks[ring(cur, off, n)].state == TaskState::Runnable;
        let c = choose|off: int| 1 <= off <= n && tasks[ring(cur, off, n)].state == TaskState::Runnable
            && forall|o: int| 1 <= o < off ==> #[trigger] tasks[ring(cur, o, n)].state != TaskState::Runnable;
        lemma_first_runnable_exists(tasks, cur, w);
    }
}

proof fn lemma_first_id_exists(tasks: Seq<TaskRec>, id: u64, w: int)
    requires
        0 <= w < tasks.len(),
        tasks[w].id == id,
    ensures
        exists|i: int| 0 <= i < tasks.len() && tasks[i].id == id && forall|j: int| 0 <= j < i ==> #[trigger] tasks[j].id != id,
    decreases w,
{
    if forall|j: int| 0 <= j < w ==> #[trigger] tasks[j].id != id {
    } else {
        let o = choose|j: int| 0 <= j < w && #[trigger] tasks[j].id == id;
        lemma_first_id_exists(tasks, id, o);
    }
}

proof fn lemma_first_runnable_exists(tasks: Seq<TaskRec>, cur: int, w: int)
    requires
        0 <= cur < tasks.len(),
        1 <= w <= tasks.len(),
        tasks[ring(cur, w, tasks.len() as int)].state == TaskState::Runnable,
    ensures
        exists|off: int| 1 <= off <= tasks.len() && tasks[ring(cur, off, tasks.len() as int)].state == TaskState::Runnable
            && forall|o: int| 1 <= o < off ==> #[trigger] tasks[ring(cur, o, tasks.len() as int)].state != TaskState::Runnable,
    decreases w,
{
    let n = tasks.len() as int;
    if forall|o: int| 1 <= o < w ==> #[trigger] tasks[ring(cur, o, n)].state != TaskState::Runnable {
    } else {
        let o = choose|o: int| 1 <= o < w && #[trigger] tasks[ring(cur, o, n)].state == TaskState::Runnable;
        lemma_first_runnable_exists(tasks, cur, o);
    }
}

} // verus!
