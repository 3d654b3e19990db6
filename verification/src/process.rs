//! Process registry: a unified view of kernel tasks plus the running ring-3
//! user app, backing the PROC_LIST / PROC_KILL / SYS_STAT syscalls and the
//! Task Manager app. At most one user app runs at a time.

use vstd::prelude::*;
use vstd::string::StringSliceAdditionalSpecFns;
use crate::abi::{proc_state, ProcInfo, SysStat};
use crate::task::{Scheduler, TaskState, TaskInfo};

verus! {

/// A process name as stored in a `ProcInfo`: the first 31 bytes of the
/// name, zero-padded to 32.
pub open spec fn name_bytes(name: Seq<u8>) -> Seq<u8> {
    Seq::new(32, |k: int| if k < 31 && k < name.len() { name[k] } else { 0u8 })
}

/// Null-padded copy of at most 31 bytes of `name`.
pub fn copy_name(name: &str) -> (buf: [u8; 32])
    ensures
        buf@ == name_bytes(name.spec_bytes()),
{
    let b = name.as_bytes();
    let mut buf = [0u8; 32];
    let mut i: usize = 0;
    while i < 31 && i < b.len()
        invariant
            i <= 31,
            i <= b@.len(),
            b@ == name.spec_bytes(),
            buf@.len() == 32,
            forall|k: int| 0 <= k < i ==> buf@[k] == b@[k],
            forall|k: int| i <= k < 32 ==> buf@[k] == 0u8,
        decreases 31 - i,
    {
        buf[i] = b[i];
        i = i + 1;
    }
    assert(buf@ =~= name_bytes(name.spec_bytes()));
    buf
}

/// The currently running user app.
pub struct RunningApp {
    pub pid: u64,
    pub name: [u8; 32],
}

/// The process registry.
pub struct ProcRegistry {
    pub app: Option<RunningApp>,
    /// Ticks charged to the running app.
    pub app_cpu: u64,
    /// Pid handed to the next launched app.
    pub next_app_pid: u64,
}

impl ProcRegistry {
    /// No app running; app pids start at 1000.
    pub fn new() -> (r: ProcRegistry)
        ensures
            r.app is None && r.app_cpu == 0 && r.next_app_pid == 1000,
    {
        ProcRegistry { app: None, app_cpu: 0, next_app_pid: 1000 }
    }
}

/// Register a launching app as a process. Returns its pid.
pub fn app_start(r: &mut ProcRegistry, name: &str) -> (pid: u64)
    ensures
        pid == old(r).next_app_pid,
        final(r).next_app_pid == old(r).next_app_pid.wrapping_add(1),
        final(r).app_cpu == 0,
        final(r).app is Some && final(r).app->0.pid == pid && final(r).app->0.name@ == name_bytes(name.spec_bytes()),
{
    let pid = r.next_app_pid;
    r.next_app_pid = r.next_app_pid.wrapping_add(1);
    r.app_cpu = 0;
    r.app = Some(RunningApp { pid, name: copy_name(name) });
    pid
}

/// Clear the running-app record (on app exit).
pub fn app_exit(r: &mut ProcRegistry)
    ensures
        final(r).app is None,
        final(r).app_cpu == old(r).app_cpu && final(r).next_app_pid == old(r).next_app_pid,
{
    r.app = None;
}

/// Charge a timer tick to the running app, if any.
pub fn account_tick(r: &mut ProcRegistry)
    ensures
        final(r).app == old(r).app && final(r).next_app_pid == old(r).next_app_pid,
        final(r).app_cpu == if old(r).app is Some { old(r).app_cpu.wrapping_add(1) } else { old(r).app_cpu },
{
    if r.app.is_some() {
        r.app_cpu = r.app_cpu.wrapping_add(1);
    }
}

/// The unfinished tasks among the first `k` of a task listing, in order.
pub open spec fn live_infos(infos: Seq<TaskInfo>, k: int) -> Seq<TaskInfo>
    decreases k,
{
    if k <= 0 {
        Seq::empty()
    } else if infos[k - 1].finished {
        live_infos(infos, k - 1)
    } else {
        live_infos(infos, k - 1).push(infos[k - 1])
    }
}

/// Whether `e` is the listing entry of live kernel task `t`.
pub open spec fn is_task_entry(e: ProcInfo, t: TaskInfo) -> bool {
    &&& e.pid == t.id
    &&& e.state == if t.running { proc_state::RUNNING } else { proc_state::RUNNABLE }
    &&& e.cpu_ticks == t.cpu_ticks
    &&& e.kind == 0
    &&& e.name@ == name_bytes(t.name.spec_bytes())
}

/// Fill `out` with process descriptors: the unfinished kernel tasks in
/// scheduler order, then the running app (kind 1, state RUNNING) when room is
/// left. Returns the count written.
pub fn list(r: &ProcRegistry, s: &Scheduler, out: &mut [ProcInfo]) -> (n: usize)
    requires
        s.wf(),
    ensures
        ({
            let live = live_infos(crate::task::list_spec(s), s.tasks@.len() as int);
            let m = if old(out)@.len() < live.len() { old(out)@.len() as int } else { live.len() as int };
            &&& forall|k: int| 0 <= k < m ==> is_task_entry(#[trigger] final(out)@[k], live[k])
            &&& (r.app is Some && live.len() < old(out)@.len()) ==> n == live.len() + 1
                && final(out)@[live.len() as int].pid == r.app->0.pid
                && final(out)@[live.len() as int].state == proc_state::RUNNING
                && final(out)@[live.len() as int].cpu_ticks == r.app_cpu
                && final(out)@[live.len() as int].kind == 1
                && final(out)@[live.len() as int].name == r.app->0.name
            &&& !(r.app is Some && live.len() < old(out)@.len()) ==> n == m
        }),
        final(out)@.len() == old(out)@.len(),
        forall|k: int| n <= k < old(out)@.len() ==> final(out)@[k] == old(out)@[k],
{
    let infos = crate::task::list(s);
    let ghost all = infos@;
    let mut n: usize = 0;
    let mut i: usize = 0;
    while i < infos.len() && n < out.len()
        invariant
            i <= infos@.len(),
            all == infos@,
            all == crate::task::list_spec(s),
            infos@.len() == s.tasks@.len(),
            n == live_infos(all, i as int).len(),
            n <= out@.len(),
            out@.len() == old(out)@.len(),
            forall|k: int| 0 <= k < n ==> is_task_entry(#[trigger] out@[k], live_infos(all, i as int)[k]),
            forall|k: int| n <= k < old(out)@.len() ==> out@[k] == old(out)@[k],
        decreases infos@.len() - i,
    {
        let t = infos[i];
        if !t.finished {
            out[n] = ProcInfo {
                pid: t.id,
                state: if t.running { proc_state::RUNNING } else { proc_state::RUNNABLE },
                cpu_ticks: t.cpu_ticks,
                kind: 0,
                name: copy_name(t.name),
            };
            n = n + 1;
        }
        proof {
            assert(live_infos(all, i as int + 1) == if all[i as int].finished { live_infos(all, i as int) } else {
                live_infos(all, i as int).push(all[i as int]) });
        }
        i = i + 1;
    }
    proof {
        lemma_live_prefix(all, i as int, all.len() as int);
        let live = live_infos(all, all.len() as int);
        if i < all.len() {
            assert(n == out@.len());
        } else {
            assert(live == live_infos(all, i as int));
        }
    }
    if let Some(app) = &r.app {
        if n < out.len() {
            out[n] = ProcInfo { pid: app.pid, state: proc_state::RUNNING, cpu_ticks: r.app_cpu, kind: 1, name: app.name };
            n = n + 1;
        }
    }
    n
}

proof fn lemma_live_prefix(infos: Seq<TaskInfo>, i: int, k: int)
    requires
        0 <= i <= k,
    ensures
        live_infos(infos, i).len() <= live_infos(infos, k).len(),
        forall|j: int| 0 <= j < live_infos(infos, i).len() ==> live_infos(infos, k)[j] == live_infos(infos, i)[j],
    decreases k - i,
{
    if i < k {
        lemma_live_prefix(infos, i, k - 1);
    }
}

/// Terminate a process by pid. The running app cannot be force-killed (it
/// runs synchronously inside the launcher), so that request is refused;
/// other pids go to the scheduler.
pub fn kill(r: &ProcRegistry, s: &mut Scheduler, pid: u64) -> (killed: bool)
    requires
        old(s).wf(),
    ensures
        final(s).wf(),
        r.app is Some && r.app->0.pid == pid ==> !killed && final(s).tasks@ == old(s).tasks@,
        !(r.app is Some && r.app->0.pid == pid) ==> killed == (pid != 0 && crate::task::first_with_id(old(s).tasks@, pid) >= 0
            && old(s).tasks@[crate::task::first_with_id(old(s).tasks@, pid)].state != TaskState::Finished),
{
    if let Some(app) = &r.app {
        if app.pid == pid {
            return false;
        }
    }
    crate::task::kill(s, pid)
}

/// Number of tasks among the first `k` that have not finished.
pub open spec fn live_tasks(tasks: Seq<crate::task::TaskRec>, k: int) -> int
    decreases k,
{
    if k <= 0 { 0 } else { live_tasks(tasks, k - 1) + if tasks[k - 1].state != TaskState::Finished { 1int } else { 0int } }
}

/// Current system statistics, given the tick count, heap usage and memory
/// size the kernel measured.
pub fn stat(r: &ProcRegistry, s: &Scheduler, uptime_ticks: u64, heap_used: u64, heap_total: u64, mem_total_mib: u64) -> (st: SysStat)
    requires
        s.tasks@.len() < u64::MAX,
    ensures
        st == (SysStat {
            uptime_ticks,
            tick_hz: 18,
            heap_used,
            heap_total,
            task_count: (live_tasks(s.tasks@, s.tasks@.len() as int) + if r.app is Some { 1int } else { 0int }) as u64,
            mem_total_mib,
        }),
{
    let mut n: u64 = 0;
    let mut i: usize = 0;
    while i < s.tasks.len()
        invariant
            i <= s.tasks@.len(),
            s.tasks@.len() < u64::MAX,
            n == live_tasks(s.tasks@, i as int),
            n <= i,
        decreases s.tasks@.len() - i,
    {
        if s.tasks[i].state != TaskState::Finished {
            n = n + 1;
        }
        i = i + 1;
    }
    if r.app.is_some() {
        n = n + 1;
    }
    SysStat { uptime_ticks, tick_hz: 18, heap_used, heap_total, task_count: n, mem_total_mib }
}

} // verus!
