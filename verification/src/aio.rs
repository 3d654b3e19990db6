//! Async I/O, io_uring-style: a submission queue (SQ) and a completion queue
//! (CQ) decouple I/O requests from their results. A submitter pushes SQEs; a
//! worker drains them, performs the I/O against a block device, and pushes
//! CQEs. Single ring.
//!
//! The ring and its operations live here; the caller runs the worker as a
//! task, calling [`worker_step`] and yielding when it reports `Idle`.

use vstd::prelude::*;
use std::collections::VecDeque;
use crate::driver::{BlockDevice, SECTOR_SIZE};

verus! {

/// What a submission asks for.
#[derive(Clone, Copy, PartialEq, Eq, Debug, Structural)]
pub enum OpCode {
    Nop,
    ReadBlock,
}

/// A submission queue entry.
pub struct Sqe {
    pub user_data: u64,
    pub op: OpCode,
    pub lba: u64,
}

/// A completion queue entry: `result` is the byte count on success, negative
/// on error.
pub struct Cqe {
    pub user_data: u64,
    pub result: i64,
}

/// The ring: both queues, the device the worker reads, and the stop flag.
pub struct Ring<D> {
    pub sq: VecDeque<Sqe>,
    pub cq: VecDeque<Cqe>,
    pub device: D,
    pub stop: bool,
}

/// The async I/O subsystem: the ring once initialised, and the number of
/// completions processed since boot.
pub struct Aio<D> {
    pub ring: Option<Ring<D>>,
    pub completed: u64,
}

/// The user data of every request in flight, oldest first: completions not
/// yet reaped, then submissions not yet performed.
pub open spec fn in_flight<D>(r: Ring<D>) -> Seq<u64> {
    r.cq@.map_values(|c: Cqe| c.user_data) + r.sq@.map_values(|s: Sqe| s.user_data)
}

/// What the worker did in one step.
#[derive(Clone, Copy, PartialEq, Eq, Debug, Structural)]
pub enum WorkerStep {
    /// The ring is gone, or stopped and drained: the worker ends.
    Exit,
    /// Nothing submitted: the worker yields.
    Idle,
    /// One submission was performed and its completion queued.
    Completed,
}

impl<D: BlockDevice> Aio<D> {
    /// The device, when present, is well formed.
    pub open spec fn inv(&self) -> bool {
        self.ring is Some ==> self.ring->0.device.wf()
    }

    /// No ring yet; nothing completed.
    pub fn new() -> (a: Aio<D>)
        ensures
            a.inv(),
            a.ring is None,
            a.completed == 0,
    {
        Aio { ring: None, completed: 0 }
    }
}

/// Install the block device the worker reads from, with empty queues.
pub fn init<D: BlockDevice>(a: &mut Aio<D>, device: D)
    requires
        device.wf(),
    ensures
        final(a).inv(),
        final(a).completed == old(a).completed,
        final(a).ring is Some,
        final(a).ring->0.sq@.len() == 0,
        final(a).ring->0.cq@.len() == 0,
        final(a).ring->0.device == device,
        !final(a).ring->0.stop,
{
    a.ring = Some(Ring { sq: VecDeque::new(), cq: VecDeque::new(), device, stop: false });
}

/// Submit an I/O request (dropped if the ring is not initialised).
pub fn submit<D: BlockDevice>(a: &mut Aio<D>, sqe: Sqe)
    requires
        old(a).inv(),
    ensures
        final(a).inv(),
        final(a).completed == old(a).completed,
        old(a).ring is None ==> final(a).ring is None,
        old(a).ring is Some ==> final(a).ring is Some
            && final(a).ring->0.sq@ == old(a).ring->0.sq@.push(sqe)
            && final(a).ring->0.cq@ == old(a).ring->0.cq@
            && final(a).ring->0.device == old(a).ring->0.device
            && final(a).ring->0.stop == old(a).ring->0.stop
            && in_flight(final(a).ring->0) == in_flight(old(a).ring->0).push(sqe.user_data),
{
    match &mut a.ring {
        Some(r) => {
            let ghost before = r.sq@;
            r.sq.push_back(sqe);
            proof {
                assert(r.sq@.map_values(|s: Sqe| s.user_data) =~= before.map_values(|s: Sqe| s.user_data).push(sqe.user_data));
            }
        },
        None => {},
    }
    proof {
        if old(a).ring is Some {
            let r0 = old(a).ring->0;
            let r1 = a.ring->0;
            assert(in_flight(r1) =~= in_flight(r0).push(sqe.user_data));
        }
    }
}

/// Reap one completion, if available (oldest first).
pub fn reap<D: BlockDevice>(a: &mut Aio<D>) -> (c: Option<Cqe>)
    requires
        old(a).inv(),
    ensures
        final(a).inv(),
        final(a).completed == old(a).completed,
        old(a).ring is None ==> c is None && final(a).ring is None,
        old(a).ring is Some ==> final(a).ring is Some
            && final(a).ring->0.sq@ == old(a).ring->0.sq@
            && final(a).ring->0.device == old(a).ring->0.device
            && final(a).ring->0.stop == old(a).ring->0.stop
            && (old(a).ring->0.cq@.len() == 0 ==> c is None && final(a).ring->0.cq@ == old(a).ring->0.cq@)
            && (old(a).ring->0.cq@.len() > 0 ==> c == Some(old(a).ring->0.cq@[0])
                && final(a).ring->0.cq@ == old(a).ring->0.cq@.drop_first()
                && in_flight(old(a).ring->0) == seq![c->0.user_data] + in_flight(final(a).ring->0)),
{
    match &mut a.ring {
        Some(r) => {
            let ghost before = r.cq@;
            let c = r.cq.pop_front();
            proof {
                if before.len() > 0 {
                    let r1 = *r;
                    assert(before =~= seq![before[0]] + r1.cq@);
                    assert(before.map_values(|x: Cqe| x.user_data) =~= seq![before[0].user_data] + r1.cq@.map_values(|x: Cqe| x.user_data));
                }
            }
            c
        },
        None => None,
    }
}

/// Total completions processed since boot.
pub fn completed<D: BlockDevice>(a: &Aio<D>) -> (n: u64)
    ensures
        n == a.completed,
{
    a.completed
}

/// Ask the worker to stop (after draining current submissions).
pub fn shutdown<D: BlockDevice>(a: &mut Aio<D>)
    requires
        old(a).inv(),
    ensures
        final(a).inv(),
        final(a).completed == old(a).completed,
        old(a).ring is None ==> final(a).ring is None,
        old(a).ring is Some ==> final(a).ring is Some
            && final(a).ring->0.sq@ == old(a).ring->0.sq@
            && final(a).ring->0.cq@ == old(a).ring->0.cq@
            && final(a).ring->0.device == old(a).ring->0.device
            && final(a).ring->0.stop,
{
    match &mut a.ring {
        Some(r) => {
            r.stop = true;
        },
        None => {},
    }
}

/// Perform one request against the device: `Nop` yields 0; `ReadBlock`
/// yields 512 when the sector was read and -1 when the device refused.
pub fn perform<D: BlockDevice>(sqe: &Sqe, device: &mut D) -> (r: i64)
    requires
        old(device).wf(),
    ensures
        final(device).wf(),
        final(device).sectors() == old(device).sectors(),
        sqe.op == OpCode::Nop ==> r == 0,
        sqe.op == OpCode::ReadBlock ==> (r == 512 || r == -1),
        sqe.op == OpCode::ReadBlock && r == 512 ==> sqe.lba < old(device).sectors().len(),
{
    match sqe.op {
        OpCode::Nop => 0,
        OpCode::ReadBlock => {
            let mut buf = [0u8; SECTOR_SIZE];
            match device.read_sector(sqe.lba, &mut buf) {
                Ok(()) => 512,
                Err(_) => -1,
            }
        },
    }
}

/// One step of the worker: exit when the ring is gone or stopped and
/// drained; otherwise perform the oldest submission and queue its
/// completion, or report `Idle` when there is none.
pub fn worker_step<D: BlockDevice>(a: &mut Aio<D>) -> (s: WorkerStep)
    requires
        old(a).inv(),
    ensures
        final(a).inv(),
        old(a).ring is None ==> s == WorkerStep::Exit && final(a).ring is None && final(a).completed == old(a).completed,
        old(a).ring is Some ==> {
            let r0 = old(a).ring->0;
            let r1 = final(a).ring->0;
            &&& final(a).ring is Some
            &&& r1.stop == r0.stop
            &&& r1.device.sectors() == r0.device.sectors()
            &&& (r0.stop && r0.sq@.len() == 0 ==> s == WorkerStep::Exit)
            &&& (!r0.stop && r0.sq@.len() == 0 ==> s == WorkerStep::Idle)
            &&& (r0.sq@.len() > 0 ==> s == WorkerStep::Completed)
            &&& (s != WorkerStep::Completed ==> r1.sq@ == r0.sq@ && r1.cq@ == r0.cq@
                    && r1.device == r0.device && final(a).completed == old(a).completed)
            &&& (s == WorkerStep::Completed ==> {
                &&& r1.sq@ == r0.sq@.drop_first()
                &&& r1.cq@.len() == r0.cq@.len() + 1
                &&& r1.cq@.drop_last() == r0.cq@
                &&& r1.cq@.last().user_data == r0.sq@[0].user_data
                &&& (r0.sq@[0].op == OpCode::Nop ==> r1.cq@.last().result == 0)
                &&& (r0.sq@[0].op == OpCode::ReadBlock ==> r1.cq@.last().result == 512 || r1.cq@.last().result == -1)
                &&& (r0.sq@[0].op == OpCode::ReadBlock && r1.cq@.last().result == 512 ==> r0.sq@[0].lba < r0.device.sectors().len())
                &&& final(a).completed == old(a).completed.wrapping_add(1)
            })
            &&& in_flight(r1) == in_flight(r0)
        },
{
    let done = match &mut a.ring {
        None => {
            return WorkerStep::Exit;
        },
        Some(r) => {
            if r.stop && r.sq.len() == 0 {
                return WorkerStep::Exit;
            }
            let ghost sq0 = r.sq@;
            let ghost cq0 = r.cq@;
            match r.sq.pop_front() {
                None => {
                    return WorkerStep::Idle;
                },
                Some(sqe) => {
                    let result = perform(&sqe, &mut r.device);
                    r.cq.push_back(Cqe { user_data: sqe.user_data, result });
                    proof {
                        assert(sq0 =~= seq![sqe] + r.sq@);
                        assert(sq0.map_values(|x: Sqe| x.user_data) =~= seq![sqe.user_data] + r.sq@.map_values(|x: Sqe| x.user_data));
                        assert(r.cq@.map_values(|x: Cqe| x.user_data) =~= cq0.map_values(|x: Cqe| x.user_data).push(sqe.user_data));
                        assert(r.cq@.drop_last() =~= cq0);
                    }
                    true
                },
            }
        },
    };
    proof {
        let r0 = old(a).ring->0;
        let r1 = a.ring->0;
        assert(in_flight(r1) =~= in_flight(r0));
    }
    a.completed = a.completed.wrapping_add(1);
    WorkerStep::Completed
}

/// Sectors the benchmark spreads its reads over: the device size, at
/// least 1 (1 when there is no ring).
pub fn bench_sectors<D: BlockDevice>(a: &Aio<D>) -> (n: u64)
    requires
        a.inv(),
    ensures
        a.ring is None ==> n == 1,
        a.ring is Some ==> n == if a.ring->0.device.sectors().len() == 0 { 1 } else { a.ring->0.device.sectors().len() },
{
    match &a.ring {
        Some(r) => {
            let n = r.device.sector_count();
            if n == 0 { 1 } else { n }
        },
        None => 1,
    }
}

/// The benchmark's submissions: one `Nop` tagged `u64::MAX`, then `count`
/// block reads tagged `0..count`, read `i` at sector `i % sectors`.
pub open spec fn bench_requests(count: nat, sectors: nat) -> Seq<(u64, OpCode, u64)> {
    seq![(u64::MAX, OpCode::Nop, 0u64)] + Seq::new(count, |i: int| (i as u64, OpCode::ReadBlock, (i % (sectors as int)) as u64))
}

/// Submit the benchmark's requests (see [`bench_requests`]).
pub fn submit_benchmark<D: BlockDevice>(a: &mut Aio<D>, count: u64, sectors: u64)
    requires
        old(a).inv(),
        sectors > 0,
    ensures
        final(a).inv(),
        final(a).completed == old(a).completed,
        old(a).ring is None ==> final(a).ring is None,
        old(a).ring is Some ==> final(a).ring is Some
            && final(a).ring->0.cq@ == old(a).ring->0.cq@
            && final(a).ring->0.device == old(a).ring->0.device
            && final(a).ring->0.stop == old(a).ring->0.stop
            && final(a).ring->0.sq@.len() == old(a).ring->0.sq@.len() + count + 1
            && final(a).ring->0.sq@.subrange(0, old(a).ring->0.sq@.len() as int) == old(a).ring->0.sq@
            && forall|k: int| 0 <= k <= count ==> {
                let e = #[trigger] final(a).ring->0.sq@[old(a).ring->0.sq@.len() + k];
                let want = bench_requests(count as nat, sectors as nat)[k];
                e.user_data == want.0 && e.op == want.1 && e.lba == want.2
            },
{
    let ghost a0 = *a;
    submit(a, Sqe { user_data: u64::MAX, op: OpCode::Nop, lba: 0 });
    let mut i: u64 = 0;
    while i < count
        invariant
            a.inv(),
            a0.inv(),
            sectors > 0,
            i <= count,
            a.completed == a0.completed,
            a0.ring is None ==> a.ring is None,
            a0.ring is Some ==> a.ring is Some
                && a.ring->0.cq@ == a0.ring->0.cq@
                && a.ring->0.device == a0.ring->0.device
                && a.ring->0.stop == a0.ring->0.stop
                && a.ring->0.sq@.len() == a0.ring->0.sq@.len() + i + 1
                && a.ring->0.sq@.subrange(0, a0.ring->0.sq@.len() as int) == a0.ring->0.sq@
                && forall|k: int| 0 <= k <= i ==> {
                    let e = #[trigger] a.ring->0.sq@[a0.ring->0.sq@.len() + k];
                    let want = bench_requests(count as nat, sectors as nat)[k];
                    e.user_data == want.0 && e.op == want.1 && e.lba == want.2
                },
        decreases count - i,
    {
        let ghost before = *a;
        submit(a, Sqe { user_data: i, op: OpCode::ReadBlock, lba: i % sectors });
        proof {
            if a0.ring is Some {
                let s0 = a0.ring->0.sq@;
                let sb = before.ring->0.sq@;
                let s1 = a.ring->0.sq@;
                assert(s1.subrange(0, s0.len() as int) =~= sb.subrange(0, s0.len() as int));
                assert forall|k: int| 0 <= k <= i + 1 implies {
                    let e = #[trigger] s1[s0.len() + k];
                    let want = bench_requests(count as nat, sectors as nat)[k];
                    e.user_data == want.0 && e.op == want.1 && e.lba == want.2
                } by {
                    if k <= i {
                        assert(s1[s0.len() + k] == sb[s0.len() + k]);
                    }
                }
            }
        }
        i = i + 1;
    }
}

} // verus!
