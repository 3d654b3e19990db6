//! Service / init manager: dependency-aware, parallel service startup on top
//! of the kernel scheduler. Each service runs as its own task; a service only
//! starts once all of its dependencies report `Running`.
//!
//! The table holds what the startup decisions read; the caller owns the loop
//! that spawns the chosen entries and yields between rounds.

use vstd::prelude::*;
use crate::text::{find_str, owned, string_eq_str, texts};

verus! {

/// Lifecycle of a service.
#[derive(Clone, Copy, PartialEq, Eq, Debug, Structural)]
pub enum State {
    Pending,
    Running,
    Done,
}

/// The state a stored byte stands for (1 running, 2 done, anything else pending).
pub open spec fn state_of_byte(v: u8) -> State {
    if v == 1 {
        State::Running
    } else if v == 2 {
        State::Done
    } else {
        State::Pending
    }
}

impl State {
    /// Decode a stored state byte.
    pub fn from_u8(v: u8) -> (s: State)
        ensures
            s == state_of_byte(v),
    {
        match v {
            1 => State::Running,
            2 => State::Done,
            _ => State::Pending,
        }
    }
}

/// Registered services, one column per attribute, in registration order.
/// `E` is whatever the caller runs to start a service.
pub struct ServiceTable<E> {
    pub names: Vec<&'static str>,
    pub deps: Vec<&'static [&'static str]>,
    pub entries: Vec<E>,
    pub states: Vec<State>,
    pub started: Vec<bool>,
}

/// `k` is the first service called `name`.
pub open spec fn is_first_named(names: Seq<&'static str>, name: Seq<char>, k: int) -> bool {
    &&& 0 <= k < names.len()
    &&& names[k]@ == name
    &&& forall|j: int| 0 <= j < k ==> (#[trigger] names[j])@ != name
}

/// No service is called `name`.
pub open spec fn unnamed(names: Seq<&'static str>, name: Seq<char>) -> bool {
    forall|j: int| 0 <= j < names.len() ==> (#[trigger] names[j])@ != name
}

impl<E> ServiceTable<E> {
    /// All columns have one entry per service.
    pub open spec fn wf(&self) -> bool {
        &&& self.deps@.len() == self.names@.len()
        &&& self.entries@.len() == self.names@.len()
        &&& self.states@.len() == self.names@.len()
        &&& self.started@.len() == self.names@.len()
    }

    /// The state of the first service called `name`; `Pending` if there is none.
    pub open spec fn state_named(&self, name: Seq<char>) -> State {
        if exists|k: int| is_first_named(self.names@, name, k) {
            self.states@[choose|k: int| is_first_named(self.names@, name, k)]
        } else {
            State::Pending
        }
    }

    /// Every dependency of service `i` is at least `Running`.
    pub open spec fn deps_up(&self, i: int) -> bool {
        forall|d: int| 0 <= d < self.deps@[i]@.len() ==> self.state_named((#[trigger] self.deps@[i]@[d])@) != State::Pending
    }

    /// Service `i` is not started yet and can be started now.
    pub open spec fn ready(&self, i: int) -> bool {
        !self.started@[i] && self.deps_up(i)
    }

    /// `next` is this table after one startup round: exactly the ready
    /// services are marked started, nothing else changes.
    pub open spec fn after_round(&self, next: &ServiceTable<E>) -> bool {
        &&& next.wf()
        &&& next.names@ == self.names@
        &&& next.deps@ == self.deps@
        &&& next.entries@ == self.entries@
        &&& next.states@ == self.states@
        &&& forall|i: int| 0 <= i < self.names@.len() ==> #[trigger] next.started@[i] == (self.started@[i] || self.ready(i))
    }

    /// An empty table.
    pub fn new() -> (t: ServiceTable<E>)
        ensures
            t.wf(),
            t.names@.len() == 0,
    {
        ServiceTable { names: Vec::new(), deps: Vec::new(), entries: Vec::new(), states: Vec::new(), started: Vec::new() }
    }
}

/// Register a service with its dependency names and its entry. The entry
/// should call [`mark_running`] once it is up, then do its work.
pub fn register<E>(t: &mut ServiceTable<E>, name: &'static str, deps: &'static [&'static str], entry: E)
    requires
        old(t).wf(),
    ensures
        final(t).wf(),
        final(t).names@ == old(t).names@.push(name),
        final(t).deps@ == old(t).deps@.push(deps),
        final(t).entries@ == old(t).entries@.push(entry),
        final(t).states@ == old(t).states@.push(State::Pending),
        final(t).started@ == old(t).started@.push(false),
{
    t.names.push(name);
    t.deps.push(deps);
    t.entries.push(entry);
    t.states.push(State::Pending);
    t.started.push(false);
}

/// Set the state of the first service called `name`, if any.
fn set_state<E>(t: &mut ServiceTable<E>, name: &str, st: State)
    requires
        old(t).wf(),
    ensures
        final(t).wf(),
        final(t).names@ == old(t).names@,
        final(t).deps@ == old(t).deps@,
        final(t).entries@ == old(t).entries@,
        final(t).started@ == old(t).started@,
        unnamed(old(t).names@, name@) ==> final(t).states@ == old(t).states@,
        forall|k: int| is_first_named(old(t).names@, name@, k) ==> final(t).states@ == old(t).states@.update(k, st),
{
    match find_str(t.names.as_slice(), name) {
        Some(k) => {
            t.states.set(k, st);
        },
        None => {},
    }
}

/// A service calls this from its entry once initialized and ready to serve.
pub fn mark_running<E>(t: &mut ServiceTable<E>, name: &str)
    requires
        old(t).wf(),
    ensures
        final(t).wf(),
        final(t).names@ == old(t).names@,
        final(t).deps@ == old(t).deps@,
        final(t).entries@ == old(t).entries@,
        final(t).started@ == old(t).started@,
        unnamed(old(t).names@, name@) ==> final(t).states@ == old(t).states@,
        forall|k: int| is_first_named(old(t).names@, name@, k) ==> final(t).states@ == old(t).states@.update(k, State::Running),
{
    set_state(t, name, State::Running);
}

/// A service calls this when it finishes (for oneshot services).
pub fn mark_done<E>(t: &mut ServiceTable<E>, name: &str)
    requires
        old(t).wf(),
    ensures
        final(t).wf(),
        final(t).names@ == old(t).names@,
        final(t).deps@ == old(t).deps@,
        final(t).entries@ == old(t).entries@,
        final(t).started@ == old(t).started@,
        unnamed(old(t).names@, name@) ==> final(t).states@ == old(t).states@,
        forall|k: int| is_first_named(old(t).names@, name@, k) ==> final(t).states@ == old(t).states@.update(k, State::Done),
{
    set_state(t, name, State::Done);
}

/// The state of the first service called `name` (`Pending` if unknown).
pub fn state_of<E>(t: &ServiceTable<E>, name: &str) -> (s: State)
    requires
        t.wf(),
    ensures
        s == t.state_named(name@),
{
    match find_str(t.names.as_slice(), name) {
        Some(k) => {
            assert(is_first_named(t.names@, name@, k as int));
            let s = t.states[k];
            proof {
                let c = choose|k: int| is_first_named(t.names@, name@, k);
                assert(c == k as int) by {
                    if c < k as int {
                        assert(t.names@[c]@ != name@);
                    } else if c > k as int {
                        assert(t.names@[k as int]@ != name@);
                    }
                }
            }
            s
        },
        None => State::Pending,
    }
}

/// Whether every dependency of service `i` is at least `Running`.
fn deps_ready<E>(t: &ServiceTable<E>, i: usize) -> (r: bool)
    requires
        t.wf(),
        i < t.names@.len(),
    ensures
        r == t.deps_up(i as int),
{
    let deps = t.deps[i];
    let mut d: usize = 0;
    while d < deps.len()
        invariant
            t.wf(),
            i < t.names@.len(),
            deps@ == t.deps@[i as int]@,
            d <= deps@.len(),
            forall|e: int| 0 <= e < d ==> t.state_named((#[trigger] t.deps@[i as int]@[e])@) != State::Pending,
        decreases deps@.len() - d,
    {
        let st = state_of(t, deps[d]);
        if st == State::Pending {
            return false;
        }
        d = d + 1;
    }
    true
}

/// One startup round: every not-yet-started service whose dependencies are
/// all at least `Running` is marked started. Returns their indices, in
/// registration order, for the caller to spawn.
pub fn start_round<E>(t: &mut ServiceTable<E>) -> (spawn: Vec<usize>)
    requires
        old(t).wf(),
    ensures
        old(t).after_round(final(t)),
        forall|k: int| 0 <= k < spawn@.len() ==> (#[trigger] spawn@[k]) < old(t).names@.len() && old(t).ready(spawn@[k] as int),
        forall|k: int, l: int| 0 <= k < l < spawn@.len() ==> spawn@[k] < spawn@[l],
        forall|i: int| 0 <= i < old(t).names@.len() && old(t).ready(i) ==> spawn@.contains(i as usize),
{
    let ghost t0 = *t;
    let mut spawn: Vec<usize> = Vec::new();
    let n = t.names.len();
    let mut i: usize = 0;
    while i < n
        invariant
            t0.wf(),
            t.wf(),
            n == t0.names@.len(),
            i <= n,
            t.names@ == t0.names@,
            t.deps@ == t0.deps@,
            t.entries@ == t0.entries@,
            t.states@ == t0.states@,
            forall|j: int| 0 <= j < i ==> #[trigger] t.started@[j] == (t0.started@[j] || t0.ready(j)),
            forall|j: int| i <= j < n ==> #[trigger] t.started@[j] == t0.started@[j],
            forall|k: int| 0 <= k < spawn@.len() ==> (#[trigger] spawn@[k]) < i && t0.ready(spawn@[k] as int),
            forall|k: int, l: int| 0 <= k < l < spawn@.len() ==> spawn@[k] < spawn@[l],
            forall|j: int| 0 <= j < i && t0.ready(j) ==> spawn@.contains(j as usize),
        decreases n - i,
    {
        if !t.started[i] {
            let ready = deps_ready(t, i);
            proof {
                assert(t.deps_up(i as int) == t0.deps_up(i as int)) by {
                    assert forall|e: int| 0 <= e < t.deps@[i as int]@.len() implies
                        t.state_named((#[trigger] t.deps@[i as int]@[e])@) == t0.state_named(t0.deps@[i as int]@[e]@) by {}
                }
            }
            if ready {
                let ghost before = spawn@;
                t.started.set(i, true);
                spawn.push(i);
                proof {
                    assert(spawn@[spawn@.len() - 1] == i);
                    assert forall|j: int| 0 <= j < i && t0.ready(j) implies spawn@.contains(j as usize) by {
                        let k = choose|k: int| 0 <= k < before.len() && before[k] == j as usize;
                        assert(spawn@[k] == j as usize);
                    }
                }
            }
        }
        i = i + 1;
    }
    spawn
}

/// Whether `order` already holds the text `name`.
fn recorded_contains(order: &Vec<String>, name: &str) -> (r: bool)
    ensures
        r == texts(order@).contains(name@),
{
    let mut i: usize = 0;
    while i < order.len()
        invariant
            i <= order@.len(),
            forall|j: int| 0 <= j < i ==> (#[trigger] order@[j])@ != name@,
        decreases order@.len() - i,
    {
        if string_eq_str(&order[i], name) {
            assert(texts(order@)[i as int] == name@);
            return true;
        }
        i = i + 1;
    }
    proof {
        if texts(order@).contains(name@) {
            let j = choose|j: int| 0 <= j < texts(order@).len() && texts(order@)[j] == name@;
            assert(order@[j]@ == name@);
        }
    }
    false
}

/// `order` after recording, in registration order, the first `n` services
/// that are at least `Running` and not yet in it.
pub open spec fn recorded(names: Seq<&'static str>, states: Seq<State>, order: Seq<Seq<char>>, n: int) -> Seq<Seq<char>>
    decreases n,
{
    if n <= 0 {
        order
    } else {
        let prev = recorded(names, states, order, n - 1);
        if states[n - 1] != State::Pending && !prev.contains(names[n - 1]@) {
            prev.push(names[n - 1]@)
        } else {
            prev
        }
    }
}

/// Append to `order` the name of every service that has reached at least
/// `Running` and is not recorded yet, in registration order.
pub fn record_running<E>(t: &ServiceTable<E>, order: &mut Vec<String>)
    requires
        t.wf(),
    ensures
        texts(final(order)@) == recorded(t.names@, t.states@, texts(old(order)@), t.names@.len() as int),
{
    let ghost o0 = texts(order@);
    let mut i: usize = 0;
    while i < t.names.len()
        invariant
            t.wf(),
            i <= t.names@.len(),
            texts(order@) == recorded(t.names@, t.states@, o0, i as int),
        decreases t.names@.len() - i,
    {
        let name = t.names[i];
        if t.states[i] != State::Pending && !recorded_contains(order, name) {
            order.push(owned(name));
            assert(texts(order@) =~= recorded(t.names@, t.states@, o0, i as int).push(name@));
        }
        i = i + 1;
    }
}

/// One pass of the startup loop: pick the services to spawn, then record
/// those that are up. `done` once `total` services have been recorded.
pub fn start_step<E>(t: &mut ServiceTable<E>, order: &mut Vec<String>, total: usize) -> (r: (Vec<usize>, bool))
    requires
        old(t).wf(),
    ensures
        old(t).after_round(final(t)),
        forall|k: int| 0 <= k < r.0@.len() ==> (#[trigger] r.0@[k]) < old(t).names@.len() && old(t).ready(r.0@[k] as int),
        forall|k: int, l: int| 0 <= k < l < r.0@.len() ==> r.0@[k] < r.0@[l],
        forall|i: int| 0 <= i < old(t).names@.len() && old(t).ready(i) ==> r.0@.contains(i as usize),
        texts(final(order)@) == recorded(old(t).names@, old(t).states@, texts(old(order)@), old(t).names@.len() as int),
        r.1 == (final(order)@.len() >= total),
{
    let spawn = start_round(t);
    record_running(t, order);
    let done = order.len() >= total;
    (spawn, done)
}

/// True once every registered service is at least `Running`.
pub fn all_up<E>(t: &ServiceTable<E>) -> (r: bool)
    requires
        t.wf(),
    ensures
        r == forall|i: int| 0 <= i < t.names@.len() ==> #[trigger] t.states@[i] != State::Pending,
{
    let mut i: usize = 0;
    while i < t.states.len()
        invariant
            t.wf(),
            i <= t.names@.len(),
            forall|j: int| 0 <= j < i ==> #[trigger] t.states@[j] != State::Pending,
        decreases t.names@.len() - i,
    {
        if t.states[i] == State::Pending {
            return false;
        }
        i = i + 1;
    }
    true
}

/// A service spawned in one round is never ready again: each service is
/// started at most once.
pub proof fn lemma_started_once<E>(t0: &ServiceTable<E>, t1: &ServiceTable<E>, i: int)
    requires
        t0.wf(),
        t0.after_round(t1),
        0 <= i < t0.names@.len(),
        t0.ready(i),
    ensures
        !t1.ready(i),
{
}

/// Once a service has marked itself running, the services that depend on
/// it see it as up.
pub proof fn lemma_running_is_up<E>(t0: &ServiceTable<E>, t1: &ServiceTable<E>, name: Seq<char>, k: int)
    requires
        t0.wf(),
        is_first_named(t0.names@, name, k),
        t1.names@ == t0.names@,
        t1.states@ == t0.states@.update(k, State::Running),
    ensures
        t1.state_named(name) == State::Running,
{
    assert(is_first_named(t1.names@, name, k));
    let c = choose|c: int| is_first_named(t1.names@, name, c);
    assert(c == k) by {
        if c < k {
            assert(t1.names@[c]@ != name);
        } else if c > k {
            assert(t1.names@[k]@ != name);
        }
    }
}

} // verus!
