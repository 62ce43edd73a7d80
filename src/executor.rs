//! The executor: a table of spawned tasks and the ready queue through which
//! spawns and wakes hand task identifiers to the run loop.

use vstd::prelude::*;
use crossbeam::channel::{Receiver, Sender};

verus! {

#[verifier::external_type_specification]
#[verifier::external_body]
#[verifier::reject_recursive_types(T)]
pub struct ExSender<T>(crossbeam::channel::Sender<T>);

#[verifier::external_type_specification]
#[verifier::external_body]
#[verifier::reject_recursive_types(T)]
pub struct ExReceiver<T>(crossbeam::channel::Receiver<T>);

/// Relies on crossbeam::channel::unbounded: a fresh unbounded FIFO channel.
#[verifier::external_body]
fn unbounded_queue() -> (Sender<usize>, Receiver<usize>) {
    crossbeam::channel::unbounded()
}

/// Relies on crossbeam's `Clone` for `Sender`: another handle on the same channel.
#[verifier::external_body]
fn clone_sender(s: &Sender<usize>) -> Sender<usize> {
    s.clone()
}

/// Relies on crossbeam::channel::Sender::send: on failure the message comes
/// back unchanged inside the error.
#[verifier::external_body]
fn send_id(s: &Sender<usize>, id: usize) -> (r: Result<(), usize>)
    ensures
        r matches Err(v) ==> v == id,
{
    s.send(id).map_err(|e| e.0)
}

/// Relies on crossbeam::channel::Receiver::recv: blocks until a message comes,
/// or yields nothing once the channel is empty and disconnected.
#[verifier::external_body]
fn recv_id(r: &Receiver<usize>) -> Option<usize> {
    r.recv().ok()
}

/// The task `id` exists in `done` and has not completed.
pub open spec fn runnable(done: Seq<bool>, id: usize) -> bool {
    id < done.len() && !done[id as int]
}

/// What the run loop resumes for a dequeued entry: the task itself when it is
/// still runnable, nothing otherwise.
pub open spec fn select_spec(done: Seq<bool>, received: Option<usize>) -> Option<usize> {
    match received {
        Some(id) => if runnable(done, id) {
            Some(id)
        } else {
            None
        },
        None => None,
    }
}

/// The task table after task `id` was resumed and reported `ready`.
pub open spec fn record_spec(done: Seq<bool>, id: usize, ready: bool) -> Seq<bool> {
    if ready {
        done.update(id as int, true)
    } else {
        done
    }
}

/// A waker bound to one task: invoking it puts the task's identifier on the
/// ready queue of the executor it came from.
pub struct TaskWaker {
    id: usize,
    queue: Sender<usize>,
}

impl TaskWaker {
    pub closed spec fn task(&self) -> usize {
        self.id
    }

    /// A waker for task `id` that enqueues through `queue`.
    pub fn new(id: usize, queue: Sender<usize>) -> (w: TaskWaker)
        ensures
            w.task() == id,
    {
        TaskWaker { id, queue }
    }

    /// The task this waker re-enqueues.
    pub fn task_id(&self) -> (r: usize)
        ensures
            r == self.task(),
    {
        self.id
    }

    /// Enqueues the task once. A failed send (the executor is gone) is ignored.
    pub fn wake_by_ref(&self) {
        let _ = send_id(&self.queue, self.id);
    }
}

/// The executor: the receiving half of the ready queue, a sending half for
/// spawns and wakers, and for each spawned task whether it has completed.
pub struct MiniTokio {
    scheduled: Receiver<usize>,
    sender: Sender<usize>,
    done: Vec<bool>,
}

impl MiniTokio {
    /// For each spawned task, in spawn order, whether it has completed.
    pub closed spec fn tasks(&self) -> Seq<bool> {
        self.done@
    }

    /// An executor with a fresh ready queue and no task.
    pub fn new() -> (r: MiniTokio)
        ensures
            r.tasks() == Seq::<bool>::empty(),
    {
        let (sender, scheduled) = unbounded_queue();
        MiniTokio { scheduled, sender, done: Vec::new() }
    }

    /// Registers a new task and enqueues it once; returns its identifier.
    pub fn spawn(&mut self) -> (id: usize)
        requires
            old(self).tasks().len() < usize::MAX,
        ensures
            id == old(self).tasks().len(),
            final(self).tasks() == old(self).tasks().push(false),
    {
        let id = self.done.len();
        self.done.push(false);
        let _ = send_id(&self.sender, id);
        id
    }

    /// A waker bound to task `id` and to this executor's ready queue.
    pub fn waker(&self, id: usize) -> (w: TaskWaker)
        ensures
            w.task() == id,
    {
        TaskWaker::new(id, clone_sender(&self.sender))
    }

    /// The task that the run loop resumes for a dequeued entry: the entry's
    /// task while it is runnable; a completed or unknown task is skipped.
    pub fn select_task(&self, received: Option<usize>) -> (r: Option<usize>)
        ensures
            r == select_spec(self.tasks(), received),
    {
        match received {
            Some(id) => {
                if id < self.done.len() && !self.done[id] {
                    Some(id)
                } else {
                    None
                }
            },
            None => None,
        }
    }

    /// Blocks for the next entry of the ready queue and returns the task to
    /// resume for it, if any.
    pub fn next_task(&self) -> (r: Option<usize>)
        ensures
            r matches Some(id) ==> runnable(self.tasks(), id),
    {
        let received = recv_id(&self.scheduled);
        self.select_task(received)
    }

    /// Records the outcome of resuming task `id`: it completes when `ready`.
    pub fn record(&mut self, id: usize, ready: bool)
        requires
            id < old(self).tasks().len(),
        ensures
            final(self).tasks() == record_spec(old(self).tasks(), id, ready),
    {
        if ready {
            self.done.set(id, true);
        }
    }

    /// Whether task `id` exists and has completed.
    pub fn is_complete(&self, id: usize) -> (r: bool)
        ensures
            r == (id < self.tasks().len() && self.tasks()[id as int]),
    {
        id < self.done.len() && self.done[id]
    }

    /// How many tasks have been spawned.
    pub fn task_count(&self) -> (r: usize)
        ensures
            r == self.tasks().len(),
    {
        self.done.len()
    }
}

/// Spawns a task on the executor bound to the current thread, the one whose
/// run loop is active there. Calling it with no binding is a programming error.
pub fn spawn(current: &mut Option<MiniTokio>) -> (id: usize)
    requires
        old(current).is_some(),
        old(current).unwrap().tasks().len() < usize::MAX,
    ensures
        final(current).is_some(),
        id == old(current).unwrap().tasks().len(),
        final(current).unwrap().tasks() == old(current).unwrap().tasks().push(false),
{
    match current {
        Some(exec) => exec.spawn(),
        None => 0,
    }
}

/// Dequeuing a completed task, any number of times, resumes nothing and
/// leaves the task table as it was.
pub proof fn lemma_completed_task_skipped(
    done: Seq<bool>,
    resumed: Seq<nat>,
    needs: Seq<nat>,
    id: usize,
    entries: Seq<usize>,
)
    requires
        id < done.len(),
        done[id as int],
        forall|k: int| 0 <= k < entries.len() ==> entries[k] == id,
    ensures
        select_spec(done, Some(id)) is None,
        run_model(done, resumed, needs, entries) == (done, resumed),
    decreases entries.len(),
{
    if entries.len() > 0 {
        lemma_completed_task_skipped(done, resumed, needs, id, entries.drop_last());
    }
}

/// How often task `id` occurs in a sequence of queue entries.
pub open spec fn occurrences(entries: Seq<usize>, id: usize) -> nat
    decreases entries.len(),
{
    if entries.len() == 0 {
        0
    } else {
        occurrences(entries.drop_last(), id) + if entries.last() == id {
            1nat
        } else {
            0nat
        }
    }
}

/// The run loop over a sequence of dequeued entries, for computations of
/// which task `i` completes on its `needs[i]`-th resumption: the task table
/// and how often each task has been resumed.
pub open spec fn run_model(done: Seq<bool>, resumed: Seq<nat>, needs: Seq<nat>, entries: Seq<usize>) -> (
    Seq<bool>,
    Seq<nat>,
)
    decreases entries.len(),
{
    if entries.len() == 0 {
        (done, resumed)
    } else {
        let (d, p) = run_model(done, resumed, needs, entries.drop_last());
        match select_spec(d, Some(entries.last())) {
            Some(id) => {
                let p2 = p.update(id as int, p[id as int] + 1);
                (record_spec(d, id, p2[id as int] >= needs[id as int]), p2)
            },
            None => (d, p),
        }
    }
}

/// Invariant of the run loop on freshly spawned tasks: while no task has been
/// dequeued more often than its computation needs resumptions, each task has
/// been resumed once per entry and has completed exactly when it has been
/// resumed as often as it needs.
proof fn lemma_run_counts(n: nat, needs: Seq<nat>, entries: Seq<usize>)
    requires
        n <= usize::MAX,
        needs.len() == n,
        forall|i: int| 0 <= i < n ==> needs[i] >= 1,
        forall|k: int| 0 <= k < entries.len() ==> entries[k] < n,
        forall|i: usize| i < n ==> occurrences(entries, i) <= needs[i as int],
    ensures
        run_model(Seq::new(n, |i: int| false), Seq::new(n, |i: int| 0nat), needs, entries).0.len() == n,
        run_model(Seq::new(n, |i: int| false), Seq::new(n, |i: int| 0nat), needs, entries).1.len() == n,
        forall|i: usize|
            #![trigger occurrences(entries, i)]
            i < n ==> {
                &&& run_model(Seq::new(n, |i: int| false), Seq::new(n, |i: int| 0nat), needs, entries).1[i as int]
                    == occurrences(entries, i)
                &&& run_model(Seq::new(n, |i: int| false), Seq::new(n, |i: int| 0nat), needs, entries).0[i as int]
                    == (occurrences(entries, i) == needs[i as int])
            },
    decreases entries.len(),
{
    if entries.len() > 0 {
        let prefix = entries.drop_last();
        assert forall|i: usize| i < n implies occurrences(prefix, i) <= needs[i as int] by {
            assert(occurrences(entries, i) >= occurrences(prefix, i));
        }
        assert forall|k: int| 0 <= k < prefix.len() implies prefix[k] < n by {
            assert(prefix[k] == entries[k]);
        }
        lemma_run_counts(n, needs, prefix);
        let e = entries.last();
        assert(occurrences(prefix, e) < needs[e as int]);
    }
}

/// A run loop over freshly spawned tasks that each terminate: when the queue
/// carries each task exactly once per resumption its computation needs (its
/// spawn, then one wake per suspension), then after as many iterations as
/// there are such resume transitions, every task has completed, each after
/// exactly the resumptions it needs.
pub proof fn lemma_run_completes_all(n: nat, needs: Seq<nat>, entries: Seq<usize>)
    requires
        n <= usize::MAX,
        needs.len() == n,
        forall|i: int| 0 <= i < n ==> needs[i] >= 1,
        forall|k: int| 0 <= k < entries.len() ==> entries[k] < n,
        forall|i: usize| i < n ==> occurrences(entries, i) == needs[i as int],
    ensures
        run_model(Seq::new(n, |i: int| false), Seq::new(n, |i: int| 0nat), needs, entries).0
            == Seq::new(n, |i: int| true),
        run_model(Seq::new(n, |i: int| false), Seq::new(n, |i: int| 0nat), needs, entries).1 == needs,
{
    lemma_run_counts(n, needs, entries);
    let (d, p) = run_model(Seq::new(n, |i: int| false), Seq::new(n, |i: int| 0nat), needs, entries);
    assert forall|i: int| 0 <= i < n implies d[i] == true && p[i] == needs[i] by {
        assert(occurrences(entries, i as usize) == needs[i]);
    }
    assert(d =~= Seq::new(n, |i: int| true));
    assert(p =~= needs);
}

} // verus!
