//! Turns: which thread runs, and what happens when it gives its turn away, ends,
//! sends or receives.
//!
//! A carrier is what threads run on. All carriers share one [`Runtime`]; each
//! has a [`Carrier`] of its own, with a queue and the thread that it carries.
//! A function that ends in a change of threads returns the step that the carrier
//! has to take.
use crate::message::{
    holds_type, law_received_as_sent, law_sent_message_comes_last, law_taken_message_is_the_oldest,
    of_type, taken_from, ActorMessage,
};
use crate::queue::{
    injector_contents, injector_new, injector_push, next_runnable, taken, worker_contents,
    worker_new_fifo, worker_unshared, Stolen,
};
use crate::thread::{
    is_spawned, only_mailbox_changed, with_state, GreenThread, Scheduler, SendError, ThreadId,
    ThreadState,
};
use crossbeam::deque::{Injector, Worker};
use vstd::prelude::*;

verus! {

/// The sender that a message from outside any thread carries.
pub const NO_SENDER: usize = usize::MAX;

/// How often a turn is to be given away, in microseconds.
pub const PREEMPTION_INTERVAL_MICROS: u32 = 10_000;

/// How long a carrier sleeps when its thread has ended and none is in line, in
/// milliseconds.
pub const IDLE_SLEEP_MILLIS: u64 = 1000;

/// What all carriers share: the threads, and the queue of those that want to run.
pub struct Runtime<M> {
    pub scheduler: Scheduler<M>,
    pub injector: Injector<usize>,
}

/// What one carrier has for itself: a queue, and the thread that it carries.
pub struct Carrier {
    pub worker: Worker<usize>,
    pub current: Option<usize>,
}

/// What a carrier has to do for a thread that gives its turn away.
#[derive(PartialEq, Eq, Structural, Copy, Clone, Debug)]
pub enum YieldStep {
    /// There is no thread to give a turn away: go on.
    Return,
    /// No thread is in line: wait to be notified, then retry.
    Wait { from: usize },
    /// Threads are in line, but the shared queue refused to hand one out: retry at
    /// once.
    Refused { from: usize },
    /// Save the registers of `from` and load those of `to`.
    Switch { from: usize, to: usize },
}

/// What a carrier has to do when its thread has ended.
#[derive(PartialEq, Eq, Structural, Copy, Clone, Debug)]
pub enum EndStep {
    /// No thread is in line: sleep, then retry.
    Sleep,
    /// Threads are in line, but the shared queue refused to hand one out: retry at
    /// once.
    Refused,
    /// Load the registers of `to`; those of the ended thread are dropped.
    Switch { to: usize },
}

impl<M> Runtime<M> {
    /// The threads, in the order in which they were spawned.
    pub open spec fn threads(&self) -> Seq<GreenThread<M>> {
        self.scheduler@
    }

    /// The threads in the shared queue.
    pub open spec fn shared(&self) -> Seq<usize> {
        injector_contents(self.injector)
    }

    /// What waits in the shared queue are threads.
    pub open spec fn wf(&self) -> bool {
        &&& self.scheduler.wf()
        &&& forall|i: int|
            0 <= i < self.shared().len() ==> #[trigger] self.shared()[i] < self.threads().len()
    }

    /// A runtime without threads.
    pub fn new() -> (runtime: Self)
        ensures
            runtime.wf(),
            runtime.threads() == Seq::<GreenThread<M>>::empty(),
            runtime.shared() == Seq::<usize>::empty(),
    {
        Runtime { scheduler: Scheduler::new(), injector: injector_new() }
    }
}

impl Carrier {
    /// The threads in the carrier's own queue.
    pub open spec fn local(&self) -> Seq<usize> {
        worker_contents(self.worker)
    }

    /// A carrier without a thread.
    pub fn new() -> (carrier: Self)
        ensures
            worker_unshared(carrier.worker),
            carrier.local() == Seq::<usize>::empty(),
            carrier.current == None::<usize>,
    {
        Carrier { worker: worker_new_fifo(), current: None }
    }
}

/// The threads that `carrier` can run, in the order in which it takes them.
pub open spec fn runnable<M>(runtime: Runtime<M>, carrier: Carrier) -> Seq<usize> {
    carrier.local() + runtime.shared()
}

/// Every thread number that `runtime` and `carrier` hold is that of a thread.
pub open spec fn valid<M>(runtime: Runtime<M>, carrier: Carrier) -> bool {
    &&& runtime.wf()
    &&& worker_unshared(carrier.worker)
    &&& forall|i: int|
        0 <= i < carrier.local().len() ==> #[trigger] carrier.local()[i] < runtime.threads().len()
    &&& carrier.current matches Some(t) ==> t < runtime.threads().len()
}

/// Nothing more is asked of a runtime and a carrier than that the numbers in the
/// queues, and the one carried, are those of threads, and that no other carrier
/// takes from the queue: whatever states the threads are in, however full the
/// queues are, and in whatever order.
pub proof fn law_any_row_of_threads_is_valid<M>(runtime: Runtime<M>, carrier: Carrier)
    requires
        runtime.scheduler.wf(),
        worker_unshared(carrier.worker),
        forall|t: usize|
            injector_contents(runtime.injector).contains(t) ==> t < runtime.scheduler@.len(),
        forall|t: usize|
            worker_contents(carrier.worker).contains(t) ==> t < runtime.scheduler@.len(),
        carrier.current matches Some(t) ==> t < runtime.scheduler@.len(),
    ensures
        runtime.wf(),
        valid(runtime, carrier),
{
    assert forall|i: int| 0 <= i < runtime.shared().len() implies #[trigger] runtime.shared()[i]
        < runtime.threads().len() by {
        assert(injector_contents(runtime.injector).contains(runtime.shared()[i]));
    }
    assert forall|i: int| 0 <= i < carrier.local().len() implies #[trigger] carrier.local()[i]
        < runtime.threads().len() by {
        assert(worker_contents(carrier.worker).contains(carrier.local()[i]));
    }
}

/// A carrier that is valid stays so while threads are only added: what is done to
/// a runtime on behalf of one carrier does not invalidate another.
pub proof fn law_carriers_stay_valid<M>(before: Runtime<M>, after: Runtime<M>, carrier: Carrier)
    requires
        valid(before, carrier),
        after.wf(),
        before.threads().len() <= after.threads().len(),
    ensures
        valid(after, carrier),
{
}

/// A thread in this state wants a turn and has none.
pub open spec fn wants_turn(state: ThreadState) -> bool {
    state == ThreadState::READY || state == ThreadState::YIELD
}

/// The threads that want a turn are just those in `queue`, each once: no thread
/// is lost, none is in line twice, and none that runs or has ended is in line.
pub open spec fn in_balance<M>(threads: Seq<GreenThread<M>>, queue: Seq<usize>) -> bool {
    &&& queue.no_duplicates()
    &&& forall|t: usize|
        t < threads.len() ==> (wants_turn(#[trigger] threads[t as int].state) <==> queue.contains(
            t,
        ))
}

/// The threads of `runtime` are in balance with the queues of `carrier`.
pub open spec fn balanced<M>(runtime: Runtime<M>, carrier: Carrier) -> bool {
    in_balance(runtime.threads(), runnable(runtime, carrier))
}

/// No thread runs but the one that `carrier` carries.
pub open spec fn exclusive<M>(runtime: Runtime<M>, carrier: Carrier) -> bool {
    forall|t: usize|
        t < runtime.threads().len() && #[trigger] runtime.threads()[t as int].state
            == ThreadState::RUNNING ==> carrier.current == Some(t)
}

/// No thread runs.
pub open spec fn none_runs<M>(runtime: Runtime<M>) -> bool {
    forall|i: int|
        0 <= i < runtime.threads().len() ==> #[trigger] runtime.threads()[i].state
            != ThreadState::RUNNING
}

/// The thread that `carrier` carries, if any, is running.
pub open spec fn carries_running<M>(runtime: Runtime<M>, carrier: Carrier) -> bool {
    carrier.current matches Some(t) ==> runtime.threads()[t as int].state == ThreadState::RUNNING
}

/// The threads that have ended in `before` have ended in `after`.
pub open spec fn exits_kept<M>(before: Seq<GreenThread<M>>, after: Seq<GreenThread<M>>) -> bool {
    forall|i: int|
        0 <= i < before.len() && #[trigger] before[i].state == ThreadState::EXITED
            ==> after[i].state == ThreadState::EXITED
}

/// A new runtime and a new carrier are valid and in balance, and no thread runs.
pub proof fn law_start_is_in_balance<M>(runtime: Runtime<M>, carrier: Carrier)
    requires
        runtime.wf(),
        runtime.threads() == Seq::<GreenThread<M>>::empty(),
        runtime.shared() == Seq::<usize>::empty(),
        worker_unshared(carrier.worker),
        carrier.local() == Seq::<usize>::empty(),
        carrier.current == None::<usize>,
    ensures
        valid(runtime, carrier),
        balanced(runtime, carrier),
        exclusive(runtime, carrier),
        carries_running(runtime, carrier),
{
}

/// What `next` makes of the threads `threads` and of the carried thread
/// `current`: `next` runs and is carried, or nothing changes.
pub open spec fn put_on<M>(
    threads: Seq<GreenThread<M>>,
    current: Option<usize>,
    next: Stolen,
    runtime: Runtime<M>,
    carrier: Carrier,
) -> bool {
    match next {
        Stolen::Success(t) => {
            &&& runtime.threads() == with_state(threads, t, ThreadState::RUNNING)
            &&& carrier.current == Some(t)
        },
        _ => {
            &&& runtime.threads() == threads
            &&& carrier.current == current
        },
    }
}

/// From the threads `threads`, the carried thread `current` and the queues
/// `local` and `shared`, one turn was handed out: `next` was taken off the
/// queues and put on the carrier.
pub open spec fn turn_taken<M>(
    threads: Seq<GreenThread<M>>,
    current: Option<usize>,
    local: Seq<usize>,
    shared: Seq<usize>,
    next: Stolen,
    runtime: Runtime<M>,
    carrier: Carrier,
) -> bool {
    &&& taken(local, shared, next, carrier.local(), runtime.shared())
    &&& put_on(threads, current, next, runtime, carrier)
}

/// The step that takes the carrier from `from` to `next`.
pub open spec fn yield_step(from: usize, next: Stolen) -> YieldStep {
    match next {
        Stolen::Success(to) => YieldStep::Switch { from, to },
        Stolen::Empty => YieldStep::Wait { from },
        Stolen::Retry => YieldStep::Refused { from },
    }
}

/// The step that takes the carrier from an ended thread to `next`.
pub open spec fn end_step(next: Stolen) -> EndStep {
    match next {
        Stolen::Success(to) => EndStep::Switch { to },
        Stolen::Empty => EndStep::Sleep,
        Stolen::Retry => EndStep::Refused,
    }
}

proof fn lemma_put_on_in_balance<M>(
    threads: Seq<GreenThread<M>>,
    current: Option<usize>,
    local: Seq<usize>,
    shared: Seq<usize>,
    next: Stolen,
    runtime: Runtime<M>,
    carrier: Carrier,
)
    requires
        in_balance(threads, local + shared),
        turn_taken(threads, current, local, shared, next, runtime, carrier),
        next matches Stolen::Success(t) ==> t < threads.len(),
    ensures
        balanced(runtime, carrier),
        exits_kept(threads, runtime.threads()),
{
    let queue = local + shared;
    let after = runnable(runtime, carrier);
    match next {
        Stolen::Success(n) => {
            assert(queue[0] == n);
            assert(after =~= queue.drop_first());
            assert(queue.contains(n));
            assert(wants_turn(threads[n as int].state));
            assert forall|t: usize| t < threads.len() implies (wants_turn(
                #[trigger] runtime.threads()[t as int].state,
            ) <==> after.contains(t)) by {
                assert(wants_turn(threads[t as int].state) <==> queue.contains(t));
                if queue.contains(t) && t != n {
                    let i = choose|i: int| 0 <= i < queue.len() && queue[i] == t;
                    assert(after[i - 1] == t);
                }
                if after.contains(t) {
                    let i = choose|i: int| 0 <= i < after.len() && after[i] == t;
                    assert(queue[i + 1] == t);
                }
            }
        },
        _ => {
            assert(after =~= queue);
        },
    }
}

proof fn lemma_taken_is_thread<M>(
    runtime: Runtime<M>,
    carrier: Carrier,
    next: Stolen,
    local_after: Seq<usize>,
    shared_after: Seq<usize>,
)
    requires
        valid(runtime, carrier),
        taken(carrier.local(), runtime.shared(), next, local_after, shared_after),
    ensures
        next matches Stolen::Success(t) ==> t < runtime.threads().len(),
        forall|i: int|
            0 <= i < local_after.len() ==> #[trigger] local_after[i] < runtime.threads().len(),
        forall|i: int|
            0 <= i < shared_after.len() ==> #[trigger] shared_after[i] < runtime.threads().len(),
{
    if next is Success {
        if carrier.local().len() > 0 {
            assert(carrier.local()[0] == next->0);
        } else {
            assert(runtime.shared()[0] == next->0);
        }
    }
    assert forall|i: int| 0 <= i < local_after.len() implies #[trigger] local_after[i]
        < runtime.threads().len() by {
        if local_after == carrier.local() {
            assert(carrier.local()[i] < runtime.threads().len());
        } else {
            assert(carrier.local()[i + 1] < runtime.threads().len());
        }
    }
    assert forall|i: int| 0 <= i < shared_after.len() implies #[trigger] shared_after[i]
        < runtime.threads().len() by {
        if shared_after == runtime.shared() {
            assert(runtime.shared()[i] < runtime.threads().len());
        } else {
            assert(runtime.shared()[i + 1] < runtime.threads().len());
        }
    }
}

/// Puts the thread `next` on `carrier`, if there is one.
fn dispatch<M>(runtime: &mut Runtime<M>, carrier: &mut Carrier, next: Stolen)
    requires
        old(runtime).scheduler.wf(),
        next matches Stolen::Success(t) ==> t < old(runtime).threads().len(),
    ensures
        final(runtime).scheduler.wf(),
        put_on(
            old(runtime).threads(),
            old(carrier).current,
            next,
            *final(runtime),
            *final(carrier),
        ),
        final(runtime).injector == old(runtime).injector,
        final(carrier).worker == old(carrier).worker,
{
    if let Stolen::Success(t) = next {
        runtime.scheduler.set_state(t, ThreadState::RUNNING);
        carrier.current = Some(t);
    }
}

/// Takes the next thread off the queues. Nothing else changes.
fn take_next<M>(runtime: &mut Runtime<M>, carrier: &mut Carrier) -> (next: Stolen)
    requires
        valid(*old(runtime), *old(carrier)),
    ensures
        valid(*final(runtime), *final(carrier)),
        next matches Stolen::Success(t) ==> t < old(runtime).threads().len(),
        taken(
            old(carrier).local(),
            old(runtime).shared(),
            next,
            final(carrier).local(),
            final(runtime).shared(),
        ),
        final(runtime).scheduler == old(runtime).scheduler,
        final(carrier).current == old(carrier).current,
{
    let next = next_runnable(&mut carrier.worker, &mut runtime.injector);
    proof {
        lemma_taken_is_thread(
            *old(runtime),
            *old(carrier),
            next,
            carrier.local(),
            runtime.shared(),
        );
    }
    next
}

/// Hands the turn of `from` on to `next`, which was taken off the queues.
pub fn yield_with<M>(
    runtime: &mut Runtime<M>,
    carrier: &mut Carrier,
    from: usize,
    next: Stolen,
) -> (step: YieldStep)
    requires
        old(runtime).scheduler.wf(),
        next matches Stolen::Success(t) ==> t < old(runtime).threads().len(),
    ensures
        step == yield_step(from, next),
        final(runtime).scheduler.wf(),
        put_on(
            old(runtime).threads(),
            old(carrier).current,
            next,
            *final(runtime),
            *final(carrier),
        ),
        final(runtime).injector == old(runtime).injector,
        final(carrier).worker == old(carrier).worker,
        match next {
            Stolen::Success(to) => {
                &&& step == (YieldStep::Switch { from, to })
                &&& final(carrier).current == Some(to)
            },
            Stolen::Empty => {
                &&& step == (YieldStep::Wait { from })
                &&& final(carrier).current == old(carrier).current
            },
            Stolen::Retry => {
                &&& step == (YieldStep::Refused { from })
                &&& final(carrier).current == old(carrier).current
            },
        },
        final(runtime).threads().len() == old(runtime).threads().len(),
        forall|i: int|
            0 <= i < old(runtime).threads().len() ==> #[trigger] final(runtime).threads()[i]
                == (GreenThread {
                state: if next matches Stolen::Success(to) && to == i {
                    ThreadState::RUNNING
                } else {
                    old(runtime).threads()[i].state
                },
                ..old(runtime).threads()[i]
            }),
{
    dispatch(runtime, carrier, next);
    match next {
        Stolen::Success(to) => YieldStep::Switch { from, to },
        Stolen::Empty => YieldStep::Wait { from },
        Stolen::Retry => YieldStep::Refused { from },
    }
}

/// Hands the turn of a thread that has ended on to `next`, which was taken off
/// the queues.
pub fn end_with<M>(runtime: &mut Runtime<M>, carrier: &mut Carrier, next: Stolen) -> (step:
    EndStep)
    requires
        old(runtime).scheduler.wf(),
        next matches Stolen::Success(t) ==> t < old(runtime).threads().len(),
    ensures
        step == end_step(next),
        final(runtime).scheduler.wf(),
        put_on(
            old(runtime).threads(),
            old(carrier).current,
            next,
            *final(runtime),
            *final(carrier),
        ),
        final(runtime).injector == old(runtime).injector,
        final(carrier).worker == old(carrier).worker,
        match next {
            Stolen::Success(to) => {
                &&& step == (EndStep::Switch { to })
                &&& final(carrier).current == Some(to)
            },
            Stolen::Empty => {
                &&& step == EndStep::Sleep
                &&& final(carrier).current == old(carrier).current
            },
            Stolen::Retry => {
                &&& step == EndStep::Refused
                &&& final(carrier).current == old(carrier).current
            },
        },
        final(runtime).threads().len() == old(runtime).threads().len(),
        forall|i: int|
            0 <= i < old(runtime).threads().len() ==> #[trigger] final(runtime).threads()[i]
                == (GreenThread {
                state: if next matches Stolen::Success(to) && to == i {
                    ThreadState::RUNNING
                } else {
                    old(runtime).threads()[i].state
                },
                ..old(runtime).threads()[i]
            }),
{
    dispatch(runtime, carrier, next);
    match next {
        Stolen::Success(to) => EndStep::Switch { to },
        Stolen::Empty => EndStep::Sleep,
        Stolen::Retry => EndStep::Refused,
    }
}

/// What was taken off the queues where `step` is the outcome.
pub open spec fn yields_to(step: YieldStep) -> Stolen {
    match step {
        YieldStep::Switch { from, to } => Stolen::Success(to),
        YieldStep::Refused { from } => Stolen::Retry,
        _ => Stolen::Empty,
    }
}

/// What was taken off the queues where `step` is the outcome.
pub open spec fn ends_to(step: EndStep) -> Stolen {
    match step {
        EndStep::Switch { to } => Stolen::Success(to),
        EndStep::Refused => Stolen::Retry,
        EndStep::Sleep => Stolen::Empty,
    }
}

/// Goes on with a yield of `from` that had to wait or was refused: looks at the
/// queues again.
///
/// It has to wait again exactly when no thread is in line. It may be refused
/// though one is: taking a thread off the shared queue can fail without a reason.
pub fn retry_yield<M>(runtime: &mut Runtime<M>, carrier: &mut Carrier, from: usize) -> (step:
    YieldStep)
    requires
        valid(*old(runtime), *old(carrier)),
    ensures
        valid(*final(runtime), *final(carrier)),
        step == yield_step(from, yields_to(step)),
        (step is Wait) == (runnable(*old(runtime), *old(carrier)).len() == 0),
        old(carrier).local().len() > 0 ==> step is Switch,
        turn_taken(
            old(runtime).threads(),
            old(carrier).current,
            old(carrier).local(),
            old(runtime).shared(),
            yields_to(step),
            *final(runtime),
            *final(carrier),
        ),
        balanced(*old(runtime), *old(carrier)) ==> {
            &&& balanced(*final(runtime), *final(carrier))
            &&& exits_kept(old(runtime).threads(), final(runtime).threads())
        },
        step is Switch ==> carries_running(*final(runtime), *final(carrier)),
        none_runs(*old(runtime)) ==> exclusive(*final(runtime), *final(carrier)),
        match step {
            YieldStep::Switch { from: saved, to } => {
                &&& saved == from
                &&& final(carrier).current == Some(to)
                &&& old(carrier).local() + old(runtime).shared() == seq![to]
                    + (final(carrier).local() + final(runtime).shared())
            },
            YieldStep::Wait { from: saved } => {
                &&& saved == from
                &&& old(carrier).local().len() == 0
                &&& old(runtime).shared().len() == 0
            },
            YieldStep::Refused { from: saved } => {
                &&& saved == from
                &&& old(runtime).shared().len() > 0
            },
            YieldStep::Return => false,
        },
        step !is Switch ==> {
            &&& final(carrier).current == old(carrier).current
            &&& final(carrier).local() == old(carrier).local()
            &&& final(runtime).shared() == old(runtime).shared()
        },
        final(runtime).threads().len() == old(runtime).threads().len(),
        forall|i: int|
            0 <= i < old(runtime).threads().len() ==> #[trigger] final(runtime).threads()[i]
                == (GreenThread {
                state: if step matches YieldStep::Switch { from: _, to } && to == i {
                    ThreadState::RUNNING
                } else {
                    old(runtime).threads()[i].state
                },
                ..old(runtime).threads()[i]
            }),
{
    let next = take_next(runtime, carrier);
    let step = yield_with(runtime, carrier, from, next);
    proof {
        if balanced(*old(runtime), *old(carrier)) {
            lemma_put_on_in_balance(
                old(runtime).threads(),
                old(carrier).current,
                old(carrier).local(),
                old(runtime).shared(),
                next,
                *runtime,
                *carrier,
            );
        }
    }
    step
}

proof fn lemma_queue_again_in_balance<M>(
    threads: Seq<GreenThread<M>>,
    local: Seq<usize>,
    shared: Seq<usize>,
    tid: usize,
)
    requires
        in_balance(threads, local + shared),
        tid < threads.len(),
        !wants_turn(threads[tid as int].state),
    ensures
        in_balance(with_state(threads, tid, ThreadState::YIELD), local + shared.push(tid)),
{
    let before = local + shared;
    let queue = local + shared.push(tid);
    let after = with_state(threads, tid, ThreadState::YIELD);
    assert(queue =~= before.push(tid));
    assert(!before.contains(tid));
    assert forall|t: usize| t < after.len() implies (wants_turn(
        #[trigger] after[t as int].state,
    ) <==> queue.contains(t)) by {
        assert(wants_turn(threads[t as int].state) <==> before.contains(t));
        if before.contains(t) {
            let i = choose|i: int| 0 <= i < before.len() && before[i] == t;
            assert(queue[i] == t);
        }
        if t == tid {
            assert(queue[before.len() as int] == t);
        }
        if queue.contains(t) && t != tid {
            let i = choose|i: int| 0 <= i < queue.len() && queue[i] == t;
            assert(before[i] == t);
        }
    }
}

/// The carried thread gave its turn away, in `step`: it went to the end of the
/// shared queue, and what is next in line was put on the carrier. Without a
/// carried thread nothing happened.
pub open spec fn yielded<M>(
    runtime: Runtime<M>,
    carrier: Carrier,
    step: YieldStep,
    runtime_after: Runtime<M>,
    carrier_after: Carrier,
) -> bool {
    match carrier.current {
        None => {
            &&& step == YieldStep::Return
            &&& runtime_after == runtime
            &&& carrier_after == carrier
        },
        Some(from) => {
            &&& step == yield_step(from, yields_to(step))
            &&& turn_taken(
                with_state(runtime.threads(), from, ThreadState::YIELD),
                Some(from),
                carrier.local(),
                runtime.shared().push(from),
                yields_to(step),
                runtime_after,
                carrier_after,
            )
        },
    }
}

/// The thread that `carrier` carries gives its turn away: it goes to the end of
/// the shared queue, and the thread that is next in line runs. With no thread on
/// the carrier nothing happens.
///
/// There is always a thread in line then, if only the one that yields, so the step
/// is never to wait for one. Where the shared queue refuses to hand one out,
/// [`retry_yield`] goes on.
pub fn yield_to<M>(runtime: &mut Runtime<M>, carrier: &mut Carrier) -> (step: YieldStep)
    requires
        valid(*old(runtime), *old(carrier)),
    ensures
        valid(*final(runtime), *final(carrier)),
        yielded(*old(runtime), *old(carrier), step, *final(runtime), *final(carrier)),
        step !is Wait,
        old(carrier).current is Some && old(carrier).local().len() > 0 ==> step is Switch,
        balanced(*old(runtime), *old(carrier)) && carries_running(*old(runtime), *old(carrier))
            ==> {
            &&& balanced(*final(runtime), *final(carrier))
            &&& exits_kept(old(runtime).threads(), final(runtime).threads())
        },
        step is Switch ==> carries_running(*final(runtime), *final(carrier)),
        exclusive(*old(runtime), *old(carrier)) ==> exclusive(*final(runtime), *final(carrier)),
        match step {
            YieldStep::Switch { from, to } => {
                &&& old(carrier).current == Some(from)
                &&& final(carrier).current == Some(to)
                &&& old(carrier).local() + old(runtime).shared().push(from) == seq![to]
                    + (final(carrier).local() + final(runtime).shared())
            },
            YieldStep::Refused { from } => {
                &&& old(carrier).current == Some(from)
                &&& final(carrier).current == Some(from)
                &&& final(carrier).local() == old(carrier).local()
                &&& final(runtime).shared() == old(runtime).shared().push(from)
            },
            YieldStep::Wait { from } => false,
            YieldStep::Return => {
                &&& old(carrier).current is None
                &&& *final(carrier) == *old(carrier)
                &&& *final(runtime) == *old(runtime)
            },
        },
        final(runtime).threads().len() == old(runtime).threads().len(),
        forall|i: int|
            0 <= i < old(runtime).threads().len() ==> #[trigger] final(runtime).threads()[i]
                == (GreenThread {
                state: if step matches YieldStep::Switch { from: _, to } && to == i {
                    ThreadState::RUNNING
                } else if old(carrier).current matches Some(t) && t == i {
                    ThreadState::YIELD
                } else {
                    old(runtime).threads()[i].state
                },
                ..old(runtime).threads()[i]
            }),
{
    match carrier.current {
        None => YieldStep::Return,
        Some(from) => {
            runtime.scheduler.set_state(from, ThreadState::YIELD);
            injector_push(&mut runtime.injector, from);
            proof {
                let shared = old(runtime).shared();
                assert forall|i: int| 0 <= i < runtime.shared().len() implies #[trigger]
                runtime.shared()[i] < runtime.threads().len() by {
                    if i < shared.len() {
                        assert(shared[i] < runtime.threads().len());
                    }
                }
                if balanced(*old(runtime), *old(carrier)) && carries_running(
                    *old(runtime),
                    *old(carrier),
                ) {
                    lemma_queue_again_in_balance(
                        old(runtime).threads(),
                        carrier.local(),
                        shared,
                        from,
                    );
                }
            }
            retry_yield(runtime, carrier, from)
        },
    }
}

/// The threads after the one that the carrier carries has ended, if it was
/// running.
pub open spec fn ended<M>(threads: Seq<GreenThread<M>>, current: Option<usize>) -> Seq<
    GreenThread<M>,
> {
    match current {
        Some(t) => if threads[t as int].state == ThreadState::RUNNING {
            with_state(threads, t, ThreadState::EXITED)
        } else {
            threads
        },
        None => threads,
    }
}

/// Goes on after the end of a thread whose carrier had to sleep or was refused:
/// looks at the queues again.
///
/// It has to sleep again exactly when no thread is in line. It may be refused
/// though one is: taking a thread off the shared queue can fail without a reason.
pub fn retry_end<M>(runtime: &mut Runtime<M>, carrier: &mut Carrier) -> (step: EndStep)
    requires
        valid(*old(runtime), *old(carrier)),
    ensures
        valid(*final(runtime), *final(carrier)),
        (step is Sleep) == (runnable(*old(runtime), *old(carrier)).len() == 0),
        old(carrier).local().len() > 0 ==> step is Switch,
        turn_taken(
            old(runtime).threads(),
            old(carrier).current,
            old(carrier).local(),
            old(runtime).shared(),
            ends_to(step),
            *final(runtime),
            *final(carrier),
        ),
        balanced(*old(runtime), *old(carrier)) ==> {
            &&& balanced(*final(runtime), *final(carrier))
            &&& exits_kept(old(runtime).threads(), final(runtime).threads())
        },
        step is Switch ==> carries_running(*final(runtime), *final(carrier)),
        none_runs(*old(runtime)) ==> exclusive(*final(runtime), *final(carrier)),
        match step {
            EndStep::Switch { to } => {
                &&& final(carrier).current == Some(to)
                &&& old(carrier).local() + old(runtime).shared() == seq![to]
                    + (final(carrier).local() + final(runtime).shared())
            },
            EndStep::Sleep => {
                &&& old(carrier).local().len() == 0
                &&& old(runtime).shared().len() == 0
            },
            EndStep::Refused => old(runtime).shared().len() > 0,
        },
        step !is Switch ==> {
            &&& final(carrier).current == old(carrier).current
            &&& final(carrier).local() == old(carrier).local()
            &&& final(runtime).shared() == old(runtime).shared()
        },
        final(runtime).threads().len() == old(runtime).threads().len(),
        forall|i: int|
            0 <= i < old(runtime).threads().len() ==> #[trigger] final(runtime).threads()[i]
                == (GreenThread {
                state: if step matches EndStep::Switch { to } && to == i {
                    ThreadState::RUNNING
                } else {
                    old(runtime).threads()[i].state
                },
                ..old(runtime).threads()[i]
            }),
{
    let next = take_next(runtime, carrier);
    let step = end_with(runtime, carrier, next);
    proof {
        if balanced(*old(runtime), *old(carrier)) {
            lemma_put_on_in_balance(
                old(runtime).threads(),
                old(carrier).current,
                old(carrier).local(),
                old(runtime).shared(),
                next,
                *runtime,
                *carrier,
            );
        }
    }
    step
}

/// The thread that `carrier` carries ends: if it was running it has exited, and
/// the thread that is next in line runs. A carrier without a thread starts its
/// first one this way.
pub fn end_yield<M>(runtime: &mut Runtime<M>, carrier: &mut Carrier) -> (step: EndStep)
    requires
        valid(*old(runtime), *old(carrier)),
    ensures
        valid(*final(runtime), *final(carrier)),
        (step is Sleep) == (runnable(*old(runtime), *old(carrier)).len() == 0),
        old(carrier).local().len() > 0 ==> step is Switch,
        turn_taken(
            ended(old(runtime).threads(), old(carrier).current),
            old(carrier).current,
            old(carrier).local(),
            old(runtime).shared(),
            ends_to(step),
            *final(runtime),
            *final(carrier),
        ),
        balanced(*old(runtime), *old(carrier)) ==> {
            &&& balanced(*final(runtime), *final(carrier))
            &&& exits_kept(old(runtime).threads(), final(runtime).threads())
        },
        step is Switch ==> carries_running(*final(runtime), *final(carrier)),
        exclusive(*old(runtime), *old(carrier)) ==> exclusive(*final(runtime), *final(carrier)),
        match step {
            EndStep::Switch { to } => {
                &&& final(carrier).current == Some(to)
                &&& old(carrier).local() + old(runtime).shared() == seq![to]
                    + (final(carrier).local() + final(runtime).shared())
            },
            EndStep::Sleep => {
                &&& old(carrier).local().len() == 0
                &&& old(runtime).shared().len() == 0
            },
            EndStep::Refused => old(runtime).shared().len() > 0,
        },
        step !is Switch ==> {
            &&& final(carrier).current == old(carrier).current
            &&& final(carrier).local() == old(carrier).local()
            &&& final(runtime).shared() == old(runtime).shared()
        },
        final(runtime).threads().len() == old(runtime).threads().len(),
        forall|i: int|
            0 <= i < old(runtime).threads().len() ==> #[trigger] final(runtime).threads()[i]
                == (GreenThread {
                state: if step matches EndStep::Switch { to } && to == i {
                    ThreadState::RUNNING
                } else if old(carrier).current matches Some(t) && t == i
                    && old(runtime).threads()[i].state == ThreadState::RUNNING {
                    ThreadState::EXITED
                } else {
                    old(runtime).threads()[i].state
                },
                ..old(runtime).threads()[i]
            }),
{
    if let Some(current) = carrier.current {
        if runtime.scheduler.thread(current).state == ThreadState::RUNNING {
            runtime.scheduler.set_state(current, ThreadState::EXITED);
        }
    }
    assert(runtime.shared() == old(runtime).shared());
    retry_end(runtime, carrier)
}

/// Gives the turn of the carried thread away if that was asked for since the
/// last check. The request is used up; `None` means that there was none.
pub fn check_preemption<M>(
    requested: &mut bool,
    runtime: &mut Runtime<M>,
    carrier: &mut Carrier,
) -> (step: Option<YieldStep>)
    requires
        valid(*old(runtime), *old(carrier)),
    ensures
        *final(requested) == false,
        valid(*final(runtime), *final(carrier)),
        step is Some == *old(requested),
        match step {
            None => {
                &&& *final(runtime) == *old(runtime)
                &&& *final(carrier) == *old(carrier)
            },
            Some(taken_step) => yielded(
                *old(runtime),
                *old(carrier),
                taken_step,
                *final(runtime),
                *final(carrier),
            ),
        },
        balanced(*old(runtime), *old(carrier)) && carries_running(*old(runtime), *old(carrier))
            ==> {
            &&& balanced(*final(runtime), *final(carrier))
            &&& exits_kept(old(runtime).threads(), final(runtime).threads())
        },
        step matches Some(taken_step) && taken_step is Switch ==> carries_running(
            *final(runtime),
            *final(carrier),
        ),
        exclusive(*old(runtime), *old(carrier)) ==> exclusive(*final(runtime), *final(carrier)),
        match step {
            None => {
                &&& !*old(requested)
                &&& *final(carrier) == *old(carrier)
                &&& *final(runtime) == *old(runtime)
            },
            Some(YieldStep::Switch { from, to }) => {
                &&& *old(requested)
                &&& old(carrier).current == Some(from)
                &&& final(carrier).current == Some(to)
                &&& old(carrier).local() + old(runtime).shared().push(from) == seq![to]
                    + (final(carrier).local() + final(runtime).shared())
            },
            Some(YieldStep::Refused { from }) => {
                &&& *old(requested)
                &&& old(carrier).current == Some(from)
                &&& final(carrier).current == Some(from)
                &&& final(carrier).local() == old(carrier).local()
                &&& final(runtime).shared() == old(runtime).shared().push(from)
            },
            Some(YieldStep::Wait { from }) => false,
            Some(YieldStep::Return) => {
                &&& *old(requested)
                &&& old(carrier).current is None
                &&& *final(carrier) == *old(carrier)
                &&& *final(runtime) == *old(runtime)
            },
        },
        final(runtime).threads().len() == old(runtime).threads().len(),
        forall|i: int|
            0 <= i < old(runtime).threads().len() ==> #[trigger] final(runtime).threads()[i]
                == (GreenThread {
                state: if step matches Some(YieldStep::Switch { from: _, to }) && to == i {
                    ThreadState::RUNNING
                } else if step is Some && (old(carrier).current matches Some(t) && t == i) {
                    ThreadState::YIELD
                } else {
                    old(runtime).threads()[i].state
                },
                ..old(runtime).threads()[i]
            }),
{
    if *requested {
        *requested = false;
        return Some(yield_to(runtime, carrier));
    }
    None
}

proof fn lemma_spawn_in_balance<M>(
    before: Runtime<M>,
    carrier: Carrier,
    after: Runtime<M>,
    tid: usize,
)
    requires
        valid(before, carrier),
        balanced(before, carrier),
        tid == before.threads().len(),
        after.threads().len() == before.threads().len() + 1,
        after.threads().drop_last() == before.threads(),
        after.threads().last().state == ThreadState::READY,
        after.shared() == before.shared().push(tid),
    ensures
        balanced(after, carrier),
{
    let queue = runnable(before, carrier);
    let longer = runnable(after, carrier);
    assert(longer =~= queue.push(tid));
    assert(!queue.contains(tid)) by {
        if queue.contains(tid) {
            let i = choose|i: int| 0 <= i < queue.len() && queue[i] == tid;
            if i < carrier.local().len() {
                assert(carrier.local()[i] == tid);
            } else {
                assert(before.shared()[i - carrier.local().len()] == tid);
            }
        }
    }
    assert forall|t: usize| t < after.threads().len() implies (wants_turn(
        #[trigger] after.threads()[t as int].state,
    ) <==> longer.contains(t)) by {
        if t == tid {
            assert(longer[queue.len() as int] == t);
        } else {
            assert(after.threads().drop_last()[t as int] == after.threads()[t as int]);
            assert(wants_turn(before.threads()[t as int].state) <==> queue.contains(t));
            if queue.contains(t) {
                let i = choose|i: int| 0 <= i < queue.len() && queue[i] == t;
                assert(longer[i] == t);
            }
            if longer.contains(t) {
                let i = choose|i: int| 0 <= i < longer.len() && longer[i] == t;
                assert(queue[i] == t);
            }
        }
    }
}

/// Spawns a thread that will enter `entry` with `arg` on the stack
/// `(top, bottom)` and return to `exit`. It is ready and last in line; a carrier
/// that waits for work has to be notified.
pub fn spawn_fn<M>(
    runtime: &mut Runtime<M>,
    stack: (usize, usize),
    entry: usize,
    arg: usize,
    exit: usize,
) -> (id: ThreadId)
    requires
        old(runtime).wf(),
    ensures
        final(runtime).wf(),
        id@ == old(runtime).threads().len(),
        final(runtime).threads().len() == old(runtime).threads().len() + 1,
        final(runtime).threads().drop_last() == old(runtime).threads(),
        is_spawned(final(runtime).threads().last(), id@, stack, entry, arg, exit),
        final(runtime).shared() == old(runtime).shared().push(id@),
        forall|i: int|
            0 <= i < old(runtime).threads().len() ==> #[trigger] final(runtime).threads()[i]
                == old(runtime).threads()[i],
        final(runtime).threads().last().tid == id@,
        final(runtime).threads().last().state == ThreadState::READY,
        final(runtime).threads().last().ticks == 100,
        final(runtime).threads().last().next is None,
        final(runtime).threads().last().mailbox@.len() == 0,
        final(runtime).threads().last().stack_top == stack.0,
        final(runtime).threads().last().stack_bottom == stack.1,
        final(runtime).threads().last().context.pc == entry,
        final(runtime).threads().last().context.regs[0] == arg,
        final(runtime).threads().last().context.regs[30] == exit,
        forall|i: int|
            0 <= i < 32 && i != 0 && i != 30
                ==> #[trigger] final(runtime).threads().last().context.regs[i] == 0,
        forall|i: int|
            0 <= i < 32 ==> #[trigger] final(runtime).threads().last().context.fpregs[i] == 0,
        final(runtime).threads().last().context.sp % 16 == 0,
        final(runtime).threads().last().context.sp <= stack.0
            < final(runtime).threads().last().context.sp + 16,
        forall|carrier: Carrier| #[trigger]
            valid(*old(runtime), carrier) ==> {
                &&& valid(*final(runtime), carrier)
                &&& balanced(*old(runtime), carrier) ==> balanced(*final(runtime), carrier)
                &&& exclusive(*old(runtime), carrier) ==> exclusive(*final(runtime), carrier)
            },
{
    let id = runtime.scheduler.spawn_fn(&mut runtime.injector, stack, entry, arg, exit);
    proof {
        assert forall|i: int| 0 <= i < runtime.shared().len() implies #[trigger] runtime.shared()[i]
            < runtime.threads().len() by {
            if i < old(runtime).shared().len() {
                assert(old(runtime).shared()[i] < old(runtime).threads().len());
            }
        }
        assert forall|i: int| 0 <= i < old(runtime).threads().len() implies #[trigger]
        runtime.threads()[i] == old(runtime).threads()[i] by {
            assert(runtime.threads().drop_last()[i] == runtime.threads()[i]);
        }
        assert forall|carrier: Carrier| #[trigger] valid(*old(runtime), carrier) && balanced(
            *old(runtime),
            carrier,
        ) implies balanced(*runtime, carrier) by {
            lemma_spawn_in_balance(*old(runtime), carrier, *runtime, id@);
        }
    }
    id
}

/// The sender that a message from `carrier` carries: the number of the thread
/// that it carries.
pub open spec fn sender_of(carrier: Carrier) -> usize {
    match carrier.current {
        Some(t) => t,
        None => NO_SENDER,
    }
}

/// `message` was put last in the mailbox of thread `to`, and nothing else changed.
pub open spec fn delivered<M>(
    threads: Seq<GreenThread<M>>,
    to: usize,
    message: ActorMessage<M>,
    threads_after: Seq<GreenThread<M>>,
) -> bool {
    &&& only_mailbox_changed(threads, threads_after, to as int)
    &&& threads_after[to as int].mailbox@ == threads[to as int].mailbox@.push(message)
}

/// The message that `received` is, if any, of the type `tag`.
pub open spec fn as_message<M>(received: Option<(ThreadId, M)>, tag: u64) -> Option<
    ActorMessage<M>,
> {
    match received {
        Some((from, message)) => Some(ActorMessage { sender: from@, tag, message }),
        None => None,
    }
}

/// `received` was taken out of the mailbox of thread `by`, as the oldest message
/// of type `tag` there, and nothing else changed.
pub open spec fn collected<M>(
    threads: Seq<GreenThread<M>>,
    by: usize,
    tag: u64,
    received: Option<(ThreadId, M)>,
    threads_after: Seq<GreenThread<M>>,
) -> bool {
    &&& only_mailbox_changed(threads, threads_after, by as int)
    &&& taken_from(
        threads[by as int].mailbox@,
        tag,
        as_message(received, tag),
        threads_after[by as int].mailbox@,
    )
}

/// Sends `message`, whose type is `tag`, to the thread that `to` names. It comes
/// last in that thread's mailbox, signed with the thread that `carrier` carries.
pub fn send<M>(
    runtime: &mut Runtime<M>,
    carrier: &Carrier,
    to: ThreadId,
    tag: u64,
    message: M,
) -> (sent: Result<(), SendError>)
    requires
        valid(*old(runtime), *carrier),
    ensures
        valid(*final(runtime), *carrier),
        sent == (if to@ < old(runtime).threads().len() {
            Ok(())
        } else {
            Err(SendError::ThreadNotFound)
        }),
        sent is Err ==> *final(runtime) == *old(runtime),
        sent is Ok ==> delivered(
            old(runtime).threads(),
            to@,
            ActorMessage { sender: sender_of(*carrier), tag, message },
            final(runtime).threads(),
        ),
        sent is Ok ==> {
            let before = old(runtime).threads()[to@ as int];
            let after = final(runtime).threads()[to@ as int];
            &&& after.mailbox@.len() == before.mailbox@.len() + 1
            &&& after.mailbox@.drop_last() == before.mailbox@
            &&& after.mailbox@.last().tag == tag
            &&& after.mailbox@.last().message == message
            &&& match carrier.current {
                Some(t) => after.mailbox@.last().sender == t,
                None => after.mailbox@.last().sender == usize::MAX,
            }
            &&& after == (GreenThread { mailbox: after.mailbox, ..before })
        },
        final(runtime).threads().len() == old(runtime).threads().len(),
        forall|i: int|
            0 <= i < old(runtime).threads().len() && i != to@
                ==> #[trigger] final(runtime).threads()[i] == old(runtime).threads()[i],
        final(runtime).injector == old(runtime).injector,
        balanced(*old(runtime), *carrier) ==> balanced(*final(runtime), *carrier),
        exclusive(*old(runtime), *carrier) ==> exclusive(*final(runtime), *carrier),
{
    match runtime.scheduler.find(to) {
        Some(place) => {
            let sender = match carrier.current {
                Some(current) => runtime.scheduler.thread(current).tid,
                None => NO_SENDER,
            };
            runtime.scheduler.deliver(place, ActorMessage { sender, tag, message });
            proof {
                lemma_mailbox_keeps_states(*old(runtime), *carrier, *runtime, place as int);
            }
            Ok(())
        },
        None => Err(SendError::ThreadNotFound),
    }
}

proof fn lemma_mailbox_keeps_states<M>(
    before: Runtime<M>,
    carrier: Carrier,
    after: Runtime<M>,
    tid: int,
)
    requires
        0 <= tid < before.threads().len(),
        only_mailbox_changed(before.threads(), after.threads(), tid),
        after.injector == before.injector,
    ensures
        balanced(before, carrier) ==> balanced(after, carrier),
        exclusive(before, carrier) ==> exclusive(after, carrier),
{
    assert forall|i: int| 0 <= i < before.threads().len() implies (
    #[trigger] after.threads()[i]).state == before.threads()[i].state by {
        assert(i == tid || after.threads()[i] == before.threads()[i]);
    }
}

/// Takes the oldest message of type `tag` out of the mailbox of the thread that
/// `carrier` carries. It comes with the name of its sender.
pub fn try_recv<M>(runtime: &mut Runtime<M>, carrier: &Carrier, tag: u64) -> (received: Option<
    (ThreadId, M),
>)
    requires
        valid(*old(runtime), *carrier),
    ensures
        valid(*final(runtime), *carrier),
        match carrier.current {
            None => received is None && *final(runtime) == *old(runtime),
            Some(t) => collected(
                old(runtime).threads(),
                t,
                tag,
                received,
                final(runtime).threads(),
            ),
        },
        carrier.current matches Some(t) ==> {
            let before = old(runtime).threads()[t as int].mailbox@;
            let after = final(runtime).threads()[t as int].mailbox@;
            match received {
                Some((from, message)) => exists|i: int|
                    {
                        &&& 0 <= i < before.len()
                        &&& (#[trigger] before[i]).tag == tag
                        &&& before[i].sender == from@
                        &&& before[i].message == message
                        &&& forall|j: int| 0 <= j < i ==> (#[trigger] before[j]).tag != tag
                        &&& after == before.remove(i)
                    },
                None => {
                    &&& forall|j: int| 0 <= j < before.len() ==> (#[trigger] before[j]).tag != tag
                    &&& after == before
                },
            }
        },
        final(runtime).threads().len() == old(runtime).threads().len(),
        forall|i: int|
            0 <= i < old(runtime).threads().len() ==> #[trigger] final(runtime).threads()[i]
                == (GreenThread {
                mailbox: if carrier.current == Some(i as usize) {
                    final(runtime).threads()[i].mailbox
                } else {
                    old(runtime).threads()[i].mailbox
                },
                ..old(runtime).threads()[i]
            }),
        final(runtime).injector == old(runtime).injector,
        balanced(*old(runtime), *carrier) ==> balanced(*final(runtime), *carrier),
        exclusive(*old(runtime), *carrier) ==> exclusive(*final(runtime), *carrier),
{
    if let Some(current) = carrier.current {
        let found = runtime.scheduler.collect(current, tag);
        proof {
            lemma_mailbox_keeps_states(*old(runtime), *carrier, *runtime, current as int);
        }
        if let Some(actor_msg) = found {
            let sender = actor_msg.get_sender();
            if let Some(message) = actor_msg.get_message(tag) {
                return Some((ThreadId::new(sender), message));
            }
        }
    }
    None
}

/// A message is signed with the thread that the carrier carries, whichever that is,
/// and bears the number that stands for no thread only where it carries none. No
/// thread has that number.
pub proof fn law_message_is_signed<M>(runtime: Runtime<M>, carrier: Carrier)
    requires
        valid(runtime, carrier),
    ensures
        carrier.current matches Some(t) ==> sender_of(carrier) == t && t < usize::MAX,
        carrier.current is None ==> sender_of(carrier) == usize::MAX,
        sender_of(carrier) == usize::MAX <==> carrier.current is None,
{
    assert(runtime.threads().len() <= usize::MAX);
}

/// A message that was delivered stands last in the mailbox of its receiver, as it
/// was written. The messages before it, every other mailbox and all the rest of
/// every thread are as they were.
pub proof fn law_delivered_message_stands_last<M>(
    threads: Seq<GreenThread<M>>,
    to: usize,
    message: ActorMessage<M>,
    threads_after: Seq<GreenThread<M>>,
)
    requires
        to < threads.len(),
        delivered(threads, to, message, threads_after),
    ensures
        threads_after.len() == threads.len(),
        ({
            let before = threads[to as int].mailbox@;
            let after = threads_after[to as int].mailbox@;
            &&& after.len() == before.len() + 1
            &&& after.drop_last() == before
            &&& after.last().sender == message.sender
            &&& after.last().tag == message.tag
            &&& after.last().message == message.message
        }),
        forall|i: int|
            0 <= i < threads.len() ==> #[trigger] threads_after[i] == (GreenThread {
                mailbox: threads_after[i].mailbox,
                ..threads[i]
            }),
        forall|i: int|
            0 <= i < threads.len() && i != to ==> #[trigger] threads_after[i] == threads[i],
{
    assert(threads_after[to as int].mailbox@.drop_last() =~= threads[to as int].mailbox@);
}

/// What is received is a message of the mailbox, told with the sender and the
/// payload that it bears there; none before it has its type, and it alone leaves
/// the mailbox. Nothing else of any thread changes.
pub proof fn law_received_message_leaves_the_mailbox<M>(
    threads: Seq<GreenThread<M>>,
    by: usize,
    tag: u64,
    received: Option<(ThreadId, M)>,
    threads_after: Seq<GreenThread<M>>,
)
    requires
        by < threads.len(),
        collected(threads, by, tag, received, threads_after),
    ensures
        threads_after.len() == threads.len(),
        ({
            let before = threads[by as int].mailbox@;
            let after = threads_after[by as int].mailbox@;
            match received {
                Some((from, message)) => exists|i: int|
                    {
                        &&& 0 <= i < before.len()
                        &&& (#[trigger] before[i]).tag == tag
                        &&& before[i].sender == from@
                        &&& before[i].message == message
                        &&& forall|j: int| 0 <= j < i ==> (#[trigger] before[j]).tag != tag
                        &&& after == before.remove(i)
                    },
                None => {
                    &&& forall|j: int| 0 <= j < before.len() ==> (#[trigger] before[j]).tag != tag
                    &&& after == before
                },
            }
        }),
        forall|i: int|
            0 <= i < threads.len() ==> #[trigger] threads_after[i] == (GreenThread {
                mailbox: threads_after[i].mailbox,
                ..threads[i]
            }),
        forall|i: int|
            0 <= i < threads.len() && i != by ==> #[trigger] threads_after[i] == threads[i],
{
    let before = threads[by as int].mailbox@;
    if received is None {
        assert forall|j: int| 0 <= j < before.len() implies (#[trigger] before[j]).tag != tag by {
            assert(!(before[j].tag == tag));
        }
    }
}

/// What a thread receives by type is the first message of that type in its
/// mailbox, under the name of its sender; the rest of that type, and every message
/// of another type, is left in order. It receives nothing exactly when no message
/// of the type is there.
pub proof fn law_received_message_is_the_oldest<M>(
    threads: Seq<GreenThread<M>>,
    by: usize,
    tag: u64,
    received: Option<(ThreadId, M)>,
    threads_after: Seq<GreenThread<M>>,
    other: u64,
)
    requires
        collected(threads, by, tag, received, threads_after),
    ensures
        ({
            let before = of_type(threads[by as int].mailbox@, tag);
            let after = of_type(threads_after[by as int].mailbox@, tag);
            &&& received is None <==> before.len() == 0
            &&& received is Some ==> as_message(received, tag) == Some(before[0]) && after
                == before.drop_first()
        }),
        other != tag ==> of_type(threads_after[by as int].mailbox@, other) == of_type(
            threads[by as int].mailbox@,
            other,
        ),
{
    law_taken_message_is_the_oldest(
        threads[by as int].mailbox@,
        tag,
        as_message(received, tag),
        threads_after[by as int].mailbox@,
        other,
    );
}

/// What is sent arrives: a message that is sent lines up behind those of its type
/// that its receiver has not received yet, and what the receiver gets next by that
/// type is the first in this line. Where there was none before, that is the
/// message that was sent, and the mailbox is then as it was.
pub proof fn law_message_arrives<M>(
    threads: Seq<GreenThread<M>>,
    to: usize,
    message: ActorMessage<M>,
    threads_between: Seq<GreenThread<M>>,
    received: Option<(ThreadId, M)>,
    threads_after: Seq<GreenThread<M>>,
)
    requires
        delivered(threads, to, message, threads_between),
        collected(threads_between, to, message.tag, received, threads_after),
    ensures
        ({
            let line = of_type(threads[to as int].mailbox@, message.tag).push(message);
            &&& as_message(received, message.tag) == Some(line[0])
            &&& of_type(threads_after[to as int].mailbox@, message.tag) == line.drop_first()
        }),
        !holds_type(threads[to as int].mailbox@, message.tag) ==> {
            &&& as_message(received, message.tag) == Some(message)
            &&& threads_after[to as int].mailbox@ == threads[to as int].mailbox@
        },
{
    let mailbox = threads[to as int].mailbox@;
    law_sent_message_comes_last(mailbox, message, message.tag);
    law_received_message_is_the_oldest(
        threads_between,
        to,
        message.tag,
        received,
        threads_after,
        message.tag,
    );
    if !holds_type(mailbox, message.tag) {
        law_received_as_sent(
            mailbox,
            message,
            as_message(received, message.tag),
            threads_after[to as int].mailbox@,
        );
    }
}

/// The queue and the running thread after the running thread gave its turn away.
pub open spec fn rotated(queue: Seq<usize>, running: usize) -> (Seq<usize>, usize) {
    (queue.push(running).drop_first(), queue.push(running)[0])
}

/// The queue and the running thread after `n` turns given away.
pub open spec fn rotated_times(queue: Seq<usize>, running: usize, n: nat) -> (Seq<usize>, usize)
    decreases n,
{
    if n == 0 {
        (queue, running)
    } else {
        let (q, r) = rotated_times(queue, running, (n - 1) as nat);
        rotated(q, r)
    }
}

/// The step of a yield names the thread that yields, and the thread that was taken
/// off the queues where there is one; it is never mistaken for another outcome.
pub proof fn law_yield_step_names_its_threads(from: usize, next: Stolen)
    ensures
        next matches Stolen::Success(to) ==> yield_step(from, next) == (YieldStep::Switch {
            from,
            to,
        }) && end_step(next) == (EndStep::Switch { to }),
        next is Empty ==> yield_step(from, next) == (YieldStep::Wait { from }) && end_step(next)
            == EndStep::Sleep,
        next is Retry ==> yield_step(from, next) == (YieldStep::Refused { from }) && end_step(next)
            == EndStep::Refused,
        yields_to(yield_step(from, next)) == next,
        ends_to(end_step(next)) == next,
{
}

/// A yield saves the registers of the thread that was carried and loads those of
/// the first in line, behind all of which the yielding thread lines up. The first
/// in line runs and is carried, the yielding thread waits for its turn unless it
/// is that first one itself, and no other thread changes. Where the shared queue
/// refuses, the thread is still carried, and has lined up.
pub proof fn law_yield_hands_the_turn_on<M>(
    runtime: Runtime<M>,
    carrier: Carrier,
    step: YieldStep,
    runtime_after: Runtime<M>,
    carrier_after: Carrier,
)
    requires
        valid(runtime, carrier),
        yielded(runtime, carrier, step, runtime_after, carrier_after),
    ensures
        match step {
            YieldStep::Switch { from, to } => {
                &&& carrier.current == Some(from)
                &&& carrier_after.current == Some(to)
                &&& carrier.local() + runtime.shared().push(from) == seq![to] + (
                carrier_after.local() + runtime_after.shared())
            },
            YieldStep::Refused { from } => {
                &&& carrier.current == Some(from)
                &&& carrier_after.current == Some(from)
                &&& carrier_after.local() == carrier.local()
                &&& runtime_after.shared() == runtime.shared().push(from)
            },
            YieldStep::Wait { from } => false,
            YieldStep::Return => {
                &&& carrier.current is None
                &&& carrier_after == carrier
                &&& runtime_after == runtime
            },
        },
        runtime_after.threads().len() == runtime.threads().len(),
        forall|i: int|
            0 <= i < runtime.threads().len() ==> #[trigger] runtime_after.threads()[i] == (
            GreenThread {
                state: if step matches YieldStep::Switch { from: _, to } && to == i {
                    ThreadState::RUNNING
                } else if carrier.current matches Some(t) && t == i {
                    ThreadState::YIELD
                } else {
                    runtime.threads()[i].state
                },
                ..runtime.threads()[i]
            }),
{
}

/// The end of a thread hands the turn to the first in line, which then runs and is
/// carried. A thread that was running when it ended has exited, and it is not put
/// in line again. No other thread changes.
pub proof fn law_end_hands_the_turn_on<M>(
    runtime: Runtime<M>,
    carrier: Carrier,
    step: EndStep,
    runtime_after: Runtime<M>,
    carrier_after: Carrier,
)
    requires
        valid(runtime, carrier),
        turn_taken(
            ended(runtime.threads(), carrier.current),
            carrier.current,
            carrier.local(),
            runtime.shared(),
            ends_to(step),
            runtime_after,
            carrier_after,
        ),
    ensures
        match step {
            EndStep::Switch { to } => {
                &&& carrier_after.current == Some(to)
                &&& carrier.local() + runtime.shared() == seq![to] + (carrier_after.local()
                    + runtime_after.shared())
            },
            EndStep::Sleep => {
                &&& carrier.local().len() == 0
                &&& runtime.shared().len() == 0
            },
            EndStep::Refused => runtime.shared().len() > 0,
        },
        step !is Switch ==> {
            &&& carrier_after.current == carrier.current
            &&& carrier_after.local() == carrier.local()
            &&& runtime_after.shared() == runtime.shared()
        },
        runtime_after.threads().len() == runtime.threads().len(),
        forall|i: int|
            0 <= i < runtime.threads().len() ==> #[trigger] runtime_after.threads()[i] == (
            GreenThread {
                state: if step matches EndStep::Switch { to } && to == i {
                    ThreadState::RUNNING
                } else if carrier.current matches Some(t) && t == i && runtime.threads()[i].state
                    == ThreadState::RUNNING {
                    ThreadState::EXITED
                } else {
                    runtime.threads()[i].state
                },
                ..runtime.threads()[i]
            }),
{
}

/// A yield that ends in a switch, on a carrier with nothing in its own queue,
/// rotates the shared queue by one: the first in line runs, and the thread that
/// ran is last in line.
pub proof fn law_yield_rotates<M>(
    runtime: Runtime<M>,
    carrier: Carrier,
    running: usize,
    step: YieldStep,
    runtime_after: Runtime<M>,
    carrier_after: Carrier,
)
    requires
        carrier.current == Some(running),
        carrier.local().len() == 0,
        step is Switch,
        yielded(runtime, carrier, step, runtime_after, carrier_after),
    ensures
        runtime_after.shared() == rotated(runtime.shared(), running).0,
        carrier_after.current == Some(rotated(runtime.shared(), running).1),
        carrier_after.local().len() == 0,
{
}

proof fn lemma_ring(queue: Seq<usize>, running: usize, n: nat)
    requires
        n <= queue.len(),
    ensures
        ({
            let ring = seq![running] + queue;
            rotated_times(queue, running, n) == (
                ring.skip(n as int + 1) + ring.take(n as int),
                ring[n as int],
            )
        }),
    decreases n,
{
    let ring = seq![running] + queue;
    if n == 0 {
        assert(ring.skip(1) + ring.take(0) =~= queue);
    } else {
        lemma_ring(queue, running, (n - 1) as nat);
        let q = ring.skip(n as int) + ring.take(n - 1);
        assert(q.push(ring[n - 1]).drop_first() =~= ring.skip(n as int + 1) + ring.take(n as int));
        assert(q.push(ring[n - 1])[0] == ring[n as int]);
    }
}

/// Turns go round: while threads only give their turns away, the thread at place
/// `n` in line runs after `n` turns, and once all have had theirs everything is
/// as it was.
pub proof fn law_round_robin(queue: Seq<usize>, running: usize, n: nat)
    ensures
        1 <= n <= queue.len() ==> rotated_times(queue, running, n).1 == queue[n - 1],
        n == queue.len() + 1 ==> rotated_times(queue, running, n) == (queue, running),
{
    let ring = seq![running] + queue;
    if n <= queue.len() {
        lemma_ring(queue, running, n);
    } else if n == queue.len() + 1 {
        lemma_ring(queue, running, queue.len());
        let q = ring.skip(queue.len() as int + 1) + ring.take(queue.len() as int);
        assert(q.push(ring[queue.len() as int]) =~= ring);
        assert(ring.drop_first() =~= queue);
    }
}

} // verus!
