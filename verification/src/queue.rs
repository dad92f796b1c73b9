//! The run queues: one injector that all carriers share, and one worker queue
//! for each carrier. Both are crossbeam's; what waits in them are thread numbers.
use crossbeam::deque::{Injector, Steal, Worker};
use vstd::prelude::*;

verus! {

/// crossbeam's shared queue.
#[verifier::external_type_specification]
#[verifier::external_body]
#[verifier::reject_recursive_types(T)]
pub struct ExInjector<T>(crossbeam::deque::Injector<T>);

/// crossbeam's queue of a single owner.
#[verifier::external_type_specification]
#[verifier::external_body]
#[verifier::reject_recursive_types(T)]
pub struct ExWorker<T>(crossbeam::deque::Worker<T>);

/// The threads that wait in an injector, the one pushed first at the front.
pub uninterp spec fn injector_contents(injector: Injector<usize>) -> Seq<usize>;

/// The threads that wait in a worker queue, in the order in which `pop` hands
/// them out.
pub uninterp spec fn worker_contents(worker: Worker<usize>) -> Seq<usize>;

/// No `Stealer` was ever made for this worker queue, so nothing but its owner
/// takes threads out of it.
pub uninterp spec fn worker_unshared(worker: Worker<usize>) -> bool;

/// What came of an attempt to take a thread out of a queue.
#[derive(Debug, PartialEq, Eq, Structural, Clone, Copy)]
pub enum Stolen {
    /// Nothing waits there.
    Empty,
    /// This thread was taken.
    Success(usize),
    /// Something waits, but the attempt was refused; nothing was taken.
    Retry,
}

/// `Injector::new`: an injector in which nothing waits.
#[verifier::external_body]
pub(crate) fn injector_new() -> (injector: Injector<usize>)
    ensures
        injector_contents(injector) == Seq::<usize>::empty(),
{
    Injector::new()
}

/// `Injector::push`, on an injector that nobody else uses during the call: the
/// thread is put behind those that wait already.
#[verifier::external_body]
pub(crate) fn injector_push(injector: &mut Injector<usize>, thread: usize)
    ensures
        injector_contents(*final(injector)) == injector_contents(*old(injector)).push(thread),
{
    injector.push(thread)
}

/// `Injector::steal`, on an injector that nobody else uses during the call.
///
/// It finds the injector empty exactly when nothing waits in it. Otherwise it
/// takes the thread at the front, or takes nothing and asks to be retried: the
/// exchange it ends in may fail without a reason, so which of the two happens
/// is left open.
#[verifier::external_body]
pub(crate) fn injector_steal(injector: &mut Injector<usize>) -> (stolen: Stolen)
    ensures
        (stolen is Empty) == (injector_contents(*old(injector)).len() == 0),
        match stolen {
            Stolen::Success(thread) => {
                &&& thread == injector_contents(*old(injector))[0]
                &&& injector_contents(*final(injector)) == injector_contents(
                    *old(injector),
                ).drop_first()
            },
            _ => injector_contents(*final(injector)) == injector_contents(*old(injector)),
        },
{
    match injector.steal() {
        Steal::Empty => Stolen::Empty,
        Steal::Success(thread) => Stolen::Success(thread),
        Steal::Retry => Stolen::Retry,
    }
}

/// `Worker::new_fifo`: a worker queue in which nothing waits.
#[verifier::external_body]
pub(crate) fn worker_new_fifo() -> (worker: Worker<usize>)
    ensures
        worker_contents(worker) == Seq::<usize>::empty(),
        worker_unshared(worker),
{
    Worker::new_fifo()
}

/// `Worker::pop`, on a queue without stealers: takes the thread that is next in
/// line, and nothing exactly when the queue is empty.
#[verifier::external_body]
pub(crate) fn worker_pop(worker: &mut Worker<usize>) -> (thread: Option<usize>)
    requires
        worker_unshared(*old(worker)),
    ensures
        worker_unshared(*final(worker)),
        match thread {
            Some(t) => {
                &&& worker_contents(*old(worker)).len() > 0
                &&& t == worker_contents(*old(worker))[0]
                &&& worker_contents(*final(worker)) == worker_contents(*old(worker)).drop_first()
            },
            None => {
                &&& worker_contents(*old(worker)).len() == 0
                &&& worker_contents(*final(worker)) == worker_contents(*old(worker))
            },
        },
{
    worker.pop()
}

/// One attempt to take a thread off the queues turned `(local, shared)` into
/// `(local_after, shared_after)` and gave `next`: the front of the local queue
/// where that holds any, else the front of the shared one. Nothing is taken only
/// where both are empty, or where the shared queue holds threads but refused to
/// hand one out.
pub open spec fn taken(
    local: Seq<usize>,
    shared: Seq<usize>,
    next: Stolen,
    local_after: Seq<usize>,
    shared_after: Seq<usize>,
) -> bool {
    match next {
        Stolen::Success(t) => if local.len() > 0 {
            &&& t == local[0]
            &&& local_after == local.drop_first()
            &&& shared_after == shared
        } else {
            &&& shared.len() > 0
            &&& t == shared[0]
            &&& local_after == local
            &&& shared_after == shared.drop_first()
        },
        Stolen::Empty => {
            &&& local.len() == 0
            &&& shared.len() == 0
            &&& local_after == local
            &&& shared_after == shared
        },
        Stolen::Retry => {
            &&& local.len() == 0
            &&& shared.len() > 0
            &&& local_after == local
            &&& shared_after == shared
        },
    }
}

/// The two queues are one line, the local threads before the shared ones: what is
/// taken stands at its front, and the rest keeps its order. Where nothing is
/// taken both queues are as they were, and the local one is empty.
pub proof fn law_queues_are_one_line(
    local: Seq<usize>,
    shared: Seq<usize>,
    next: Stolen,
    local_after: Seq<usize>,
    shared_after: Seq<usize>,
)
    requires
        taken(local, shared, next, local_after, shared_after),
    ensures
        next matches Stolen::Success(t) ==> local + shared == seq![t] + (local_after
            + shared_after),
        next !is Success ==> local.len() == 0 && local_after == local && shared_after == shared,
        next is Empty <==> (local + shared).len() == 0,
        local.len() > 0 ==> shared_after == shared,
        local.len() == 0 ==> local_after.len() == 0,
{
    if let Stolen::Success(t) = next {
        assert(local + shared =~= seq![t] + (local_after + shared_after));
    }
}

/// Takes the thread that runs next: from the carrier's own queue if that holds
/// one, else from the shared queue.
///
/// It finds nothing exactly when both queues are empty. Where only the shared
/// queue holds threads, it may be refused one.
pub fn next_runnable(worker: &mut Worker<usize>, injector: &mut Injector<usize>) -> (next: Stolen)
    requires
        worker_unshared(*old(worker)),
    ensures
        worker_unshared(*final(worker)),
        (next is Empty) == (worker_contents(*old(worker)).len() == 0 && injector_contents(
            *old(injector),
        ).len() == 0),
        taken(
            worker_contents(*old(worker)),
            injector_contents(*old(injector)),
            next,
            worker_contents(*final(worker)),
            injector_contents(*final(injector)),
        ),
        worker_contents(*old(worker)).len() > 0 ==> {
            &&& next == Stolen::Success(worker_contents(*old(worker))[0])
            &&& worker_contents(*final(worker)) == worker_contents(*old(worker)).drop_first()
            &&& injector_contents(*final(injector)) == injector_contents(*old(injector))
        },
        worker_contents(*old(worker)).len() == 0 ==> {
            &&& worker_contents(*final(worker)).len() == 0
            &&& match next {
                Stolen::Success(t) => {
                    &&& injector_contents(*old(injector)) == seq![t] + injector_contents(
                        *final(injector),
                    )
                },
                _ => injector_contents(*final(injector)) == injector_contents(*old(injector)),
            }
        },
{
    match worker_pop(worker) {
        Some(thread) => Stolen::Success(thread),
        None => injector_steal(injector),
    }
}

} // verus!
