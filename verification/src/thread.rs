//! Green threads and the table that knows them all.
use crate::context::{
    fresh, init_stack_with_arg, law_fresh_registers, law_fresh_stack_pointer_is_aligned,
    law_view_shows_every_register, ThreadContext,
};
use crate::message::{take_oldest, taken_from, ActorMessage};
use crate::queue::{injector_contents, injector_push};
use crossbeam::deque::Injector;
use std::collections::HashMap;
use vstd::prelude::*;

verus! {

broadcast use vstd::std_specs::hash::group_hash_axioms;

/// The ticks that a new thread starts with.
pub const INITIAL_TICKS: i32 = 100;

/// Names a thread to those who send to it.
#[derive(Eq, Hash, PartialEq, Structural, Copy, Clone, Debug)]
pub struct ThreadId(usize);

impl View for ThreadId {
    type V = usize;

    closed spec fn view(&self) -> usize {
        self.0
    }
}

impl ThreadId {
    /// The name of the thread with number `tid`.
    pub(crate) fn new(tid: usize) -> (id: Self)
        ensures
            id@ == tid,
    {
        ThreadId(tid)
    }
}

/// Names are as good as numbers: two are equal just where they stand for the same
/// number.
pub proof fn law_names_tell_threads_apart(id: ThreadId, other: ThreadId)
    ensures
        id == other <==> id@ == other@,
{
}

/// What a thread is doing.
#[derive(PartialEq, Eq, Structural, Copy, Clone, Debug)]
pub enum ThreadState {
    /// It is on a carrier now.
    RUNNING,
    /// It waits for something other than its turn.
    WAITING,
    /// It gave its turn away and waits for the next one.
    YIELD,
    /// It has not run yet.
    READY,
    /// It is done.
    EXITED,
}

/// A green thread.
#[derive(Debug)]
pub struct GreenThread<M> {
    pub context: ThreadContext,
    pub stack_top: usize,
    pub stack_bottom: usize,
    pub tid: usize,
    pub state: ThreadState,
    pub ticks: i32,
    /// The thread behind this one in an intrusive queue.
    pub next: Option<usize>,
    pub mailbox: Vec<ActorMessage<M>>,
}

/// Why a message could not be sent.
#[derive(PartialEq, Eq, Structural, Copy, Clone, Debug)]
pub enum SendError {
    /// No thread has the name that the message was addressed to.
    ThreadNotFound,
}

/// A closure on its way to the thread that will run it.
pub struct ClosureWrapper<F: FnOnce()> {
    pub closure: Option<F>,
}

impl<F: FnOnce()> ClosureWrapper<F> {
    /// Runs the closure, if there is one.
    pub fn call(self: Box<Self>)
        requires
            self.closure matches Some(f) ==> call_requires(f, ()),
        ensures
            self.closure matches Some(f) ==> call_ensures(f, (), ()),
    {
        let mut wrapper = self;
        if let Some(closure) = wrapper.closure.take() {
            closure();
        }
    }
}

/// `thread` is as a spawn leaves it: ready, with full ticks and an empty
/// mailbox, about to enter `entry` with `arg` on its own stack.
pub open spec fn is_spawned<M>(
    thread: GreenThread<M>,
    tid: usize,
    stack: (usize, usize),
    entry: usize,
    arg: usize,
    exit: usize,
) -> bool {
    &&& thread.context@ == fresh(stack.0, entry, arg, exit)
    &&& thread.stack_top == stack.0
    &&& thread.stack_bottom == stack.1
    &&& thread.tid == tid
    &&& thread.state == ThreadState::READY
    &&& thread.ticks == INITIAL_TICKS
    &&& thread.next == None::<usize>
    &&& thread.mailbox@ == Seq::<ActorMessage<M>>::empty()
}

/// `threads` with the state of thread `tid` replaced.
pub open spec fn with_state<M>(
    threads: Seq<GreenThread<M>>,
    tid: usize,
    state: ThreadState,
) -> Seq<GreenThread<M>> {
    threads.update(tid as int, GreenThread { state, ..threads[tid as int] })
}

/// `after` is `before` but for the mailbox.
pub open spec fn same_but_mailbox<M>(before: GreenThread<M>, after: GreenThread<M>) -> bool {
    after == (GreenThread { mailbox: after.mailbox, ..before })
}

/// `after` is `before` but for the mailbox of thread `tid`.
pub open spec fn only_mailbox_changed<M>(
    before: Seq<GreenThread<M>>,
    after: Seq<GreenThread<M>>,
    tid: int,
) -> bool {
    &&& after.len() == before.len()
    &&& same_but_mailbox(before[tid], after[tid])
    &&& forall|i: int| 0 <= i < before.len() && i != tid ==> #[trigger] after[i] == before[i]
}

/// A spawned thread is ready under its own number, with full ticks, no message and
/// no thread behind it, on the stack that it was given; it will enter `entry` with
/// its whole argument and return to `exit`, and every other register is zero.
pub proof fn law_spawned_thread_is_ready<M>(
    thread: GreenThread<M>,
    tid: usize,
    stack: (usize, usize),
    entry: usize,
    arg: usize,
    exit: usize,
)
    requires
        is_spawned(thread, tid, stack, entry, arg, exit),
    ensures
        thread.tid == tid,
        thread.state == ThreadState::READY,
        thread.ticks == 100,
        thread.next is None,
        thread.mailbox@.len() == 0,
        thread.stack_top == stack.0,
        thread.stack_bottom == stack.1,
        thread.context.pc == entry,
        thread.context.regs[0] == arg,
        thread.context.regs[30] == exit,
        forall|i: int|
            0 <= i < 32 && i != 0 && i != 30 ==> #[trigger] thread.context.regs[i] == 0,
        forall|i: int| 0 <= i < 32 ==> #[trigger] thread.context.fpregs[i] == 0,
        thread.context.sp % 16 == 0,
        thread.context.sp <= stack.0 < thread.context.sp + 16,
{
    law_view_shows_every_register(thread.context);
    law_fresh_registers(stack.0, entry, arg, exit);
    law_fresh_stack_pointer_is_aligned(stack.0, entry, arg, exit);
    assert forall|i: int| 0 <= i < 32 && i != 0 && i != 30 implies #[trigger] thread.context.regs[i]
        == 0 by {
        assert(thread.context@.regs[i] == thread.context.regs[i]);
    }
    assert forall|i: int| 0 <= i < 32 implies #[trigger] thread.context.fpregs[i] == 0 by {
        assert(thread.context@.fpregs[i] == thread.context.fpregs[i]);
    }
    assert(thread.context@.regs[0] == thread.context.regs[0]);
    assert(thread.context@.regs[30] == thread.context.regs[30]);
}

/// Setting the state of one thread touches nothing but that state, and the last
/// state set is the one that stands.
pub proof fn law_set_state_touches_one_thread<M>(
    threads: Seq<GreenThread<M>>,
    tid: usize,
    state: ThreadState,
    earlier: ThreadState,
)
    requires
        tid < threads.len(),
    ensures
        with_state(threads, tid, state).len() == threads.len(),
        with_state(threads, tid, state)[tid as int] == (GreenThread {
            state,
            ..threads[tid as int]
        }),
        forall|i: int|
            0 <= i < threads.len() && i != tid ==> #[trigger] with_state(threads, tid, state)[i]
                == threads[i],
        with_state(with_state(threads, tid, earlier), tid, state) == with_state(
            threads,
            tid,
            state,
        ),
        with_state(threads, tid, threads[tid as int].state) == threads,
{
    assert(with_state(with_state(threads, tid, earlier), tid, state) =~= with_state(
        threads,
        tid,
        state,
    ));
    assert(with_state(threads, tid, threads[tid as int].state) =~= threads);
}

/// Where only a mailbox changed, every other field of every thread is as it was,
/// and so is every other mailbox.
pub proof fn law_mailbox_change_touches_nothing_else<M>(
    before: Seq<GreenThread<M>>,
    after: Seq<GreenThread<M>>,
    tid: int,
)
    requires
        0 <= tid < before.len(),
        only_mailbox_changed(before, after, tid),
    ensures
        after.len() == before.len(),
        forall|i: int|
            0 <= i < before.len() ==> {
                &&& (#[trigger] after[i]).tid == before[i].tid
                &&& after[i].state == before[i].state
                &&& after[i].ticks == before[i].ticks
                &&& after[i].next == before[i].next
                &&& after[i].context == before[i].context
                &&& after[i].stack_top == before[i].stack_top
                &&& after[i].stack_bottom == before[i].stack_bottom
                &&& i != tid ==> after[i].mailbox == before[i].mailbox
            },
{
}

/// All threads ever spawned, and how to find one by its name.
///
/// Its view is the row of threads, in the order in which they were spawned.
pub struct Scheduler<M> {
    threads: Vec<GreenThread<M>>,
    tid_thread_map: HashMap<usize, usize>,
}

impl<M> View for Scheduler<M> {
    type V = Seq<GreenThread<M>>;

    closed spec fn view(&self) -> Seq<GreenThread<M>> {
        self.threads@
    }
}

impl<M> Scheduler<M> {
    /// Every thread carries its place in the row as its number, and is found
    /// under it.
    pub open spec fn wf(&self) -> bool {
        &&& self.finds_all()
        &&& self@.len() <= usize::MAX
        &&& forall|i: int| 0 <= i < self@.len() ==> #[trigger] self@[i].tid == i
    }

    /// The map leads from every thread's number, and from no other, to its place.
    pub closed spec fn finds_all(&self) -> bool {
        &&& forall|t: usize| #[trigger]
            self.tid_thread_map@.contains_key(t) <==> t < self.threads@.len()
        &&& forall|t: usize| t < self.threads@.len() ==> #[trigger] self.tid_thread_map@[t] == t
    }

    /// A scheduler without threads.
    pub fn new() -> (scheduler: Self)
        ensures
            scheduler.wf(),
            scheduler@ == Seq::<GreenThread<M>>::empty(),
    {
        Scheduler { threads: Vec::new(), tid_thread_map: HashMap::new() }
    }

    /// Adds a thread that will enter `entry` with `arg` on the stack
    /// `(top, bottom)` and return to `exit`, and puts it in line to run.
    pub fn spawn_fn(
        &mut self,
        injector: &mut Injector<usize>,
        stack: (usize, usize),
        entry: usize,
        arg: usize,
        exit: usize,
    ) -> (id: ThreadId)
        requires
            old(self).wf(),
        ensures
            final(self).wf(),
            id@ == old(self)@.len(),
            final(self)@.len() == old(self)@.len() + 1,
            final(self)@.drop_last() == old(self)@,
            is_spawned(final(self)@.last(), id@, stack, entry, arg, exit),
            injector_contents(*final(injector)) == injector_contents(*old(injector)).push(id@),
            forall|i: int|
                0 <= i < old(self)@.len() ==> #[trigger] final(self)@[i] == old(self)@[i],
            final(self)@.last().tid == id@,
            final(self)@.last().state == ThreadState::READY,
            final(self)@.last().ticks == 100,
            final(self)@.last().next is None,
            final(self)@.last().mailbox@.len() == 0,
            final(self)@.last().stack_top == stack.0,
            final(self)@.last().stack_bottom == stack.1,
            final(self)@.last().context.pc == entry,
            final(self)@.last().context.regs[0] == arg,
            final(self)@.last().context.regs[30] == exit,
            forall|i: int|
                0 <= i < 32 && i != 0 && i != 30 ==> #[trigger] final(self)@.last().context.regs[i]
                    == 0,
            forall|i: int| 0 <= i < 32 ==> #[trigger] final(self)@.last().context.fpregs[i] == 0,
            final(self)@.last().context.sp % 16 == 0,
            final(self)@.last().context.sp <= stack.0 < final(self)@.last().context.sp + 16,
    {
        let mut ctx = ThreadContext::zeroed();
        let (top, bottom) = stack;
        init_stack_with_arg(top, &mut ctx, entry, arg, exit);
        let tid = self.threads.len();
        let thread = GreenThread {
            context: ctx,
            stack_top: top,
            stack_bottom: bottom,
            tid,
            state: ThreadState::READY,
            ticks: INITIAL_TICKS,
            next: None,
            mailbox: Vec::new(),
        };
        self.threads.push(thread);
        self.tid_thread_map.insert(tid, tid);
        injector_push(injector, tid);
        proof {
            assert(self.threads@.drop_last() =~= old(self).threads@);
            assert(self.threads.len() == self.threads@.len());
        }
        ThreadId(tid)
    }

    /// The place of the thread that `id` names.
    pub fn find(&self, id: ThreadId) -> (place: Option<usize>)
        requires
            self.wf(),
        ensures
            place == (if id@ < self@.len() {
                Some(id@)
            } else {
                None
            }),
    {
        match self.tid_thread_map.get(&id.0) {
            Some(place) => Some(*place),
            None => None,
        }
    }

    /// The thread with number `tid`.
    pub fn thread(&self, tid: usize) -> (thread: &GreenThread<M>)
        requires
            tid < self@.len(),
        ensures
            *thread == self@[tid as int],
    {
        &self.threads[tid]
    }

    /// Replaces the state of thread `tid`.
    pub fn set_state(&mut self, tid: usize, state: ThreadState)
        requires
            old(self).wf(),
            tid < old(self)@.len(),
        ensures
            final(self).wf(),
            final(self)@ == with_state(old(self)@, tid, state),
            final(self)@.len() == old(self)@.len(),
            final(self)@[tid as int].state == state,
            final(self)@[tid as int] == (GreenThread { state, ..old(self)@[tid as int] }),
            forall|i: int|
                0 <= i < old(self)@.len() && i != tid
                    ==> #[trigger] final(self)@[i] == old(self)@[i],
    {
        self.threads[tid].state = state;
    }

    /// Puts `message` last in the mailbox of thread `tid`.
    pub fn deliver(&mut self, tid: usize, message: ActorMessage<M>)
        requires
            old(self).wf(),
            tid < old(self)@.len(),
        ensures
            final(self).wf(),
            only_mailbox_changed(old(self)@, final(self)@, tid as int),
            final(self)@[tid as int].mailbox@ == old(self)@[tid as int].mailbox@.push(message),
            final(self)@.len() == old(self)@.len(),
            final(self)@[tid as int] == (GreenThread {
                mailbox: final(self)@[tid as int].mailbox,
                ..old(self)@[tid as int]
            }),
            forall|i: int|
                0 <= i < old(self)@.len() && i != tid
                    ==> #[trigger] final(self)@[i] == old(self)@[i],
    {
        self.threads[tid].mailbox.push(message);
    }

    /// Takes the oldest message of type `tag` out of the mailbox of thread `tid`.
    pub fn collect(&mut self, tid: usize, tag: u64) -> (message: Option<ActorMessage<M>>)
        requires
            old(self).wf(),
            tid < old(self)@.len(),
        ensures
            final(self).wf(),
            only_mailbox_changed(old(self)@, final(self)@, tid as int),
            taken_from(
                old(self)@[tid as int].mailbox@,
                tag,
                message,
                final(self)@[tid as int].mailbox@,
            ),
            final(self)@.len() == old(self)@.len(),
            final(self)@[tid as int] == (GreenThread {
                mailbox: final(self)@[tid as int].mailbox,
                ..old(self)@[tid as int]
            }),
            forall|i: int|
                0 <= i < old(self)@.len() && i != tid
                    ==> #[trigger] final(self)@[i] == old(self)@[i],
            ({
                let before = old(self)@[tid as int].mailbox@;
                let after = final(self)@[tid as int].mailbox@;
                match message {
                    Some(m) => {
                        &&& m.tag == tag
                        &&& exists|i: int|
                            {
                                &&& 0 <= i < before.len()
                                &&& #[trigger] before[i] == m
                                &&& forall|j: int| 0 <= j < i ==> (#[trigger] before[j]).tag != tag
                                &&& after == before.remove(i)
                            }
                    },
                    None => {
                        &&& forall|j: int|
                            0 <= j < before.len() ==> (#[trigger] before[j]).tag != tag
                        &&& after == before
                    },
                }
            }),
    {
        take_oldest(&mut self.threads[tid].mailbox, tag)
    }
}

} // verus!
