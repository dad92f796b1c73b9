//! A first-in first-out queue of threads that is linked through the threads
//! themselves: each names the one behind it. The head of the queue is a node
//! that does not wait any more: a dummy at first, then the thread that left last.
//!
//! Threads are named by their place in a table, which the operations take along.
use crate::context::{zero_fpregs, zero_regs, Registers, ThreadContext};
use crate::thread::{GreenThread, ThreadState};
use vstd::prelude::*;

verus! {

/// Names the dummy node. No thread has this place in a table.
pub const DUMMY: usize = usize::MAX;

/// A queue of threads, the one that came first at the front.
pub struct MsQueue<M> {
    pub dummy: GreenThread<M>,
    pub head: usize,
    pub tail: usize,
}

/// `after` is `before` but for the link.
pub open spec fn same_but_link<M>(before: GreenThread<M>, after: GreenThread<M>) -> bool {
    after == (GreenThread { next: after.next, ..before })
}

/// `node` is the dummy or a thread in `threads`.
pub open spec fn is_node<M>(threads: Seq<GreenThread<M>>, node: usize) -> bool {
    node == DUMMY || node < threads.len()
}

/// Thread `t` was made the tail, with the old tail linked to it and itself to
/// nothing. Nothing but links changed.
pub open spec fn enqueued<M>(
    queue: MsQueue<M>,
    threads: Seq<GreenThread<M>>,
    t: usize,
    queue_after: MsQueue<M>,
    threads_after: Seq<GreenThread<M>>,
) -> bool {
    &&& queue_after.head == queue.head
    &&& queue_after.tail == t
    &&& threads_after.len() == threads.len()
    &&& same_but_link(queue.dummy, queue_after.dummy)
    &&& forall|i: int|
        0 <= i < threads.len() ==> same_but_link(threads[i], #[trigger] threads_after[i])
    &&& forall|node: usize|
        is_node(threads, node) ==> #[trigger] queue_after.next_of(threads_after, node) == if node
            == queue.tail {
            Some(t)
        } else if node == t {
            None
        } else {
            queue.next_of(threads, node)
        }
}

/// `t`, the node behind the head, was made the head; without one nothing changed.
pub open spec fn dequeued<M>(
    queue: MsQueue<M>,
    threads: Seq<GreenThread<M>>,
    t: Option<usize>,
    queue_after: MsQueue<M>,
) -> bool {
    &&& t == queue.next_of(threads, queue.head)
    &&& queue_after.head == match t {
        Some(n) => n,
        None => queue.head,
    }
    &&& queue_after.tail == queue.tail
    &&& queue_after.dummy == queue.dummy
}

impl<M> MsQueue<M> {
    /// The node behind `node`.
    pub open spec fn next_of(&self, threads: Seq<GreenThread<M>>, node: usize) -> Option<usize> {
        if node == DUMMY {
            self.dummy.next
        } else {
            threads[node as int].next
        }
    }

    /// The head and the tail are among `reached`, all of which are nodes, and from
    /// there the links lead to none but these.
    pub open spec fn leads_within(
        &self,
        threads: Seq<GreenThread<M>>,
        reached: Set<usize>,
    ) -> bool {
        &&& reached.contains(self.head)
        &&& reached.contains(self.tail)
        &&& forall|node: usize| #[trigger]
            reached.contains(node) ==> is_node(threads, node) && (self.next_of(
                threads,
                node,
            ) matches Some(n) ==> reached.contains(n))
    }

    /// Every link that can be reached from the head or the tail leads somewhere.
    /// Threads that cannot be reached are linked as they like.
    pub open spec fn wf(&self, threads: Seq<GreenThread<M>>) -> bool {
        exists|reached: Set<usize>| #[trigger] self.leads_within(threads, reached)
    }

    /// The links lead from the head through `nodes`, one after the other, and end
    /// at the tail; no node comes twice.
    pub open spec fn leads_through(
        &self,
        threads: Seq<GreenThread<M>>,
        nodes: Seq<usize>,
    ) -> bool {
        &&& nodes.len() > 0
        &&& nodes[0] == self.head
        &&& nodes.last() == self.tail
        &&& nodes.no_duplicates()
        &&& is_node(threads, nodes[0])
        &&& forall|i: int| 1 <= i < nodes.len() ==> #[trigger] nodes[i] < threads.len()
        &&& forall|i: int, j: int|
            #![trigger nodes[i], nodes[j]]
            0 <= i && j == i + 1 && j < nodes.len() ==> self.next_of(threads, nodes[i]) == Some(
                nodes[j],
            )
        &&& self.next_of(threads, nodes.last()) == None::<usize>
    }

    /// The threads `waiting` are in the queue, in this order.
    pub open spec fn holds(&self, threads: Seq<GreenThread<M>>, waiting: Seq<usize>) -> bool {
        self.leads_through(threads, seq![self.head] + waiting)
    }

    /// An empty queue.
    pub fn new() -> (queue: Self)
        ensures
            queue.head == DUMMY,
            queue.tail == DUMMY,
            queue.dummy.tid == DUMMY,
            queue.dummy.next == None::<usize>,
            queue.dummy.state == ThreadState::RUNNING,
            queue.dummy.ticks == 0,
            queue.dummy.stack_top == 0,
            queue.dummy.stack_bottom == 0,
            queue.dummy.context@ == (Registers {
                sp: 0,
                regs: zero_regs(),
                fpregs: zero_fpregs(),
                pc: 0,
            }),
            queue.dummy.mailbox@.len() == 0,
            queue.head == usize::MAX,
            queue.tail == usize::MAX,
            queue.dummy.tid == usize::MAX,
            queue.dummy.context.sp == 0,
            queue.dummy.context.pc == 0,
            forall|i: int| 0 <= i < 32 ==> #[trigger] queue.dummy.context.regs[i] == 0,
            forall|i: int| 0 <= i < 32 ==> #[trigger] queue.dummy.context.fpregs[i] == 0,
            forall|threads: Seq<GreenThread<M>>| #[trigger] queue.wf(threads),
            forall|threads: Seq<GreenThread<M>>| #[trigger]
                queue.holds(threads, Seq::<usize>::empty()),
    {
        let dummy = GreenThread {
            context: ThreadContext::zeroed(),
            stack_top: 0,
            stack_bottom: 0,
            tid: usize::MAX,
            state: ThreadState::RUNNING,
            ticks: 0,
            next: None,
            mailbox: Vec::new(),
        };
        let queue = MsQueue { dummy, head: DUMMY, tail: DUMMY };
        assert forall|threads: Seq<GreenThread<M>>| #[trigger] queue.wf(threads) by {
            assert(queue.leads_within(threads, set![DUMMY]));
        }
        queue
    }

    /// Makes `next` the node behind `node`.
    fn set_next(&mut self, threads: &mut Vec<GreenThread<M>>, node: usize, next: Option<usize>)
        requires
            is_node(old(threads)@, node),
        ensures
            final(self).head == old(self).head,
            final(self).tail == old(self).tail,
            final(threads)@.len() == old(threads)@.len(),
            same_but_link(old(self).dummy, final(self).dummy),
            final(self).dummy.next == if node == DUMMY { next } else { old(self).dummy.next },
            forall|i: int|
                0 <= i < old(threads)@.len() ==> same_but_link(
                    old(threads)@[i],
                    #[trigger] final(threads)@[i],
                ) && final(threads)@[i].next == if i == node {
                    next
                } else {
                    old(threads)@[i].next
                },
    {
        assert(threads.len() == threads@.len());
        if node == DUMMY {
            self.dummy.next = next;
        } else {
            threads[node].next = next;
        }
    }

    /// The node behind `node`.
    fn next(&self, threads: &Vec<GreenThread<M>>, node: usize) -> (next: Option<usize>)
        requires
            is_node(threads@, node),
        ensures
            next == self.next_of(threads@, node),
    {
        if node == DUMMY {
            self.dummy.next
        } else {
            threads[node].next
        }
    }

    /// Puts thread `t` at the end of the queue.
    ///
    /// The thread must not be in the queue, nor be the one that left it last: that
    /// one is still its head. If it is, the links change as stated but do not form
    /// a row any more.
    pub fn enqueue(&mut self, threads: &mut Vec<GreenThread<M>>, t: usize)
        requires
            is_node(old(threads)@, old(self).tail),
            t < old(threads)@.len(),
        ensures
            is_node(final(threads)@, final(self).tail),
            old(self).wf(old(threads)@) ==> final(self).wf(final(threads)@),
            enqueued(*old(self), old(threads)@, t, *final(self), final(threads)@),
            final(self).head == old(self).head,
            final(self).tail == t,
            final(self).dummy == (GreenThread {
                next: if old(self).tail == usize::MAX {
                    Some(t)
                } else {
                    old(self).dummy.next
                },
                ..old(self).dummy
            }),
            final(threads)@.len() == old(threads)@.len(),
            forall|i: int|
                0 <= i < old(threads)@.len() ==> #[trigger] final(threads)@[i] == (GreenThread {
                    next: if i == old(self).tail {
                        Some(t)
                    } else if i == t {
                        None
                    } else {
                        old(threads)@[i].next
                    },
                    ..old(threads)@[i]
                }),
            forall|waiting: Seq<usize>| #[trigger]
                old(self).holds(old(threads)@, waiting) && t != old(self).head
                    && !waiting.contains(t) ==> final(self).holds(
                    final(threads)@,
                    waiting.push(t),
                ),
    {
        assert(threads.len() == threads@.len());
        threads[t].next = None;
        let prev = self.tail;
        self.tail = t;
        self.set_next(threads, prev, Some(t));
        proof {
            if old(self).wf(old(threads)@) {
                let reached = choose|reached: Set<usize>| #[trigger]
                    old(self).leads_within(old(threads)@, reached);
                let more = reached.insert(t);
                assert forall|node: usize| #[trigger] more.contains(node) implies is_node(
                    threads@,
                    node,
                ) && (self.next_of(threads@, node) matches Some(n) ==> more.contains(n)) by {
                    if node != t {
                        assert(reached.contains(node));
                    }
                }
                assert(self.leads_within(threads@, more));
            }
            assert forall|waiting: Seq<usize>| #[trigger]
                old(self).holds(old(threads)@, waiting) && t != old(self).head
                    && !waiting.contains(t) implies self.holds(threads@, waiting.push(t)) by {
                law_enqueued_thread_comes_last(
                    *old(self),
                    old(threads)@,
                    waiting,
                    t,
                    *self,
                    threads@,
                );
            }
        }
    }

    /// Takes the thread at the front out of the queue, if there is one.
    pub fn dequeue(&mut self, threads: &Vec<GreenThread<M>>) -> (t: Option<usize>)
        requires
            is_node(threads@, old(self).head),
        ensures
            old(self).wf(threads@) ==> final(self).wf(threads@) && is_node(
                threads@,
                final(self).head,
            ),
            dequeued(*old(self), threads@, t, *final(self)),
            t == (if old(self).head == usize::MAX {
                old(self).dummy.next
            } else {
                threads@[old(self).head as int].next
            }),
            t matches Some(n) ==> final(self).head == n,
            t is None ==> final(self).head == old(self).head,
            final(self).tail == old(self).tail,
            final(self).dummy == old(self).dummy,
            forall|waiting: Seq<usize>| #[trigger]
                old(self).holds(threads@, waiting) ==> match t {
                    Some(n) => {
                        &&& waiting.len() > 0
                        &&& n == waiting[0]
                        &&& final(self).holds(threads@, waiting.drop_first())
                    },
                    None => waiting.len() == 0,
                },
    {
        let next = self.next(threads, self.head);
        if let Some(n) = next {
            self.head = n;
        }
        proof {
            if old(self).wf(threads@) {
                let reached = choose|reached: Set<usize>| #[trigger]
                    old(self).leads_within(threads@, reached);
                assert(reached.contains(old(self).head));
                assert(self.leads_within(threads@, reached));
            }
            assert forall|waiting: Seq<usize>| #[trigger]
                old(self).holds(threads@, waiting) implies match next {
                Some(n) => {
                    &&& waiting.len() > 0
                    &&& n == waiting[0]
                    &&& self.holds(threads@, waiting.drop_first())
                },
                None => waiting.len() == 0,
            } by {
                law_dequeued_thread_came_first(*old(self), threads@, waiting, next, *self);
            }
        }
        next
    }
}

/// The nodes are the dummy and all the threads of the table, and no others.
pub proof fn law_nodes_are_threads_or_dummy<M>(threads: Seq<GreenThread<M>>, node: usize)
    ensures
        is_node(threads, node) <==> node == usize::MAX || node < threads.len(),
{
}

/// Putting a thread in the queue sets two links, from the old tail to the thread and
/// from the thread to nothing, and makes it the tail. The head, every other link and
/// all else of every thread stay.
pub proof fn law_enqueue_sets_two_links<M>(
    queue: MsQueue<M>,
    threads: Seq<GreenThread<M>>,
    t: usize,
    queue_after: MsQueue<M>,
    threads_after: Seq<GreenThread<M>>,
)
    requires
        threads.len() <= usize::MAX,
        t < threads.len(),
        enqueued(queue, threads, t, queue_after, threads_after),
    ensures
        queue_after.head == queue.head,
        queue_after.tail == t,
        queue_after.dummy == (GreenThread {
            next: if queue.tail == usize::MAX {
                Some(t)
            } else {
                queue.dummy.next
            },
            ..queue.dummy
        }),
        threads_after.len() == threads.len(),
        forall|i: int|
            0 <= i < threads.len() ==> #[trigger] threads_after[i] == (GreenThread {
                next: if i == queue.tail {
                    Some(t)
                } else if i == t {
                    None
                } else {
                    threads[i].next
                },
                ..threads[i]
            }),
{
    assert(queue_after.next_of(threads_after, usize::MAX) == queue_after.dummy.next);
    assert forall|i: int| 0 <= i < threads.len() implies #[trigger] threads_after[i] == (
    GreenThread {
        next: if i == queue.tail {
            Some(t)
        } else if i == t {
            None
        } else {
            threads[i].next
        },
        ..threads[i]
    }) by {
        assert(queue_after.next_of(threads_after, i as usize) == threads_after[i].next);
        assert(same_but_link(threads[i], threads_after[i]));
    }
}

/// Taking a thread out of the queue follows the link of the head, which is that of
/// the dummy or of the thread that left last, and moves nothing but the head.
pub proof fn law_dequeue_follows_the_head<M>(
    queue: MsQueue<M>,
    threads: Seq<GreenThread<M>>,
    t: Option<usize>,
    queue_after: MsQueue<M>,
)
    requires
        dequeued(queue, threads, t, queue_after),
    ensures
        t == (if queue.head == usize::MAX {
            queue.dummy.next
        } else {
            threads[queue.head as int].next
        }),
        queue_after == (MsQueue {
            head: match t {
                Some(n) => n,
                None => queue.head,
            },
            ..queue
        }),
{
}

/// A thread that is put in the queue comes last there.
pub proof fn law_enqueued_thread_comes_last<M>(
    queue: MsQueue<M>,
    threads: Seq<GreenThread<M>>,
    waiting: Seq<usize>,
    t: usize,
    queue_after: MsQueue<M>,
    threads_after: Seq<GreenThread<M>>,
)
    requires
        queue.holds(threads, waiting),
        t < threads.len(),
        t != queue.head,
        !waiting.contains(t),
        enqueued(queue, threads, t, queue_after, threads_after),
    ensures
        queue_after.holds(threads_after, waiting.push(t)),
{
    let nodes = seq![queue.head] + waiting;
    let longer = seq![queue_after.head] + waiting.push(t);
    assert(longer =~= nodes.push(t));
    assert(!nodes.contains(t)) by {
        if nodes.contains(t) {
            let i = choose|i: int| 0 <= i < nodes.len() && nodes[i] == t;
            assert(i > 0);
            assert(waiting[i - 1] == t);
        }
    }
    assert forall|i: int, j: int|
        #![trigger longer[i], longer[j]]
        0 <= i && j == i + 1 && j < longer.len() implies queue_after.next_of(
        threads_after,
        longer[i],
    ) == Some(longer[j]) by {
        if j < nodes.len() {
            assert(queue.next_of(threads, nodes[i]) == Some(nodes[j]));
            assert(nodes[i] != nodes.last());
            assert(nodes[i] != t);
            assert(i > 0 ==> nodes[i] < threads.len());
        } else {
            assert(longer[i] == queue.tail);
            assert(i > 0 ==> nodes[i] < threads.len());
        }
    }
    assert forall|i: int| 1 <= i < longer.len() implies #[trigger] longer[i]
        < threads_after.len() by {
        if i < nodes.len() {
            assert(nodes[i] < threads.len());
        }
    }
    assert(is_node(threads, t));
}

/// What is taken out of the queue is the thread that came first of those in it,
/// and nothing exactly when the queue is empty. The others keep their order.
pub proof fn law_dequeued_thread_came_first<M>(
    queue: MsQueue<M>,
    threads: Seq<GreenThread<M>>,
    waiting: Seq<usize>,
    t: Option<usize>,
    queue_after: MsQueue<M>,
)
    requires
        queue.holds(threads, waiting),
        dequeued(queue, threads, t, queue_after),
    ensures
        match t {
            Some(n) => {
                &&& waiting.len() > 0
                &&& n == waiting[0]
                &&& queue_after.holds(threads, waiting.drop_first())
            },
            None => waiting.len() == 0,
        },
{
    let nodes = seq![queue.head] + waiting;
    assert(nodes[0] == queue.head);
    if waiting.len() > 0 {
        assert(nodes[1] == waiting[0]);
        assert(queue.next_of(threads, nodes[0]) == Some(nodes[1]));
        assert(nodes[1] < threads.len());
        let rest = seq![queue_after.head] + waiting.drop_first();
        assert(rest =~= nodes.drop_first());
        assert forall|i: int, j: int|
            #![trigger rest[i], rest[j]]
            0 <= i && j == i + 1 && j < rest.len() implies queue_after.next_of(threads, rest[i])
            == Some(rest[j]) by {
            assert(rest[i] == nodes[i + 1] && rest[j] == nodes[j + 1]);
        }
        assert forall|i: int| 1 <= i < rest.len() implies #[trigger] rest[i] < threads.len() by {
            assert(rest[i] == nodes[i + 1]);
        }
    } else {
        assert(nodes.last() == queue.head);
    }
}

proof fn lemma_same_nodes<M>(
    queue: MsQueue<M>,
    threads: Seq<GreenThread<M>>,
    a: Seq<usize>,
    b: Seq<usize>,
    i: int,
)
    requires
        queue.leads_through(threads, a),
        queue.leads_through(threads, b),
        0 <= i < a.len(),
        i < b.len(),
    ensures
        a[i] == b[i],
    decreases i,
{
    if i > 0 {
        lemma_same_nodes(queue, threads, a, b, i - 1);
        assert(queue.next_of(threads, a[i - 1]) == Some(a[i]));
        assert(queue.next_of(threads, b[i - 1]) == Some(b[i]));
    }
}

/// The links fix what is in the queue and in which order.
pub proof fn law_contents_are_unique<M>(
    queue: MsQueue<M>,
    threads: Seq<GreenThread<M>>,
    waiting: Seq<usize>,
    others: Seq<usize>,
)
    requires
        queue.holds(threads, waiting),
        queue.holds(threads, others),
    ensures
        waiting == others,
{
    let a = seq![queue.head] + waiting;
    let b = seq![queue.head] + others;
    if a.len() < b.len() {
        lemma_same_nodes(queue, threads, a, b, a.len() - 1);
        assert(queue.next_of(threads, b[a.len() - 1]) == Some(b[a.len() as int]));
    } else if b.len() < a.len() {
        lemma_same_nodes(queue, threads, b, a, b.len() - 1);
        assert(queue.next_of(threads, a[b.len() - 1]) == Some(a[b.len() as int]));
    }
    assert forall|i: int| 0 <= i < waiting.len() implies waiting[i] == others[i] by {
        lemma_same_nodes(queue, threads, a, b, i + 1);
        assert(a[i + 1] == waiting[i] && b[i + 1] == others[i]);
    }
    assert(waiting =~= others);
}

/// A queue whose links form a row leads nowhere else, however the threads that are
/// not in it are linked.
pub proof fn law_queue_leads_to_its_threads<M>(
    queue: MsQueue<M>,
    threads: Seq<GreenThread<M>>,
    waiting: Seq<usize>,
)
    requires
        queue.holds(threads, waiting),
    ensures
        is_node(threads, queue.head),
        is_node(threads, queue.tail),
        queue.wf(threads),
{
    let nodes = seq![queue.head] + waiting;
    let reached = nodes.to_set();
    assert forall|node: usize| #[trigger] reached.contains(node) implies is_node(threads, node) && (
    queue.next_of(threads, node) matches Some(n) ==> reached.contains(n)) by {
        let i = choose|i: int| 0 <= i < nodes.len() && nodes[i] == node;
        assert(i > 0 ==> nodes[i] < threads.len());
        if i < nodes.len() - 1 {
            assert(queue.next_of(threads, nodes[i]) == Some(nodes[i + 1]));
            assert(nodes.contains(nodes[i + 1]));
        }
    }
    assert(nodes.contains(nodes[0]));
    assert(nodes.contains(nodes[nodes.len() - 1]));
    assert(queue.leads_within(threads, reached));
}

/// A thread that is added to the table changes nothing in the queue.
pub proof fn law_new_thread_keeps_queue<M>(
    queue: MsQueue<M>,
    threads: Seq<GreenThread<M>>,
    thread: GreenThread<M>,
    waiting: Seq<usize>,
)
    requires
        queue.holds(threads, waiting),
    ensures
        queue.holds(threads.push(thread), waiting),
{
    let nodes = seq![queue.head] + waiting;
    let more = threads.push(thread);
    assert forall|i: int| 0 <= i < nodes.len() implies #[trigger] queue.next_of(more, nodes[i])
        == queue.next_of(threads, nodes[i]) by {
        assert(i > 0 ==> nodes[i] < threads.len());
    }
}

} // verus!
