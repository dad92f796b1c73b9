//! A last-in first-out stack of threads that is linked through the threads
//! themselves: the last register of a thread on the stack, which is not in use
//! while it is there, names the thread below it.
//!
//! Threads are named by their place in a table, which the operations take along.
use crate::context::law_view_shows_every_register;
use crate::thread::GreenThread;
use vstd::prelude::*;

verus! {

/// The register that holds the link.
pub const LINK_REGISTER: usize = 31;

/// A stack of threads, the one that came last on top.
pub struct TreiberStack {
    pub head: Option<usize>,
}

/// How a link is written in a register: 0 for none, else one more than the place.
pub open spec fn encoded(link: Option<usize>) -> int {
    match link {
        Some(t) => t + 1,
        None => 0,
    }
}

/// The link that is written in a register.
pub open spec fn decoded(register: usize) -> Option<usize> {
    if register == 0 {
        None
    } else {
        Some((register - 1) as usize)
    }
}

/// The thread below `t`.
pub open spec fn below<M>(threads: Seq<GreenThread<M>>, t: usize) -> Option<usize> {
    decoded(threads[t as int].context@.regs[LINK_REGISTER as int])
}

/// `after` is `before` but for the link, which leads to `link`.
pub open spec fn relinked<M>(
    before: GreenThread<M>,
    after: GreenThread<M>,
    link: Option<usize>,
) -> bool {
    &&& after == (GreenThread { context: after.context, ..before })
    &&& after.context@.sp == before.context@.sp
    &&& after.context@.pc == before.context@.pc
    &&& after.context@.fpregs == before.context@.fpregs
    &&& after.context@.regs == before.context@.regs.update(
        LINK_REGISTER as int,
        encoded(link) as usize,
    )
}

/// Thread `t` was put on top: its link leads to what was on top before. No other
/// thread changed.
pub open spec fn pushed<M>(
    stack: TreiberStack,
    threads: Seq<GreenThread<M>>,
    t: usize,
    stack_after: TreiberStack,
    threads_after: Seq<GreenThread<M>>,
) -> bool {
    &&& stack_after.head == Some(t)
    &&& threads_after.len() == threads.len()
    &&& relinked(threads[t as int], threads_after[t as int], stack.head)
    &&& below(threads_after, t) == stack.head
    &&& forall|i: int|
        0 <= i < threads.len() && i != t ==> #[trigger] threads_after[i] == threads[i]
}

/// `t` was on top and was taken off: what was below it is on top now.
pub open spec fn popped<M>(
    stack: TreiberStack,
    threads: Seq<GreenThread<M>>,
    t: Option<usize>,
    stack_after: TreiberStack,
) -> bool {
    &&& t == stack.head
    &&& stack_after.head == match t {
        Some(h) => below(threads, h),
        None => None,
    }
}

impl TreiberStack {
    /// What is on top, if anything, is a thread.
    pub open spec fn starts_in<M>(&self, threads: Seq<GreenThread<M>>) -> bool {
        self.head matches Some(t) ==> t < threads.len()
    }

    /// From the top the links lead to none but threads in `reached`.
    pub open spec fn leads_within<M>(
        &self,
        threads: Seq<GreenThread<M>>,
        reached: Set<usize>,
    ) -> bool {
        &&& self.head matches Some(t) ==> reached.contains(t)
        &&& forall|t: usize| #[trigger]
            reached.contains(t) ==> t < threads.len() && (below(threads, t) matches Some(n)
                ==> reached.contains(n))
    }

    /// Every link that can be reached from the top leads somewhere. Threads that
    /// cannot be reached hold in their registers what they like.
    pub open spec fn wf<M>(&self, threads: Seq<GreenThread<M>>) -> bool {
        exists|reached: Set<usize>| #[trigger] self.leads_within(threads, reached)
    }

    /// The threads `stacked` are on the stack, in this order from the top down.
    pub open spec fn holds<M>(&self, threads: Seq<GreenThread<M>>, stacked: Seq<usize>) -> bool {
        &&& stacked.no_duplicates()
        &&& forall|i: int| 0 <= i < stacked.len() ==> #[trigger] stacked[i] < threads.len()
        &&& self.head == (if stacked.len() > 0 {
            Some(stacked[0])
        } else {
            None
        })
        &&& forall|i: int, j: int|
            #![trigger stacked[i], stacked[j]]
            0 <= i && j == i + 1 && j < stacked.len() ==> below(threads, stacked[i]) == Some(
                stacked[j],
            )
        &&& stacked.len() > 0 ==> below(threads, stacked.last()) == None::<usize>
    }

    /// An empty stack.
    pub fn new() -> (stack: Self)
        ensures
            stack.head == None::<usize>,
    {
        TreiberStack { head: None }
    }

    /// Puts thread `t` on top of the stack.
    ///
    /// The thread must not be on the stack. If it is, its link changes as stated
    /// but what was below it is out of reach.
    pub fn push<M>(&mut self, threads: &mut Vec<GreenThread<M>>, t: usize)
        requires
            old(self).starts_in(old(threads)@),
            t < old(threads)@.len(),
        ensures
            final(self).starts_in(final(threads)@),
            old(self).wf(old(threads)@) ==> final(self).wf(final(threads)@),
            pushed(*old(self), old(threads)@, t, *final(self), final(threads)@),
            final(self).head == Some(t),
            final(threads)@.len() == old(threads)@.len(),
            forall|i: int|
                0 <= i < old(threads)@.len() && i != t
                    ==> #[trigger] final(threads)@[i] == old(threads)@[i],
            ({
                let before = old(threads)@[t as int];
                let after = final(threads)@[t as int];
                &&& after == (GreenThread { context: after.context, ..before })
                &&& after.context.sp == before.context.sp
                &&& after.context.pc == before.context.pc
                &&& after.context.fpregs == before.context.fpregs
                &&& after.context.regs[31] == match old(self).head {
                    Some(h) => h + 1,
                    None => 0,
                }
                &&& forall|r: int|
                    0 <= r < 31 ==> #[trigger] after.context.regs[r] == before.context.regs[r]
            }),
            forall|stacked: Seq<usize>| #[trigger]
                old(self).holds(old(threads)@, stacked) && !stacked.contains(t)
                    ==> final(self).holds(final(threads)@, seq![t] + stacked),
    {
        assert(threads.len() == threads@.len());
        let link = match self.head {
            Some(h) => h + 1,
            None => 0,
        };
        threads[t].context.regs[LINK_REGISTER] = link;
        self.head = Some(t);
        proof {
            if old(self).wf(old(threads)@) {
                let reached = choose|reached: Set<usize>| #[trigger]
                    old(self).leads_within(old(threads)@, reached);
                assert forall|n: usize| #[trigger] reached.insert(t).contains(n) implies n
                    < threads@.len() && (below(threads@, n) matches Some(b) ==> reached.insert(
                    t,
                ).contains(b)) by {
                    if n != t {
                        assert(reached.contains(n));
                    }
                }
                assert(self.leads_within(threads@, reached.insert(t)));
            }
            assert forall|stacked: Seq<usize>| #[trigger]
                old(self).holds(old(threads)@, stacked) && !stacked.contains(t) implies self.holds(
                threads@,
                seq![t] + stacked,
            ) by {
                let higher = seq![t] + stacked;
                assert forall|i: int, j: int|
                    #![trigger higher[i], higher[j]]
                    0 <= i && j == i + 1 && j < higher.len() implies below(threads@, higher[i])
                    == Some(higher[j]) by {
                    if i > 0 {
                        assert(higher[i] == stacked[i - 1] && higher[j] == stacked[j - 1]);
                        assert(stacked[i - 1] != t);
                    }
                }
                assert forall|i: int| 0 <= i < higher.len() implies #[trigger] higher[i]
                    < threads@.len() by {
                    if i > 0 {
                        assert(higher[i] == stacked[i - 1]);
                    }
                }
                assert(higher.no_duplicates()) by {
                    assert forall|i: int, j: int|
                        0 <= i < higher.len() && 0 <= j < higher.len() && i != j implies higher[i]
                        != higher[j] by {
                        if i > 0 {
                            assert(higher[i] == stacked[i - 1]);
                        }
                        if j > 0 {
                            assert(higher[j] == stacked[j - 1]);
                        }
                    }
                }
                if stacked.len() > 0 {
                    assert(higher.last() == stacked.last());
                    assert(stacked.last() != t);
                }
            }
        }
    }

    /// Takes the thread on top off the stack, if there is one.
    pub fn pop<M>(&mut self, threads: &Vec<GreenThread<M>>) -> (t: Option<usize>)
        requires
            old(self).starts_in(threads@),
        ensures
            old(self).wf(threads@) ==> final(self).wf(threads@) && final(self).starts_in(threads@),
            popped(*old(self), threads@, t, *final(self)),
            t == old(self).head,
            match t {
                Some(h) => match final(self).head {
                    Some(n) => threads@[h as int].context.regs[31] == n + 1,
                    None => threads@[h as int].context.regs[31] == 0,
                },
                None => final(self).head is None,
            },
            forall|stacked: Seq<usize>| #[trigger]
                old(self).holds(threads@, stacked) ==> match t {
                    Some(h) => {
                        &&& stacked.len() > 0
                        &&& h == stacked[0]
                        &&& final(self).holds(threads@, stacked.drop_first())
                    },
                    None => stacked.len() == 0,
                },
    {
        match self.head {
            None => None,
            Some(h) => {
                let register = threads[h].context.regs[LINK_REGISTER];
                self.head = if register == 0 {
                    None
                } else {
                    Some(register - 1)
                };
                proof {
                    assert(below(threads@, h) == self.head);
                    if old(self).wf(threads@) {
                        let reached = choose|reached: Set<usize>| #[trigger]
                            old(self).leads_within(threads@, reached);
                        assert(reached.contains(h));
                        assert(self.leads_within(threads@, reached));
                    }
                    assert forall|stacked: Seq<usize>| #[trigger]
                        old(self).holds(threads@, stacked) implies self.holds(
                        threads@,
                        stacked.drop_first(),
                    ) by {
                        let rest = stacked.drop_first();
                        assert(stacked[0] == h);
                        if rest.len() > 0 {
                            assert(below(threads@, stacked[0]) == Some(stacked[1]));
                            assert(rest[0] == stacked[1]);
                            assert(rest.last() == stacked.last());
                        }
                        assert forall|i: int, j: int|
                            #![trigger rest[i], rest[j]]
                            0 <= i && j == i + 1 && j < rest.len() implies below(threads@, rest[i])
                            == Some(rest[j]) by {
                            assert(rest[i] == stacked[i + 1] && rest[j] == stacked[j + 1]);
                        }
                    }
                }
                Some(h)
            },
        }
    }
}

/// An empty stack holds nothing.
pub proof fn law_empty_stack_holds_nothing<M>(stack: TreiberStack, threads: Seq<GreenThread<M>>)
    requires
        stack.head == None::<usize>,
    ensures
        stack.holds(threads, Seq::<usize>::empty()),
{
}

/// A stack whose links form a row leads nowhere else, whatever the threads that
/// are not on it hold in their registers.
pub proof fn law_stack_leads_to_its_threads<M>(
    stack: TreiberStack,
    threads: Seq<GreenThread<M>>,
    stacked: Seq<usize>,
)
    requires
        stack.holds(threads, stacked),
    ensures
        stack.starts_in(threads),
        stack.wf(threads),
{
    let reached = stacked.to_set();
    assert forall|t: usize| #[trigger] reached.contains(t) implies t < threads.len() && (below(
        threads,
        t,
    ) matches Some(n) ==> reached.contains(n)) by {
        let i = choose|i: int| 0 <= i < stacked.len() && stacked[i] == t;
        if i < stacked.len() - 1 {
            assert(below(threads, stacked[i]) == Some(stacked[i + 1]));
            assert(stacked.contains(stacked[i + 1]));
        }
    }
    if stacked.len() > 0 {
        assert(stacked.contains(stacked[0]));
    }
    assert(stack.leads_within(threads, reached));
}

/// A stack may start at any thread of the table, or at none.
pub proof fn law_stack_starts_anywhere<M>(stack: TreiberStack, threads: Seq<GreenThread<M>>)
    ensures
        stack.starts_in(threads) <==> match stack.head {
            Some(t) => t < threads.len(),
            None => true,
        },
{
}

/// A link reads back from a register as it was written, and two links are written
/// alike only if they lead to the same thread.
pub proof fn law_link_reads_back(link: Option<usize>, other: Option<usize>)
    requires
        link matches Some(t) ==> t < usize::MAX,
        other matches Some(t) ==> t < usize::MAX,
    ensures
        0 <= encoded(link) <= usize::MAX,
        decoded(encoded(link) as usize) == link,
        encoded(link) == encoded(other) ==> link == other,
        encoded(link) == 0 <==> link is None,
        link matches Some(t) ==> encoded(link) == t + 1,
{
}

/// A push writes the last register of the pushed thread and nothing else of any
/// thread.
pub proof fn law_push_writes_one_register<M>(
    stack: TreiberStack,
    threads: Seq<GreenThread<M>>,
    t: usize,
    stack_after: TreiberStack,
    threads_after: Seq<GreenThread<M>>,
)
    requires
        threads.len() <= usize::MAX,
        stack.starts_in(threads),
        t < threads.len(),
        pushed(stack, threads, t, stack_after, threads_after),
    ensures
        stack_after.head == Some(t),
        threads_after.len() == threads.len(),
        forall|i: int|
            0 <= i < threads.len() && i != t ==> #[trigger] threads_after[i] == threads[i],
        ({
            let before = threads[t as int];
            let after = threads_after[t as int];
            &&& after == (GreenThread { context: after.context, ..before })
            &&& after.context.sp == before.context.sp
            &&& after.context.pc == before.context.pc
            &&& after.context.fpregs@ == before.context.fpregs@
            &&& after.context.regs[31] == match stack.head {
                Some(h) => h + 1,
                None => 0,
            }
            &&& forall|r: int|
                0 <= r < 31 ==> #[trigger] after.context.regs[r] == before.context.regs[r]
        }),
{
    let before = threads[t as int].context;
    let after = threads_after[t as int].context;
    law_view_shows_every_register(before);
    law_view_shows_every_register(after);
    assert forall|r: int| 0 <= r < 31 implies #[trigger] after.regs[r] == before.regs[r] by {
        assert(after@.regs[r] == before@.regs[r]);
        assert(before@.regs[r] == before.regs[r]);
    }
    assert(after@.regs[31] == after.regs[31]);
}

/// The thread pushed last is popped first, and the stack is then as it was before
/// the push.
pub proof fn law_pop_undoes_push<M>(
    stack: TreiberStack,
    threads: Seq<GreenThread<M>>,
    t: usize,
    stack_between: TreiberStack,
    threads_between: Seq<GreenThread<M>>,
    taken: Option<usize>,
    stack_after: TreiberStack,
)
    requires
        pushed(stack, threads, t, stack_between, threads_between),
        popped(stack_between, threads_between, taken, stack_after),
    ensures
        taken == Some(t),
        stack_after.head == stack.head,
{
}

proof fn lemma_same_places<M>(
    stack: TreiberStack,
    threads: Seq<GreenThread<M>>,
    a: Seq<usize>,
    b: Seq<usize>,
    i: int,
)
    requires
        stack.holds(threads, a),
        stack.holds(threads, b),
        0 <= i < a.len(),
        i < b.len(),
    ensures
        a[i] == b[i],
    decreases i,
{
    if i > 0 {
        lemma_same_places(stack, threads, a, b, i - 1);
        assert(below(threads, a[i - 1]) == Some(a[i]));
        assert(below(threads, b[i - 1]) == Some(b[i]));
    }
}

/// The links fix what is on the stack and in which order.
pub proof fn law_contents_are_unique<M>(
    stack: TreiberStack,
    threads: Seq<GreenThread<M>>,
    stacked: Seq<usize>,
    others: Seq<usize>,
)
    requires
        stack.holds(threads, stacked),
        stack.holds(threads, others),
    ensures
        stacked == others,
{
    if 0 < stacked.len() < others.len() {
        lemma_same_places(stack, threads, stacked, others, stacked.len() - 1);
        assert(below(threads, others[stacked.len() - 1]) == Some(others[stacked.len() as int]));
    } else if 0 < others.len() < stacked.len() {
        lemma_same_places(stack, threads, others, stacked, others.len() - 1);
        assert(below(threads, stacked[others.len() - 1]) == Some(stacked[others.len() as int]));
    }
    assert forall|i: int| 0 <= i < stacked.len() implies stacked[i] == others[i] by {
        lemma_same_places(stack, threads, stacked, others, i);
    }
    assert(stacked =~= others);
}

} // verus!
