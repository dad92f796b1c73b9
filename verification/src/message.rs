//! Messages and mailboxes.
//!
//! A mailbox holds messages of several types in one row. The type of a message
//! is a number that stands for it, its tag; a receiver asks by tag and gets the
//! oldest message that has it.
use vstd::prelude::*;

verus! {

/// A message in a mailbox, with the number of the thread that sent it.
#[derive(Debug)]
pub struct ActorMessage<M> {
    pub sender: usize,
    /// Stands for the type of the payload.
    pub tag: u64,
    pub message: M,
}

impl<M> ActorMessage<M> {
    /// The number of the thread that sent this message.
    pub fn get_sender(&self) -> (sender: usize)
        ensures
            sender == self.sender,
    {
        self.sender
    }

    /// The payload, if it is of the type that `tag` stands for.
    pub fn get_message(self, tag: u64) -> (message: Option<M>)
        ensures
            message == (if self.tag == tag {
                Some(self.message)
            } else {
                None
            }),
    {
        if self.tag == tag {
            Some(self.message)
        } else {
            None
        }
    }
}

/// The messages in `mailbox` whose type is `tag`, the oldest first.
pub open spec fn of_type<M>(mailbox: Seq<ActorMessage<M>>, tag: u64) -> Seq<ActorMessage<M>> {
    mailbox.filter(|m: ActorMessage<M>| m.tag == tag)
}

/// `mailbox` holds a message whose type is `tag`.
pub open spec fn holds_type<M>(mailbox: Seq<ActorMessage<M>>, tag: u64) -> bool {
    exists|i: int| 0 <= i < mailbox.len() && #[trigger] mailbox[i].tag == tag
}

/// The oldest message in `mailbox` whose type is `tag` stands at `i`.
pub open spec fn is_oldest<M>(mailbox: Seq<ActorMessage<M>>, tag: u64, i: int) -> bool {
    &&& 0 <= i < mailbox.len()
    &&& mailbox[i].tag == tag
    &&& forall|j: int| 0 <= j < i ==> #[trigger] mailbox[j].tag != tag
}

/// `mailbox_after` is `mailbox` without its oldest message of type `tag`, which
/// is `message`; with no message of that type the mailbox is as it was.
pub open spec fn taken_from<M>(
    mailbox: Seq<ActorMessage<M>>,
    tag: u64,
    message: Option<ActorMessage<M>>,
    mailbox_after: Seq<ActorMessage<M>>,
) -> bool {
    match message {
        Some(m) => exists|i: int|
            {
                &&& #[trigger] is_oldest(mailbox, tag, i)
                &&& m == mailbox[i]
                &&& mailbox_after == mailbox.remove(i)
            },
        None => !holds_type(mailbox, tag) && mailbox_after == mailbox,
    }
}

/// Takes the oldest message of type `tag` out of `mailbox`.
pub fn take_oldest<M>(mailbox: &mut Vec<ActorMessage<M>>, tag: u64) -> (message: Option<
    ActorMessage<M>,
>)
    ensures
        taken_from(old(mailbox)@, tag, message, final(mailbox)@),
        match message {
            Some(m) => {
                &&& m.tag == tag
                &&& exists|i: int|
                    {
                        &&& 0 <= i < old(mailbox)@.len()
                        &&& #[trigger] old(mailbox)@[i] == m
                        &&& forall|j: int| 0 <= j < i ==> (#[trigger] old(mailbox)@[j]).tag != tag
                        &&& final(mailbox)@ == old(mailbox)@.remove(i)
                    }
            },
            None => {
                &&& forall|j: int|
                    0 <= j < old(mailbox)@.len() ==> (#[trigger] old(mailbox)@[j]).tag != tag
                &&& final(mailbox)@ == old(mailbox)@
            },
        },
{
    let mut i: usize = 0;
    while i < mailbox.len()
        invariant
            i <= mailbox.len(),
            mailbox@ == old(mailbox)@,
            forall|j: int| 0 <= j < i ==> #[trigger] mailbox@[j].tag != tag,
        decreases mailbox.len() - i,
    {
        if mailbox[i].tag == tag {
            assert(is_oldest(old(mailbox)@, tag, i as int));
            return Some(mailbox.remove(i));
        }
        i += 1;
    }
    None
}

proof fn lemma_filter_snoc<M>(mailbox: Seq<ActorMessage<M>>, m: ActorMessage<M>, tag: u64)
    ensures
        of_type(mailbox.push(m), tag) == (if m.tag == tag {
            of_type(mailbox, tag).push(m)
        } else {
            of_type(mailbox, tag)
        }),
{
    reveal(Seq::filter);
    assert(mailbox.push(m).drop_last() =~= mailbox);
}

/// A message that is sent comes last among those of its type, and leaves the
/// messages of every other type as they were.
pub proof fn law_sent_message_comes_last<M>(
    mailbox: Seq<ActorMessage<M>>,
    m: ActorMessage<M>,
    tag: u64,
)
    ensures
        of_type(mailbox.push(m), m.tag) == of_type(mailbox, m.tag).push(m),
        tag != m.tag ==> of_type(mailbox.push(m), tag) == of_type(mailbox, tag),
{
    lemma_filter_snoc(mailbox, m, m.tag);
    lemma_filter_snoc(mailbox, m, tag);
}

proof fn lemma_oldest_is_first<M>(
    mailbox: Seq<ActorMessage<M>>,
    tag: u64,
    i: int,
    other: u64,
)
    requires
        is_oldest(mailbox, tag, i),
    ensures
        of_type(mailbox, tag).len() > 0,
        of_type(mailbox, tag)[0] == mailbox[i],
        of_type(mailbox.remove(i), tag) == of_type(mailbox, tag).drop_first(),
        other != tag ==> of_type(mailbox.remove(i), other) == of_type(mailbox, other),
    decreases mailbox.len(),
{
    let front = mailbox.drop_last();
    let m = mailbox.last();
    assert(front.push(m) =~= mailbox);
    lemma_filter_snoc(front, m, tag);
    lemma_filter_snoc(front, m, other);
    if i == mailbox.len() - 1 {
        lemma_no_match_is_empty(front, tag);
        assert(mailbox.remove(i) =~= front);
        assert(of_type(mailbox, tag) =~= seq![m]);
        assert(of_type(mailbox, tag).drop_first() =~= Seq::<ActorMessage<M>>::empty());
    } else {
        assert(is_oldest(front, tag, i));
        lemma_oldest_is_first(front, tag, i, other);
        assert(mailbox.remove(i) =~= front.remove(i).push(m));
        lemma_filter_snoc(front.remove(i), m, tag);
        lemma_filter_snoc(front.remove(i), m, other);
        assert(of_type(front, tag).push(m).drop_first() =~= of_type(front, tag).drop_first().push(
            m,
        ));
    }
}

proof fn lemma_no_match_is_empty<M>(mailbox: Seq<ActorMessage<M>>, tag: u64)
    requires
        !holds_type(mailbox, tag),
    ensures
        of_type(mailbox, tag).len() == 0,
    decreases mailbox.len(),
{
    reveal(Seq::filter);
    if mailbox.len() > 0 {
        let front = mailbox.drop_last();
        assert forall|j: int| 0 <= j < front.len() implies #[trigger] front[j].tag != tag by {
            assert(mailbox[j].tag != tag);
        }
        assert(mailbox[mailbox.len() - 1].tag != tag);
        lemma_no_match_is_empty(front, tag);
    }
}

/// What is taken out of a mailbox by type is the first message sent of that type
/// and not taken yet; the rest of that type, and every message of another type,
/// stays in the order in which it was sent. Nothing comes out exactly when no
/// message of the type is left.
pub proof fn law_taken_message_is_the_oldest<M>(
    mailbox: Seq<ActorMessage<M>>,
    tag: u64,
    message: Option<ActorMessage<M>>,
    mailbox_after: Seq<ActorMessage<M>>,
    other: u64,
)
    requires
        taken_from(mailbox, tag, message, mailbox_after),
    ensures
        message is None <==> of_type(mailbox, tag).len() == 0,
        message matches Some(m) ==> {
            &&& m.tag == tag
            &&& m == of_type(mailbox, tag)[0]
            &&& of_type(mailbox_after, tag) == of_type(mailbox, tag).drop_first()
        },
        other != tag ==> of_type(mailbox_after, other) == of_type(mailbox, other),
{
    match message {
        Some(m) => {
            let i = choose|i: int|
                {
                    &&& #[trigger] is_oldest(mailbox, tag, i)
                    &&& m == mailbox[i]
                    &&& mailbox_after == mailbox.remove(i)
                };
            lemma_oldest_is_first(mailbox, tag, i, other);
        },
        None => {
            lemma_no_match_is_empty(mailbox, tag);
        },
    }
}

/// Taking by type splits a mailbox at the message that comes out: nothing before
/// it has the type, and what is left is what stood before it followed by what
/// stood behind it. Where nothing comes out, no message has the type, and the
/// mailbox is untouched.
pub proof fn law_taking_splits_the_mailbox<M>(
    mailbox: Seq<ActorMessage<M>>,
    tag: u64,
    message: Option<ActorMessage<M>>,
    mailbox_after: Seq<ActorMessage<M>>,
)
    requires
        taken_from(mailbox, tag, message, mailbox_after),
    ensures
        message matches Some(m) ==> {
            &&& m.tag == tag
            &&& mailbox_after.len() + 1 == mailbox.len()
            &&& exists|i: int|
                {
                    &&& 0 <= i < mailbox.len()
                    &&& mailbox == #[trigger] mailbox_after.take(i).push(m) + mailbox_after.skip(i)
                    &&& forall|j: int|
                        0 <= j < i ==> (#[trigger] mailbox_after[j]).tag != tag
                }
        },
        message is None ==> {
            &&& mailbox_after == mailbox
            &&& forall|j: int| 0 <= j < mailbox.len() ==> (#[trigger] mailbox[j]).tag != tag
        },
{
    match message {
        Some(m) => {
            let i = choose|i: int|
                {
                    &&& #[trigger] is_oldest(mailbox, tag, i)
                    &&& m == mailbox[i]
                    &&& mailbox_after == mailbox.remove(i)
                };
            assert(mailbox =~= mailbox_after.take(i).push(m) + mailbox_after.skip(i));
            assert forall|j: int| 0 <= j < i implies (#[trigger] mailbox_after[j]).tag != tag by {
                assert(mailbox[j].tag != tag);
            }
        },
        None => {
            assert forall|j: int| 0 <= j < mailbox.len() implies (
            #[trigger] mailbox[j]).tag != tag by {
                assert(!(mailbox[j].tag == tag));
            }
        },
    }
}

/// A message is received as it was sent: where no other message of its type is
/// in the mailbox, the next one taken by that type is this one, and the mailbox
/// is then as it was before the message came.
pub proof fn law_received_as_sent<M>(
    mailbox: Seq<ActorMessage<M>>,
    m: ActorMessage<M>,
    received: Option<ActorMessage<M>>,
    mailbox_after: Seq<ActorMessage<M>>,
)
    requires
        !holds_type(mailbox, m.tag),
        taken_from(mailbox.push(m), m.tag, received, mailbox_after),
    ensures
        received == Some(m),
        mailbox_after == mailbox,
{
    let full = mailbox.push(m);
    assert(full[mailbox.len() as int].tag == m.tag);
    assert forall|i: int| is_oldest(full, m.tag, i) implies i == mailbox.len() by {
        if i < mailbox.len() {
            assert(mailbox[i].tag == m.tag);
        }
    }
    assert(full.remove(mailbox.len() as int) =~= mailbox);
}

} // verus!
