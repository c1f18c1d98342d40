//! A broadcast channel: every value produced goes to every consumer (or to
//! all but one).
use vstd::prelude::*;
use std::sync::mpsc::{Receiver, RecvError, Sender, TryRecvError};
use std::sync::Arc;

verus! {

pub type Id = usize;

#[verifier::external_type_specification]
#[verifier::external_body]
#[verifier::reject_recursive_types(T)]
pub struct ExSender<T>(Sender<T>);

#[verifier::external_type_specification]
#[verifier::external_body]
#[verifier::reject_recursive_types(T)]
pub struct ExReceiver<T>(Receiver<T>);

#[verifier::external_type_specification]
#[verifier::external_body]
pub struct ExRecvError(RecvError);

#[verifier::external_type_specification]
#[verifier::external_body]
pub struct ExTryRecvError(TryRecvError);

/// A new channel (`mpsc::channel`): what the sender sends, the receiver
/// receives, in order.
#[verifier::external_body]
fn open_channel<T>() -> (Sender<T>, Receiver<T>) {
    std::sync::mpsc::channel()
}

/// Sends `data` (`Sender::send`); a send to a dropped receiver is lost.
#[verifier::external_body]
fn send_to<T>(sender: &Sender<T>, data: T) {
    let _ = sender.send(data);
}

/// Waits for the next value (`Receiver::recv`); an error when every
/// sender is gone.
#[verifier::external_body]
fn receive<T>(receiver: &Receiver<T>) -> Result<T, RecvError> {
    receiver.recv()
}

/// The next value if one is waiting (`Receiver::try_recv`).
#[verifier::external_body]
fn try_receive<T>(receiver: &Receiver<T>) -> Result<T, TryRecvError> {
    receiver.try_recv()
}

/// The consumers of a broadcast, each with its id.
#[verifier::reject_recursive_types(T)]
pub struct Channel<T: Clone> {
    channels: Vec<(Id, Sender<T>)>,
}

/// The receiving end of one consumer.
#[verifier::reject_recursive_types(T)]
pub struct Consumer<T: Clone> {
    id: Id,
    receiver: Receiver<T>,
}

/// The producing end of a broadcast.
#[verifier::reject_recursive_types(T)]
pub struct Producer<T: Clone> {
    channel: Arc<Channel<T>>,
}

/// Whether consumer ids run 1, 2, 3, ... in the order the consumers were
/// made (so no two are alike).
pub open spec fn ids_in_order(ids: Seq<Id>) -> bool {
    forall|i: int| 0 <= i < ids.len() ==> #[trigger] ids[i] == i + 1
}

/// Ids in order are pairwise distinct.
pub proof fn lemma_ordered_ids_distinct(ids: Seq<Id>, i: int, j: int)
    requires
        ids_in_order(ids),
        0 <= i < j < ids.len(),
    ensures
        ids[i] != ids[j],
{
    assert(ids[i] == i + 1 && ids[j] == j + 1);
}

/// The positions, in creation order, of the consumers a value goes to:
/// every consumer but the one numbered `skip`.
pub open spec fn recipient_positions(ids: Seq<Id>, skip: Option<Id>) -> Seq<usize>
    decreases ids.len(),
{
    if ids.len() == 0 {
        Seq::empty()
    } else {
        let r = recipient_positions(ids.drop_last(), skip);
        if skip == Some(ids.last()) {
            r
        } else {
            r.push((ids.len() - 1) as usize)
        }
    }
}

/// A value goes to each consumer whose number is not `skip` exactly once,
/// in the order the consumers were made, and to no other.
pub proof fn lemma_recipients(ids: Seq<Id>, skip: Option<Id>)
    requires
        ids.len() <= usize::MAX,
    ensures
        forall|k: int|
            0 <= k < recipient_positions(ids, skip).len() ==> #[trigger] recipient_positions(ids, skip)[k]
                < ids.len() && skip != Some(ids[recipient_positions(ids, skip)[k] as int]),
        forall|k: int, l: int|
            0 <= k < l < recipient_positions(ids, skip).len() ==> recipient_positions(ids, skip)[k]
                < recipient_positions(ids, skip)[l],
        forall|p: int|
            0 <= p < ids.len() && skip != Some(#[trigger] ids[p]) ==> recipient_positions(ids, skip).contains(
                p as usize,
            ),
    decreases ids.len(),
{
    if ids.len() > 0 {
        let rest = ids.drop_last();
        lemma_recipients(rest, skip);
        let r0 = recipient_positions(rest, skip);
        let r = recipient_positions(ids, skip);
        let pushed = skip != Some(ids.last());
        if pushed {
            assert(r =~= r0.push((ids.len() - 1) as usize));
        } else {
            assert(r == r0);
        }
        assert forall|k: int| 0 <= k < r.len() implies #[trigger] r[k] < ids.len() && skip != Some(
            ids[r[k] as int],
        ) by {
            if k < r0.len() {
                assert(r[k] == r0[k]);
                assert(r0[k] < rest.len());
                assert(rest[r0[k] as int] == ids[r0[k] as int]);
            } else {
                assert(pushed && r[k] == (ids.len() - 1) as usize);
            }
        }
        assert forall|k: int, l: int| 0 <= k < l < r.len() implies r[k] < r[l] by {
            assert(r[k] == r0[k]);
            assert(r0[k] < rest.len());
            if l < r0.len() {
                assert(r[l] == r0[l]);
            }
        }
        assert forall|p: int| 0 <= p < ids.len() && skip != Some(#[trigger] ids[p]) implies r.contains(
            p as usize,
        ) by {
            if p < ids.len() - 1 {
                assert(rest[p] == ids[p]);
                assert(r0.contains(p as usize));
                let j = choose|j: int| 0 <= j < r0.len() && r0[j] == p as usize;
                assert(r[j] == r0[j]);
            } else {
                assert(r[r.len() - 1] == p as usize);
            }
        }
    }
}

/// With consumers numbered in order, a value sent to all reaches every
/// consumer once, in creation order; one sent without loopback to the
/// consumer numbered `id` reaches all the others and not that one.
pub proof fn lemma_ordered_recipients(ids: Seq<Id>, id: Id)
    requires
        ids_in_order(ids),
        ids.len() <= usize::MAX,
    ensures
        recipient_positions(ids, None) == Seq::new(ids.len(), |p: int| p as usize),
        forall|k: int|
            0 <= k < recipient_positions(ids, Some(id)).len() ==> ids[#[trigger] recipient_positions(
                ids,
                Some(id),
            )[k] as int] != id,
        forall|p: int|
            0 <= p < ids.len() && p + 1 != id ==> #[trigger] recipient_positions(ids, Some(id)).contains(p as usize),
    decreases ids.len(),
{
    lemma_recipients(ids, Some(id));
    lemma_all_recipients(ids);
    assert forall|p: int| 0 <= p < ids.len() && p + 1 != id implies #[trigger] recipient_positions(ids, Some(id)).contains(
        p as usize,
    ) by {
        assert(ids[p] == p + 1);
    }
}

proof fn lemma_all_recipients(ids: Seq<Id>)
    requires
        ids.len() <= usize::MAX,
    ensures
        recipient_positions(ids, None) == Seq::new(ids.len(), |p: int| p as usize),
    decreases ids.len(),
{
    if ids.len() > 0 {
        lemma_all_recipients(ids.drop_last());
    }
    assert(recipient_positions(ids, None) =~= Seq::new(ids.len(), |p: int| p as usize));
}

impl<T: Clone> Channel<T> {
    /// The positions of the consumers a value goes to (see
    /// `recipient_positions`).
    pub fn recipients(&self, skip: Option<Id>) -> (r: Vec<usize>)
        ensures
            r@ == recipient_positions(self.ids(), skip),
            forall|k: int| 0 <= k < r@.len() ==> #[trigger] r@[k] < self.ids().len(),
    {
        let mut r: Vec<usize> = Vec::new();
        let mut i: usize = 0;
        while i < self.channels.len()
            invariant
                i <= self.channels@.len(),
                self.ids().len() == self.channels@.len(),
                r@ == recipient_positions(self.ids().take(i as int), skip),
                forall|k: int| 0 <= k < r@.len() ==> #[trigger] r@[k] < i,
            decreases self.channels.len() - i,
        {
            let ghost t = self.ids().take(i + 1);
            assert(t.drop_last() =~= self.ids().take(i as int));
            assert(t.last() == self.channels@[i as int].0);
            let id = self.channels[i].0;
            let skipped = match skip {
                Some(x) => x == id,
                None => false,
            };
            if !skipped {
                r.push(i);
            }
            i += 1;
        }
        assert(self.ids().take(self.channels@.len() as int) =~= self.ids());
        r
    }

    /// The ids of the consumers, in the order they were made.
    pub closed spec fn ids(&self) -> Seq<Id> {
        self.channels@.map_values(|c: (Id, Sender<T>)| c.0)
    }

    /// A broadcast with no consumer.
    pub fn new() -> (r: Self)
        ensures
            r.ids() == Seq::<Id>::empty(),
            ids_in_order(r.ids()),
    {
        let r = Channel { channels: Vec::new() };
        assert(r.ids() =~= Seq::<Id>::empty());
        r
    }

    /// A new consumer, numbered after the existing ones from 1 on.
    pub fn new_consumer(&mut self) -> (r: Consumer<T>)
        requires
            old(self).ids().len() < usize::MAX,
        ensures
            r.number() == old(self).ids().len() + 1,
            final(self).ids() == old(self).ids().push(r.number()),
            ids_in_order(old(self).ids()) ==> ids_in_order(final(self).ids()),
    {
        let id = self.channels.len() + 1;
        let (sender, receiver) = open_channel();
        self.channels.push((id, sender));
        assert(self.ids() =~= old(self).ids().push(id));
        Consumer { id, receiver }
    }

    /// The producing end of this broadcast.
    pub fn new_producer(channel: Arc<Self>) -> (r: Producer<T>)
        ensures
            r.channel_ids() == channel.ids(),
    {
        Producer { channel }
    }

    /// Sends a copy of `data` to every consumer except the one numbered
    /// `skip` (none when `skip` is `None`).
    fn send_data(&self, data: T, skip: Option<Id>) {
        let targets = self.recipients(skip);
        let mut k: usize = 0;
        while k < targets.len()
            invariant
                targets@ == recipient_positions(self.ids(), skip),
                self.ids().len() == self.channels@.len(),
                forall|j: int| 0 <= j < targets@.len() ==> #[trigger] targets@[j] < self.ids().len(),
            decreases targets.len() - k,
        {
            let i = targets[k];
            send_to(&self.channels[i].1, data.clone());
            k += 1;
        }
    }
}

impl<T: Clone> Consumer<T> {
    pub closed spec fn number(&self) -> Id {
        self.id
    }

    /// This consumer's number.
    pub fn id(&self) -> (r: Id)
        ensures
            r == self.number(),
    {
        self.id
    }

    /// Waits for the next value.
    pub fn recv(&self) -> Result<T, RecvError> {
        receive(&self.receiver)
    }

    /// The next value, if one is waiting.
    pub fn try_recv(&self) -> Result<T, TryRecvError> {
        try_receive(&self.receiver)
    }
}

impl<T: Clone> Producer<T> {
    pub closed spec fn channel_ids(&self) -> Seq<Id> {
        self.channel.ids()
    }

    /// The positions of the consumers `produce` (with `skip` `None`) and
    /// `produce_without_loopback` (with the skipped number) send to.
    pub fn recipients(&self, skip: Option<Id>) -> (r: Vec<usize>)
        ensures
            r@ == recipient_positions(self.channel_ids(), skip),
    {
        self.channel.recipients(skip)
    }

    /// Sends `data` to every consumer, one copy each, in the order the
    /// consumers were made (see `recipients`).
    pub fn produce(&self, data: T) {
        self.channel.send_data(data, None)
    }

    /// Sends `data` to every consumer but the one numbered `id`, one copy
    /// each, in the order the consumers were made (see `recipients`).
    pub fn produce_without_loopback(&self, data: T, id: Id) {
        self.channel.send_data(data, Some(id))
    }
}

} // verus!
