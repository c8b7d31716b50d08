use vstd::prelude::*;
use std::collections::VecDeque;

verus! {

/// The queue after one message was received from its front.
pub open spec fn after_receive<T>(q: Seq<T>) -> Seq<T> {
    q.drop_first()
}

/// The queue after `n` messages were received from its front, one at a time.
pub open spec fn after_receives<T>(q: Seq<T>, n: nat) -> Seq<T>
    decreases n,
{
    if n == 0 || q.len() == 0 {
        q
    } else {
        after_receives(after_receive(q), (n - 1) as nat)
    }
}

/// A component's single-consumer inbound queue. A bounded mailbox accepts a
/// message only while it holds fewer than `capacity` messages; a sender that
/// is refused must wait for the consumer to drain it, never drop the message.
pub struct Mailbox<T> {
    queue: VecDeque<T>,
    capacity: Option<usize>,
}

impl<T> View for Mailbox<T> {
    type V = Seq<T>;

    closed spec fn view(&self) -> Seq<T> {
        self.queue@
    }
}

impl<T> Mailbox<T> {
    /// The configured bound, if there is one.
    pub closed spec fn bound(&self) -> Option<usize> {
        self.capacity
    }

    /// Whether a send would be refused now.
    pub open spec fn full(&self) -> bool {
        match self.bound() {
            Some(c) => self@.len() >= c,
            None => false,
        }
    }

    /// An empty mailbox that holds at most `capacity` messages.
    pub fn bounded(capacity: usize) -> (r: Mailbox<T>)
        ensures
            r@.len() == 0,
            r.bound() == Some(capacity),
    {
        Mailbox { queue: VecDeque::new(), capacity: Some(capacity) }
    }

    /// An empty mailbox without bound.
    pub fn unbounded() -> (r: Mailbox<T>)
        ensures
            r@.len() == 0,
            r.bound() == None::<usize>,
    {
        Mailbox { queue: VecDeque::new(), capacity: None }
    }

    pub fn len(&self) -> (r: usize)
        ensures
            r == self@.len(),
    {
        self.queue.len()
    }

    pub fn is_empty(&self) -> (r: bool)
        ensures
            r == (self@.len() == 0),
    {
        self.queue.len() == 0
    }

    pub fn capacity(&self) -> (r: Option<usize>)
        ensures
            r == self.bound(),
    {
        self.capacity
    }

    pub fn is_full(&self) -> (r: bool)
        ensures
            r == self.full(),
    {
        match self.capacity {
            Some(c) => self.queue.len() >= c,
            None => false,
        }
    }

    /// Appends `msg` at the back, unless the mailbox is full: then the
    /// message is handed back untouched and the sender has to suspend.
    pub fn try_send(&mut self, msg: T) -> (r: Result<(), T>)
        ensures
            final(self).bound() == old(self).bound(),
            r is Ok <==> !old(self).full(),
            r is Ok ==> final(self)@ == old(self)@.push(msg),
            r matches Err(m) ==> m == msg && final(self)@ == old(self)@,
    {
        if self.is_full() {
            Err(msg)
        } else {
            self.queue.push_back(msg);
            Ok(())
        }
    }

    /// Takes the oldest message, if there is one.
    pub fn recv(&mut self) -> (r: Option<T>)
        ensures
            final(self).bound() == old(self).bound(),
            r is Some <==> old(self)@.len() > 0,
            r matches Some(m) ==> m == old(self)@[0],
            final(self)@ == after_receive(old(self)@) || old(self)@.len() == 0,
            old(self)@.len() == 0 ==> final(self)@ == old(self)@,
    {
        self.queue.pop_front()
    }
}

/// Messages from one sender come out in the order they were sent: once the
/// messages queued before them are received, `a` is next and `b` after it.
pub proof fn lemma_delivery_in_send_order<T>(q: Seq<T>, a: T, b: T)
    ensures
        after_receives(q.push(a).push(b), q.len()) == seq![a, b],
        after_receives(q.push(a).push(b), q.len())[0] == a,
        after_receive(after_receives(q.push(a).push(b), q.len()))[0] == b,
    decreases q.len(),
{
    if q.len() == 0 {
        assert(q.push(a).push(b) =~= seq![a, b]);
    } else {
        lemma_delivery_in_send_order(q.drop_first(), a, b);
        assert(after_receive(q.push(a).push(b)) =~= q.drop_first().push(a).push(b));
    }
}

} // verus!
