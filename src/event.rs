use vstd::prelude::*;

verus! {

/// Largest number of unconsumed events the queue holds.
pub const EVENT_QUEUE_CAPACITY: usize = 32;

/// The kinds of event that tasks can post and wait for.
#[derive(Clone, Copy, PartialEq, Eq, Structural, Debug)]
pub enum EventType {
    Timer,
    Gpio,
    Uart,
    Adc,
    Custom(u8),
}

/// A timestamped event.
#[derive(Clone, Copy, PartialEq, Eq, Structural, Debug)]
pub struct Event {
    pub event_type: EventType,
    pub data: u32,
    /// Tick count at which the event was posted.
    pub timestamp: u32,
}

impl Event {
    pub fn new(event_type: EventType, data: u32, timestamp: u32) -> (r: Event)
        ensures
            r == (Event { event_type, data, timestamp }),
    {
        Event { event_type, data, timestamp }
    }
}

/// Bounded FIFO of events shared by all tasks.
pub struct EventQueue {
    events: Vec<Event>,
}

impl View for EventQueue {
    type V = Seq<Event>;

    /// The queued events, oldest first.
    closed spec fn view(&self) -> Seq<Event> {
        self.events@
    }
}

/// Index of the first event of type `t` in `s`, or `s.len()` when there is none.
pub open spec fn first_of_type(s: Seq<Event>, t: EventType) -> int
    decreases s.len(),
{
    if s.len() == 0 {
        0
    } else if s[0].event_type == t {
        0
    } else {
        1 + first_of_type(s.drop_first(), t)
    }
}

pub proof fn lemma_first_of_type(s: Seq<Event>, t: EventType)
    ensures
        0 <= first_of_type(s, t) <= s.len(),
        forall|j: int| 0 <= j < first_of_type(s, t) ==> s[j].event_type != t,
        first_of_type(s, t) < s.len() ==> s[first_of_type(s, t)].event_type == t,
    decreases s.len(),
{
    if s.len() > 0 && s[0].event_type != t {
        lemma_first_of_type(s.drop_first(), t);
        assert forall|j: int| 0 <= j < first_of_type(s, t) implies s[j].event_type != t by {
            if j > 0 {
                assert(s[j] == s.drop_first()[j - 1]);
            }
        }
    }
}

/// Outcome of `push` on a queue holding `q`: whether `e` was taken, and the queue after.
pub open spec fn push_spec(q: Seq<Event>, e: Event) -> (bool, Seq<Event>) {
    if q.len() < EVENT_QUEUE_CAPACITY {
        (true, q.push(e))
    } else {
        (false, q)
    }
}

/// Outcome of `pop` on a queue holding `q`: the event taken, and the queue after.
pub open spec fn pop_spec(q: Seq<Event>) -> (Option<Event>, Seq<Event>) {
    if q.len() > 0 {
        (Some(q[0]), q.drop_first())
    } else {
        (None, q)
    }
}

/// The queue after `k` calls of `pop` on `q`.
pub open spec fn after_pops(q: Seq<Event>, k: nat) -> Seq<Event>
    decreases k,
{
    if k == 0 {
        q
    } else {
        pop_spec(after_pops(q, (k - 1) as nat)).1
    }
}

proof fn lemma_after_pops(q: Seq<Event>, k: nat)
    requires
        k <= q.len(),
    ensures
        after_pops(q, k) == q.subrange(k as int, q.len() as int),
    decreases k,
{
    if k == 0 {
        assert(q.subrange(0, q.len() as int) =~= q);
    } else {
        lemma_after_pops(q, (k - 1) as nat);
        assert(q.subrange(k - 1, q.len() as int).drop_first() =~= q.subrange(k as int, q.len() as int));
    }
}

/// A push on a full queue is refused and leaves it as it was; the events already queued
/// then come out by `pop` in the order they were pushed.
pub proof fn lemma_full_queue_keeps_order(q: Seq<Event>, e: Event)
    requires
        q.len() == EVENT_QUEUE_CAPACITY,
    ensures
        push_spec(q, e) == (false, q),
        forall|k: nat| k < q.len() ==> (#[trigger] pop_spec(after_pops(push_spec(q, e).1, k))).0 == Some(q[k as int]),
        after_pops(q, q.len()).len() == 0,
{
    assert forall|k: nat| k < q.len() implies (#[trigger] pop_spec(after_pops(push_spec(q, e).1, k))).0 == Some(q[k as int]) by {
        lemma_after_pops(q, k);
    }
    lemma_after_pops(q, q.len());
}

impl EventQueue {
    pub open spec fn wf(&self) -> bool {
        self@.len() <= EVENT_QUEUE_CAPACITY
    }

    pub fn new() -> (r: EventQueue)
        ensures
            r.wf(),
            r@ == Seq::<Event>::empty(),
    {
        EventQueue { events: Vec::new() }
    }

    pub fn len(&self) -> (r: usize)
        ensures
            r == self@.len(),
    {
        self.events.len()
    }

    pub fn is_full(&self) -> (r: bool)
        requires
            self.wf(),
        ensures
            r == (self@.len() == EVENT_QUEUE_CAPACITY),
    {
        self.events.len() >= EVENT_QUEUE_CAPACITY
    }

    /// Appends `event`; refuses it, leaving the queue untouched, when the queue is full.
    pub fn push(&mut self, event: Event) -> (r: bool)
        requires
            old(self).wf(),
        ensures
            final(self).wf(),
            (r, final(self)@) == push_spec(old(self)@, event),
            !r ==> *final(self) == *old(self),
    {
        if self.events.len() < EVENT_QUEUE_CAPACITY {
            self.events.push(event);
            true
        } else {
            false
        }
    }

    /// Removes and returns the oldest event.
    pub fn pop(&mut self) -> (r: Option<Event>)
        requires
            old(self).wf(),
        ensures
            final(self).wf(),
            (r, final(self)@) == pop_spec(old(self)@),
    {
        if self.events.len() > 0 {
            let e = self.events.remove(0);
            proof {
                assert(self.events@ =~= old(self)@.drop_first());
            }
            Some(e)
        } else {
            None
        }
    }

    /// Removes and returns the oldest event of type `event_type`; the events around it keep
    /// their order.
    pub fn take_first(&mut self, event_type: EventType) -> (r: Option<Event>)
        requires
            old(self).wf(),
        ensures
            final(self).wf(),
            ({
                let k = first_of_type(old(self)@, event_type);
                if k < old(self)@.len() {
                    r == Some(old(self)@[k]) && final(self)@ == old(self)@.remove(k)
                } else {
                    r is None && *final(self) == *old(self)
                }
            }),
    {
        proof {
            lemma_first_of_type(self@, event_type);
        }
        let mut i: usize = 0;
        while i < self.events.len()
            invariant
                *self == *old(self),
                self.wf(),
                0 <= i <= self@.len(),
                i <= first_of_type(self@, event_type),
                0 <= first_of_type(self@, event_type) <= self@.len(),
                forall|j: int| 0 <= j < first_of_type(self@, event_type) ==> self@[j].event_type != event_type,
                first_of_type(self@, event_type) < self@.len() ==> self@[first_of_type(self@, event_type)].event_type == event_type,
            decreases self@.len() - i,
        {
            if self.events[i].event_type == event_type {
                let e = self.events.remove(i);
                return Some(e);
            }
            i = i + 1;
        }
        None
    }
}

} // verus!
