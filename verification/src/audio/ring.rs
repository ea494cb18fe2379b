//! The queue between two threads: one pushes, one pops, and their steps fall in
//! any order.
//!
//! A push looks at the consumer's index, writes a slot, then publishes the
//! producer's index; a pop looks at the producer's index, reads a slot, then
//! releases it by moving the consumer's index. Each of these is one step.

use super::event::AudioEvent;
use super::queue::{
    decoded, distance, encoded, law_decode_inverts_encode, lemma_apart, lemma_word, readable,
    writable, QUEUE_CAPACITY,
};
use vstd::prelude::*;

verus! {

/// Where the producer is in a push.
pub enum Producer {
    Idle,
    /// It has found room for an event.
    Writing { ev: AudioEvent },
    /// The event is in its slot.
    Publishing { ev: AudioEvent },
}

/// Where the consumer is in a pop.
pub enum Consumer {
    Idle,
    /// It has found an event.
    Reading,
    /// It has read this word.
    Releasing { bits: u64 },
}

/// A ring that two threads share, and what has become of it.
pub struct Ring {
    pub slots: Seq<u64>,
    /// Next slot the consumer will read.
    pub head: usize,
    /// Next slot the producer will write.
    pub tail: usize,
    pub producer: Producer,
    pub consumer: Consumer,
    /// The events of the pushes that were not refused, in order.
    pub accepted: Seq<AudioEvent>,
    /// The events that pops returned, in order.
    pub taken: Seq<AudioEvent>,
}

/// A step of one of the threads.
pub enum Step {
    /// The producer starts a push: it looks for room, and gives up where there
    /// is none.
    LookForRoom { ev: AudioEvent },
    Write,
    Publish,
    /// The consumer starts a pop: it looks for an event, and gives up where
    /// there is none.
    LookForEvent,
    Read,
    Release,
}

/// An index, moved on by one; it wraps around at the end of `usize`.
pub open spec fn moved(i: usize) -> usize {
    if i == usize::MAX {
        0
    } else {
        (i + 1) as usize
    }
}

impl Ring {
    /// A ring that nobody has used.
    pub open spec fn fresh() -> Ring {
        Ring {
            slots: Seq::new(QUEUE_CAPACITY as nat, |i: int| 0u64),
            head: 0,
            tail: 0,
            producer: Producer::Idle,
            consumer: Consumer::Idle,
            accepted: Seq::empty(),
            taken: Seq::empty(),
        }
    }

    /// The ring after a step. A thread that is elsewhere in its work does not
    /// take the step.
    pub open spec fn after(self, step: Step) -> Ring {
        match (step, self.producer, self.consumer) {
            (Step::LookForRoom { ev }, Producer::Idle, _) => if writable(
                self.head,
                self.tail,
            ) is Some {
                Ring { producer: Producer::Writing { ev }, ..self }
            } else {
                self
            },
            (Step::Write, Producer::Writing { ev }, _) => Ring {
                slots: self.slots.update(self.tail as int % QUEUE_CAPACITY as int, encoded(ev)),
                producer: Producer::Publishing { ev },
                ..self
            },
            (Step::Publish, Producer::Publishing { ev }, _) => Ring {
                tail: moved(self.tail),
                producer: Producer::Idle,
                accepted: self.accepted.push(ev),
                ..self
            },
            (Step::LookForEvent, _, Consumer::Idle) => if readable(
                self.head,
                self.tail,
            ) is Some {
                Ring { consumer: Consumer::Reading, ..self }
            } else {
                self
            },
            (Step::Read, _, Consumer::Reading) => Ring {
                consumer: Consumer::Releasing {
                    bits: self.slots[self.head as int % QUEUE_CAPACITY as int],
                },
                ..self
            },
            (Step::Release, _, Consumer::Releasing { bits }) => Ring {
                head: moved(self.head),
                consumer: Consumer::Idle,
                taken: match decoded(bits) {
                    Some(ev) => self.taken.push(ev),
                    None => self.taken,
                },
                ..self
            },
            _ => self,
        }
    }

    /// How many events are in the ring.
    pub open spec fn held(self) -> int {
        self.accepted.len() - self.taken.len()
    }

    /// What every step keeps.
    pub open spec fn inv(self) -> bool {
        let (n, t) = (self.taken.len() as int, self.accepted.len() as int);
        &&& self.slots.len() == QUEUE_CAPACITY
        &&& 0 <= self.held() <= QUEUE_CAPACITY
        &&& distance(self.head, self.tail) == self.held()
        &&& self.head as int % 256 == n % 256
        &&& self.tail as int % 256 == t % 256
        &&& self.taken == self.accepted.take(n)
        &&& forall|k: int|
            n <= k < t ==> decoded(#[trigger] self.slots[k % 256]) == Some(self.accepted[k])
        &&& match self.producer {
            Producer::Idle => true,
            Producer::Writing { ev } => self.held() < QUEUE_CAPACITY,
            Producer::Publishing { ev } => {
                &&& self.held() < QUEUE_CAPACITY
                &&& decoded(self.slots[t % 256]) == Some(ev)
            },
        }
        &&& match self.consumer {
            Consumer::Idle => true,
            Consumer::Reading => self.held() > 0,
            Consumer::Releasing { bits } => {
                &&& self.held() > 0
                &&& decoded(bits) == Some(self.accepted[n])
            },
        }
    }
}

/// A ring that nobody has used, after these steps.
pub open spec fn interleaved(steps: Seq<Step>) -> Ring
    decreases steps.len(),
{
    if steps.len() == 0 {
        Ring::fresh()
    } else {
        interleaved(steps.drop_last()).after(steps.last())
    }
}

proof fn lemma_write(r: Ring)
    requires
        r.inv(),
        r.producer is Writing,
    ensures
        r.after(Step::Write).inv(),
{
    let ev = r.producer->Writing_ev;
    let next = r.after(Step::Write);
    let (n, t) = (r.taken.len() as int, r.accepted.len() as int);
    law_decode_inverts_encode(ev);
    assert forall|k: int| n <= k < t implies decoded(#[trigger] next.slots[k % 256]) == Some(
        next.accepted[k],
    ) by {
        lemma_apart(k, t - k);
        assert(next.slots[k % 256] == r.slots[k % 256]);
    }
    if let Consumer::Releasing { bits } = r.consumer {
        assert(decoded(bits) == Some(next.accepted[n]));
    }
}

proof fn lemma_publish(r: Ring)
    requires
        r.inv(),
        r.producer is Publishing,
    ensures
        r.after(Step::Publish).inv(),
{
    let next = r.after(Step::Publish);
    let (n, t) = (r.taken.len() as int, r.accepted.len() as int);
    lemma_word();
    assert(next.tail as int % 256 == (t + 1) % 256);
    assert(distance(next.head, next.tail) == next.held());
    assert(next.taken =~= next.accepted.take(n));
    assert forall|k: int| n <= k < t + 1 implies decoded(#[trigger] next.slots[k % 256]) == Some(
        next.accepted[k],
    ) by {
        if k < t {
            assert(decoded(r.slots[k % 256]) == Some(r.accepted[k]));
        }
    }
}

proof fn lemma_release(r: Ring)
    requires
        r.inv(),
        r.consumer is Releasing,
    ensures
        r.after(Step::Release).inv(),
        r.after(Step::Release).taken.len() == r.taken.len() + 1,
{
    let next = r.after(Step::Release);
    let n = r.taken.len() as int;
    lemma_word();
    assert(next.head as int % 256 == (n + 1) % 256);
    assert(distance(next.head, next.tail) == next.held());
    assert(next.taken =~= next.accepted.take(n + 1));
}

proof fn lemma_step(r: Ring, step: Step)
    requires
        r.inv(),
    ensures
        r.after(step).inv(),
{
    match (step, r.producer, r.consumer) {
        (Step::Write, Producer::Writing { ev }, _) => {
            lemma_write(r);
        },
        (Step::Publish, Producer::Publishing { ev }, _) => {
            lemma_publish(r);
        },
        (Step::Read, _, Consumer::Reading) => {
            let n = r.taken.len() as int;
            assert(decoded(r.slots[n % 256]) == Some(r.accepted[n]));
        },
        (Step::Release, _, Consumer::Releasing { bits }) => {
            lemma_release(r);
        },
        _ => {},
    }
}

/// However the steps of a producer and a consumer fall, the ring keeps its
/// invariant.
proof fn lemma_interleaved(steps: Seq<Step>)
    ensures
        interleaved(steps).inv(),
    decreases steps.len(),
{
    if steps.len() == 0 {
        assert(Ring::fresh().taken =~= Ring::fresh().accepted.take(0));
    } else {
        lemma_interleaved(steps.drop_last());
        lemma_step(interleaved(steps.drop_last()), steps.last());
    }
}

/// A producer and a consumer agree, however their steps fall: what was popped
/// is the front of what was accepted, in the same order, so nothing accepted is
/// lost, repeated or reordered. A pop that starts finds an event exactly where
/// one was accepted and not popped yet, and a push that starts finds room
/// exactly where fewer are waiting than the ring holds.
pub proof fn law_a_producer_and_a_consumer_agree(steps: Seq<Step>, ev: AudioEvent)
    ensures
        ({
            let r = interleaved(steps);
            &&& r.taken.is_prefix_of(r.accepted)
            &&& r.held() <= QUEUE_CAPACITY
            &&& r.consumer is Idle ==> (r.after(Step::LookForEvent).consumer is Idle <==> r.taken
                == r.accepted)
            &&& r.producer is Idle ==> (r.after(Step::LookForRoom { ev }).producer is Idle
                <==> r.held() == QUEUE_CAPACITY)
        }),
{
    lemma_interleaved(steps);
    let r = interleaved(steps);
    assert(r.taken.is_prefix_of(r.accepted));
    if r.held() == 0 {
        assert(r.taken =~= r.accepted);
    }
}

} // verus!
