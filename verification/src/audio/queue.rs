//! A queue of [`AudioEvent`], from a game to an audio callback.
//!
//! Each slot holds an *encoded* event, a single word, so that a host can keep
//! the slots in atomics. A full queue drops the sound rather than making the
//! game wait for a speaker.

use super::event::AudioEvent;
use vstd::prelude::*;

verus! {

/// Events the queue can hold. One frame emits a handful at most, so this is
/// several seconds of backlog.
pub const QUEUE_CAPACITY: usize = 256;

/// The word that a tag and up to six bytes of payload make: the tag in the low
/// byte, `a` in the two above it, then `b`, `c`, and `d` in two.
pub open spec fn packed(tag: u64, a: u64, b: u64, c: u64, d: u64) -> u64 {
    tag | (a << 8) | (b << 24) | (c << 32) | (d << 40)
}

/// The word that stands for an event.
pub open spec fn encoded(ev: AudioEvent) -> u64 {
    match ev {
        AudioEvent::PlaySfx { id } => packed(1, id as u64, 0, 0, 0),
        AudioEvent::PlayMusic { id } => packed(2, id as u64, 0, 0, 0),
        AudioEvent::StopMusic => packed(3, 0, 0, 0, 0),
        AudioEvent::Play { inst, note, vel, frames } => packed(
            4,
            inst as u64,
            note as u64,
            vel as u64,
            frames as u64,
        ),
        AudioEvent::NoteOn { chan, inst, note, vel } => packed(
            5,
            chan as u64,
            inst as u64,
            note as u64,
            vel as u64,
        ),
        AudioEvent::NoteOff { chan } => packed(6, chan as u64, 0, 0, 0),
        AudioEvent::Panic => packed(7, 0, 0, 0, 0),
    }
}

/// The event that a word stands for: its low byte is the tag, and only seven
/// tags name one. Bits that the tag has no use for are not looked at.
pub open spec fn decoded(bits: u64) -> Option<AudioEvent> {
    let tag = bits & 0xff;
    let a = (bits >> 8) & 0xffff;
    let b = ((bits >> 24) & 0xff) as u8;
    let c = ((bits >> 32) & 0xff) as u8;
    let d = (bits >> 40) & 0xffff;
    if tag == 1 {
        Some(AudioEvent::PlaySfx { id: a as u16 })
    } else if tag == 2 {
        Some(AudioEvent::PlayMusic { id: a as u16 })
    } else if tag == 3 {
        Some(AudioEvent::StopMusic)
    } else if tag == 4 {
        Some(
            AudioEvent::Play { inst: (a & 0xff) as u8, note: b, vel: c, frames: d as u16 },
        )
    } else if tag == 5 {
        Some(
            AudioEvent::NoteOn {
                chan: (a & 0xff) as u8,
                inst: b,
                note: c,
                vel: (d & 0xff) as u8,
            },
        )
    } else if tag == 6 {
        Some(AudioEvent::NoteOff { chan: (a & 0xff) as u8 })
    } else if tag == 7 {
        Some(AudioEvent::Panic)
    } else {
        None
    }
}

/// Pack an event into a `u64`: an 8-bit tag and up to six bytes of payload.
pub fn encode(ev: AudioEvent) -> (bits: u64)
    ensures
        bits == encoded(ev),
{
    let (tag, a, b, c, d): (u64, u64, u64, u64, u64) = match ev {
        AudioEvent::PlaySfx { id } => (1, id as u64, 0, 0, 0),
        AudioEvent::PlayMusic { id } => (2, id as u64, 0, 0, 0),
        AudioEvent::StopMusic => (3, 0, 0, 0, 0),
        AudioEvent::Play { inst, note, vel, frames } => (
            4,
            inst as u64,
            note as u64,
            vel as u64,
            frames as u64,
        ),
        AudioEvent::NoteOn { chan, inst, note, vel } => (
            5,
            chan as u64,
            inst as u64,
            note as u64,
            vel as u64,
        ),
        AudioEvent::NoteOff { chan } => (6, chan as u64, 0, 0, 0),
        AudioEvent::Panic => (7, 0, 0, 0, 0),
    };
    tag | (a << 8) | (b << 24) | (c << 32) | (d << 40)
}

/// Inverse of [`encode`]. `None` for a tag that isn't one: an empty slot reads
/// as zero, and a queue that mistook that for an event would fire a note.
pub fn decode(bits: u64) -> (r: Option<AudioEvent>)
    ensures
        r == decoded(bits),
{
    let tag: u64 = bits & 0xff;
    let a: u64 = (bits >> 8) & 0xffff;
    let b: u8 = ((bits >> 24) & 0xff) as u8;
    let c: u8 = ((bits >> 32) & 0xff) as u8;
    let d: u64 = (bits >> 40) & 0xffff;
    match tag {
        1 => Some(AudioEvent::PlaySfx { id: a as u16 }),
        2 => Some(AudioEvent::PlayMusic { id: a as u16 }),
        3 => Some(AudioEvent::StopMusic),
        4 => Some(AudioEvent::Play { inst: (a & 0xff) as u8, note: b, vel: c, frames: d as u16 }),
        5 => Some(
            AudioEvent::NoteOn { chan: (a & 0xff) as u8, inst: b, note: c, vel: (d & 0xff) as u8 },
        ),
        6 => Some(AudioEvent::NoteOff { chan: (a & 0xff) as u8 }),
        7 => Some(AudioEvent::Panic),
        _ => None,
    }
}

proof fn lemma_packed(tag: u64, a: u64, b: u64, c: u64, d: u64)
    requires
        tag <= 0xff,
        a <= 0xffff,
        b <= 0xff,
        c <= 0xff,
        d <= 0xffff,
    ensures
        packed(tag, a, b, c, d) & 0xff == tag,
        (packed(tag, a, b, c, d) >> 8) & 0xffff == a,
        (packed(tag, a, b, c, d) >> 24) & 0xff == b,
        (packed(tag, a, b, c, d) >> 32) & 0xff == c,
        (packed(tag, a, b, c, d) >> 40) & 0xffff == d,
        a <= 0xff ==> a & 0xff == a,
        d <= 0xff ==> d & 0xff == d,
{
    let bits = packed(tag, a, b, c, d);
    assert(bits & 0xff == tag && (bits >> 8) & 0xffff == a && (bits >> 24) & 0xff == b && (bits
        >> 32) & 0xff == c && (bits >> 40) & 0xffff == d) by (bit_vector)
        requires
            bits == tag | (a << 8) | (b << 24) | (c << 32) | (d << 40),
            tag <= 0xff,
            a <= 0xffff,
            b <= 0xff,
            c <= 0xff,
            d <= 0xffff,
    ;
    assert(a <= 0xff ==> a & 0xff == a) by (bit_vector);
    assert(d <= 0xff ==> d & 0xff == d) by (bit_vector);
}

/// Every event survives the encoding.
pub proof fn law_decode_inverts_encode(ev: AudioEvent)
    ensures
        decoded(encoded(ev)) == Some(ev),
{
    match ev {
        AudioEvent::PlaySfx { id } => lemma_packed(1, id as u64, 0, 0, 0),
        AudioEvent::PlayMusic { id } => lemma_packed(2, id as u64, 0, 0, 0),
        AudioEvent::StopMusic => lemma_packed(3, 0, 0, 0, 0),
        AudioEvent::Play { inst, note, vel, frames } => lemma_packed(
            4,
            inst as u64,
            note as u64,
            vel as u64,
            frames as u64,
        ),
        AudioEvent::NoteOn { chan, inst, note, vel } => lemma_packed(
            5,
            chan as u64,
            inst as u64,
            note as u64,
            vel as u64,
        ),
        AudioEvent::NoteOff { chan } => lemma_packed(6, chan as u64, 0, 0, 0),
        AudioEvent::Panic => lemma_packed(7, 0, 0, 0, 0),
    }
}

/// A word whose tag is none, an empty slot's zero among them, is no event.
pub proof fn law_no_event_without_a_tag(bits: u64)
    requires
        bits & 0xff == 0 || bits & 0xff > 7,
    ensures
        decoded(bits) is None,
{
}

/// How many slots lie between two running indices, the first of which the
/// second has overtaken: both wrap around at the end of `usize`.
pub open spec fn distance(head: usize, tail: usize) -> int {
    if tail >= head {
        tail - head
    } else {
        tail + usize::MAX + 1 - head
    }
}

/// The slot the producer may write, if the queue is not full.
pub open spec fn writable(head: usize, tail: usize) -> Option<usize> {
    if distance(head, tail) >= QUEUE_CAPACITY {
        None
    } else {
        Some((tail as int % QUEUE_CAPACITY as int) as usize)
    }
}

/// The slot the consumer may read, if the queue is not empty.
pub open spec fn readable(head: usize, tail: usize) -> Option<usize> {
    if distance(head, tail) == 0 {
        None
    } else {
        Some((head as int % QUEUE_CAPACITY as int) as usize)
    }
}

/// The slot the producer may write, given both indices, or `None` where the
/// queue is full.
pub fn writable_slot(head: usize, tail: usize) -> (r: Option<usize>)
    ensures
        r == writable(head, tail),
{
    if tail.wrapping_sub(head) >= QUEUE_CAPACITY {
        None
    } else {
        Some(tail % QUEUE_CAPACITY)
    }
}

/// The slot the consumer may read, given both indices, or `None` where the
/// queue is empty.
pub fn readable_slot(head: usize, tail: usize) -> (r: Option<usize>)
    ensures
        r == readable(head, tail),
{
    if head == tail {
        None
    } else {
        Some(head % QUEUE_CAPACITY)
    }
}

/// A first-in, first-out queue of [`AudioEvent`] in a ring of words.
pub struct EventQueue {
    slots: [u64; QUEUE_CAPACITY],
    /// Next slot the consumer will read.
    head: usize,
    /// Next slot the producer will write.
    tail: usize,
    /// Pushes the queue refused. Whether a refusal *lost* an event depends on
    /// the caller: a caller that retries loses nothing and still counts here.
    rejected: u64,
}

/// What an [`EventQueue`] holds.
pub struct EventsModel {
    /// The events in it, the oldest first.
    pub events: Seq<AudioEvent>,
    /// How many pushes it refused.
    pub rejected: u64,
}

impl EventsModel {
    /// After a push: the event is last, or, in a full queue, one refusal more.
    /// The count of refusals starts over after the most that 64 bits hold.
    pub open spec fn pushed(self, ev: AudioEvent) -> EventsModel {
        if self.events.len() < QUEUE_CAPACITY {
            EventsModel { events: self.events.push(ev), ..self }
        } else {
            EventsModel {
                rejected: if self.rejected == u64::MAX {
                    0
                } else {
                    (self.rejected + 1) as u64
                },
                ..self
            }
        }
    }

    /// After a pop: without its oldest event.
    pub open spec fn popped(self) -> EventsModel {
        if self.events.len() == 0 {
            self
        } else {
            EventsModel { events: self.events.drop_first(), ..self }
        }
    }
}

/// What a queue can be asked.
pub enum Call {
    Push(AudioEvent),
    Pop,
}

/// A queue, what it took in so far and what it gave out.
pub struct History {
    pub queue: EventsModel,
    /// The events of the pushes that were not refused, in order.
    pub accepted: Seq<AudioEvent>,
    /// The events that pops returned, in order.
    pub taken: Seq<AudioEvent>,
}

/// An empty queue, after these calls.
pub open spec fn history(rejected: u64, calls: Seq<Call>) -> History
    decreases calls.len(),
{
    if calls.len() == 0 {
        History {
            queue: EventsModel { events: Seq::empty(), rejected },
            accepted: Seq::empty(),
            taken: Seq::empty(),
        }
    } else {
        let h = history(rejected, calls.drop_last());
        match calls.last() {
            Call::Push(ev) => History {
                queue: h.queue.pushed(ev),
                accepted: if h.queue.events.len() < QUEUE_CAPACITY {
                    h.accepted.push(ev)
                } else {
                    h.accepted
                },
                ..h
            },
            Call::Pop => History {
                queue: h.queue.popped(),
                taken: if h.queue.events.len() > 0 {
                    h.taken.push(h.queue.events[0])
                } else {
                    h.taken
                },
                ..h
            },
        }
    }
}

/// First in, first out, in whatever order a queue is pushed and popped: what
/// came out is the front of what was accepted, in the same order, and what is
/// still in it is the rest. Nothing accepted is lost, repeated or reordered.
pub proof fn law_first_in_first_out(rejected: u64, calls: Seq<Call>)
    ensures
        ({
            let h = history(rejected, calls);
            &&& h.accepted == h.taken + h.queue.events
            &&& h.queue.events.len() <= QUEUE_CAPACITY
            &&& h.queue.events.len() == 0 <==> h.taken == h.accepted
        }),
    decreases calls.len(),
{
    let h = history(rejected, calls);
    if calls.len() > 0 {
        law_first_in_first_out(rejected, calls.drop_last());
    }
    assert(h.accepted =~= h.taken + h.queue.events);
    if h.taken == h.accepted {
        assert(h.accepted.len() == h.taken.len() + h.queue.events.len());
    } else if h.queue.events.len() == 0 {
        assert(h.accepted =~= h.taken);
    }
}

/// A push into a queue with room puts the event last and counts nothing; into a
/// full one it is counted, and changes nothing else. A pop takes the first.
pub proof fn law_a_full_queue_counts_what_it_refuses(q: EventsModel, ev: AudioEvent)
    ensures
        q.events.len() < 256 ==> {
            &&& q.pushed(ev).events == q.events.push(ev)
            &&& q.pushed(ev).rejected == q.rejected
        },
        q.events.len() >= 256 ==> {
            &&& q.pushed(ev).events == q.events
            &&& q.rejected < u64::MAX ==> q.pushed(ev).rejected == q.rejected + 1
        },
        q.events.len() > 0 ==> q.popped().events == q.events.skip(1),
        q.events.len() == 0 ==> q.popped().events == q.events,
        q.popped().rejected == q.rejected,
{
    if q.events.len() > 0 {
        assert(q.events.skip(1) =~= q.events.drop_first());
    }
}

/// The slot that is written or read next: a queue has room for 256 between the
/// two, and something to read where they differ.
pub proof fn law_slots_go_round(head: usize, n: usize)
    requires
        n <= 256,
        head + n <= usize::MAX,
    ensures
        n < 256 ==> writable(head, (head + n) as usize) == Some(
            ((head + n) as int % 256) as usize,
        ),
        n == 256 ==> writable(head, (head + n) as usize) is None,
        n > 0 ==> readable(head, (head + n) as usize) == Some((head as int % 256) as usize),
        n == 0 ==> readable(head, (head + n) as usize) is None,
{
}


/// A queue never holds more events than its capacity.
pub proof fn law_within_capacity(q: EventQueue)
    requires
        q.wf(),
    ensures
        q@.events.len() <= QUEUE_CAPACITY,
{
}

impl View for EventQueue {
    type V = EventsModel;

    closed spec fn view(&self) -> EventsModel {
        EventsModel {
            events: Seq::new(
                distance(self.head, self.tail) as nat,
                |k: int| decoded(self.slots@[(self.head + k) % QUEUE_CAPACITY as int])->0,
            ),
            rejected: self.rejected,
        }
    }
}

impl EventQueue {
    /// No more events than slots, and every slot in use holds an event.
    pub closed spec fn wf(&self) -> bool {
        &&& distance(self.head, self.tail) <= QUEUE_CAPACITY
        &&& forall|k: int|
            0 <= k < distance(self.head, self.tail) ==> decoded(
                #[trigger] self.slots@[(self.head + k) % QUEUE_CAPACITY as int],
            ) is Some
    }

    pub fn new() -> (r: Self)
        ensures
            r.wf(),
            r@ == (EventsModel { events: Seq::empty(), rejected: 0 }),
    {
        let r = EventQueue { slots: [0; QUEUE_CAPACITY], head: 0, tail: 0, rejected: 0 };
        assert(r@.events =~= Seq::empty());
        r
    }

    /// Producer side. Returns false, and counts it, if the queue was full.
    pub fn push(&mut self, ev: AudioEvent) -> (r: bool)
        requires
            old(self).wf(),
        ensures
            final(self).wf(),
            r == (old(self)@.events.len() < QUEUE_CAPACITY),
            final(self)@ == old(self)@.pushed(ev),
    {
        match writable_slot(self.head, self.tail) {
            None => {
                self.rejected = self.rejected.wrapping_add(1);
                assert(self@.events =~= old(self)@.events);
                false
            },
            Some(slot) => {
                let ghost n = distance(self.head, self.tail);
                let ghost head = self.head as int;
                self.slots[slot] = encode(ev);
                self.tail = self.tail.wrapping_add(1);
                proof {
                    law_decode_inverts_encode(ev);
                    lemma_ring(self.head, old(self).tail);
                    assert(distance(self.head, self.tail) == n + 1);
                    assert forall|k: int| 0 <= k < n implies (#[trigger] ((head + k)
                        % QUEUE_CAPACITY as int)) != (head + n) % QUEUE_CAPACITY as int by {
                        lemma_apart(head + k, n - k);
                    }
                    assert forall|k: int| 0 <= k < n + 1 implies decoded(
                        #[trigger] self.slots@[(head + k) % QUEUE_CAPACITY as int],
                    ) is Some by {
                        if k < n {
                            assert(self.slots@[(head + k) % QUEUE_CAPACITY as int]
                                == old(self).slots@[(head + k) % QUEUE_CAPACITY as int]);
                        }
                    }
                    assert(self@.events =~= old(self)@.events.push(ev));
                }
                true
            },
        }
    }

    /// Consumer side: the oldest event, taken out.
    pub fn pop(&mut self) -> (r: Option<AudioEvent>)
        requires
            old(self).wf(),
        ensures
            final(self).wf(),
            final(self)@ == old(self)@.popped(),
            r == (if old(self)@.events.len() == 0 {
                None::<AudioEvent>
            } else {
                Some(old(self)@.events[0])
            }),
    {
        match readable_slot(self.head, self.tail) {
            None => {
                assert(self@.events =~= old(self)@.events);
                None
            },
            Some(slot) => {
                let ghost n = distance(self.head, self.tail);
                let ghost head = self.head as int;
                let bits: u64 = self.slots[slot];
                self.head = self.head.wrapping_add(1);
                proof {
                    lemma_wrapped(old(self).head);
                    assert(distance(self.head, self.tail) == n - 1);
                    assert(self.slots@[(head + 0) % QUEUE_CAPACITY as int] == bits);
                    assert forall|k: int| 0 <= k < n - 1 implies (#[trigger] ((self.head + k)
                        % QUEUE_CAPACITY as int)) == (head + (k + 1)) % QUEUE_CAPACITY as int by {
                        lemma_shift(old(self).head, k);
                    }
                    assert forall|k: int| 0 <= k < n - 1 implies decoded(
                        #[trigger] self.slots@[(self.head + k) % QUEUE_CAPACITY as int],
                    ) is Some by {
                        assert(decoded(
                            old(self).slots@[(head + (k + 1)) % QUEUE_CAPACITY as int],
                        ) is Some);
                    }
                    assert(self@.events =~= old(self)@.events.drop_first());
                }
                decode(bits)
            },
        }
    }

    /// Pushes the queue refused.
    pub fn rejected(&self) -> (r: u64)
        ensures
            r == self@.rejected,
    {
        self.rejected
    }
}

impl Default for EventQueue {
    fn default() -> (r: Self)
        ensures
            r.wf(),
            r@ == (EventsModel { events: Seq::empty(), rejected: 0 }),
    {
        EventQueue::new()
    }
}

/// The word size is a multiple of the ring's.
pub proof fn lemma_word()
    ensures
        (usize::MAX as int + 1) % 256 == 0,
{
    assert(usize::MAX == 0xffff_ffff || usize::MAX == 0xffff_ffff_ffff_ffff);
}

proof fn lemma_wrapped(head: usize)
    ensures
        head < usize::MAX ==> head.wrapping_add(1) == head + 1,
        head == usize::MAX ==> head.wrapping_add(1) == 0,
{
}

proof fn lemma_shift(head: usize, k: int)
    requires
        0 <= k,
    ensures
        (head.wrapping_add(1) + k) % 256 == (head + (k + 1)) % 256,
{
    lemma_word();
}

proof fn lemma_ring(head: usize, tail: usize)
    ensures
        tail as int % 256 == (head + distance(head, tail)) % 256,
{
    lemma_word();
}

pub proof fn lemma_apart(x: int, n: int)
    requires
        0 < n < 256,
        x >= 0,
    ensures
        x % 256 != (x + n) % 256,
{
}

} // verus!
