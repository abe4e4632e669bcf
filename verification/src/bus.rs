//! The per-championship broadcast bus.
//!
//! One sender (the ingest loop), any number of subscribers, a bounded
//! buffer in messages.  The sender never waits: when the buffer is
//! full the oldest message is dropped, and a subscriber that has
//! fallen behind the retained window observes `Lagged(n)` and resumes
//! from the oldest retained message.  When the bus is closed and a
//! subscriber has drained it, the subscriber observes `Closed`.
//! Subscribers receive only messages published after they subscribed.

use vstd::prelude::*;

use crate::packets::Packet;
use crate::packets::PacketModel;

verus! {

/// What a subscriber's receive yields.
pub enum RecvOutcome {
    /// The next message for this subscriber.
    Msg(Packet),
    /// The subscriber lagged: this many messages were dropped for it;
    /// it resumes at the oldest retained message.
    Lagged(u64),
    /// Nothing new yet; the bus is still open.
    Empty,
    /// The bus was closed and this subscriber has drained it.
    Closed,
}

/// Model of [`RecvOutcome`].
pub enum RecvOutcomeModel {
    Msg(PacketModel),
    Lagged(u64),
    Empty,
    Closed,
}

impl View for RecvOutcome {
    type V = RecvOutcomeModel;

    open spec fn view(&self) -> RecvOutcomeModel {
        match self {
            RecvOutcome::Msg(p) => RecvOutcomeModel::Msg(p@),
            RecvOutcome::Lagged(n) => RecvOutcomeModel::Lagged(*n),
            RecvOutcome::Empty => RecvOutcomeModel::Empty,
            RecvOutcome::Closed => RecvOutcomeModel::Closed,
        }
    }
}

/// Model of [`BroadcastBus`]: `next_seq` counts everything ever
/// published; `buffer` holds the last `buffer.len()` of those; each
/// subscriber's cursor is the sequence number it reads next.
pub struct BusModel {
    pub capacity: usize,
    pub next_seq: u64,
    pub buffer: Seq<PacketModel>,
    pub cursors: Seq<u64>,
    pub closed: bool,
}

/// A bounded single-sender broadcast channel of decoded packets.
pub struct BroadcastBus {
    capacity: usize,
    next_seq: u64,
    buffer: Vec<Packet>,
    cursors: Vec<u64>,
    closed: bool,
}

impl View for BroadcastBus {
    type V = BusModel;

    closed spec fn view(&self) -> BusModel {
        BusModel {
            capacity: self.capacity,
            next_seq: self.next_seq,
            buffer: self.buffer@.map_values(|p: Packet| p@),
            cursors: self.cursors@,
            closed: self.closed,
        }
    }
}

/// The sequence number of the oldest retained message.
pub open spec fn oldest(m: BusModel) -> int {
    m.next_seq - m.buffer.len()
}

/// The bus invariant: the buffer respects the bound, never holds more
/// than was published, and every cursor is at most `next_seq`.
pub open spec fn bus_wf(m: BusModel) -> bool {
    &&& 1 <= m.capacity
    &&& m.buffer.len() <= m.capacity
    &&& m.buffer.len() <= m.next_seq
    &&& forall|s: int| 0 <= s < m.cursors.len() ==> m.cursors[s] <= m.next_seq
}

/// Publication: append, dropping the oldest message if full.
pub open spec fn spec_publish(m: BusModel, p: PacketModel) -> BusModel {
    let kept = if m.buffer.len() == m.capacity {
        m.buffer.drop_first()
    } else {
        m.buffer
    };
    BusModel { next_seq: (m.next_seq + 1) as u64, buffer: kept.push(p), ..m }
}

/// What one receive by subscriber `s` does and yields.
pub open spec fn spec_recv(m: BusModel, s: int) -> (BusModel, RecvOutcomeModel) {
    if m.cursors[s] < oldest(m) {
        (
            BusModel { cursors: m.cursors.update(s, (oldest(m)) as u64), ..m },
            RecvOutcomeModel::Lagged((oldest(m) - m.cursors[s]) as u64),
        )
    } else if m.cursors[s] < m.next_seq {
        (
            BusModel { cursors: m.cursors.update(s, (m.cursors[s] + 1) as u64), ..m },
            RecvOutcomeModel::Msg(m.buffer[m.cursors[s] - oldest(m)]),
        )
    } else if m.closed {
        (m, RecvOutcomeModel::Closed)
    } else {
        (m, RecvOutcomeModel::Empty)
    }
}

impl BroadcastBus {
    /// An open, empty bus bounded to `capacity` messages.
    pub fn new(capacity: usize) -> (r: BroadcastBus)
        requires
            capacity >= 1,
        ensures
            r@ == (BusModel {
                capacity,
                next_seq: 0,
                buffer: Seq::<PacketModel>::empty(),
                cursors: Seq::<u64>::empty(),
                closed: false,
            }),
            bus_wf(r@),
    {
        let r = BroadcastBus {
            capacity,
            next_seq: 0,
            buffer: Vec::new(),
            cursors: Vec::new(),
            closed: false,
        };
        proof {
            assert(r@.buffer =~= Seq::<PacketModel>::empty());
            assert(r@.cursors =~= Seq::<u64>::empty());
        }
        r
    }

    /// How many messages were ever published.
    pub fn published(&self) -> (r: u64)
        ensures
            r == self@.next_seq,
    {
        self.next_seq
    }

    /// How many subscribers were handed out.
    pub fn subscriber_count(&self) -> (r: usize)
        ensures
            r == self@.cursors.len(),
    {
        self.cursors.len()
    }

    /// Joins a new subscriber, which will see only messages published
    /// from now on.  Returns its subscriber id.
    pub fn subscribe(&mut self) -> (r: usize)
        requires
            bus_wf(old(self)@),
        ensures
            final(self)@ == (BusModel {
                cursors: old(self)@.cursors.push(old(self)@.next_seq),
                ..old(self)@
            }),
            r == old(self)@.cursors.len(),
            bus_wf(final(self)@),
    {
        let id = self.cursors.len();
        let seq = self.next_seq;
        self.cursors.push(seq);
        id
    }

    /// Publishes one message, dropping the oldest if the buffer is
    /// full.  Never waits for subscribers; with none, the message
    /// simply ages out.
    pub fn publish(&mut self, p: Packet)
        requires
            bus_wf(old(self)@),
            old(self)@.next_seq < u64::MAX,
        ensures
            final(self)@ == spec_publish(old(self)@, p@),
            bus_wf(final(self)@),
    {
        if self.buffer.len() == self.capacity {
            self.buffer.remove(0);
            assert(self@.buffer =~= old(self)@.buffer.drop_first());
        }
        self.buffer.push(p);
        self.next_seq = self.next_seq + 1;
        proof {
            assert(final(self)@.buffer =~= spec_publish(old(self)@, p@).buffer);
        }
    }

    /// Marks the sender gone; drained subscribers then observe
    /// `Closed`.
    pub fn close(&mut self)
        ensures
            final(self)@ == (BusModel { closed: true, ..old(self)@ }),
    {
        self.closed = true;
    }

    /// One receive by subscriber `sub`, as [`spec_recv`].
    pub fn recv(&mut self, sub: usize) -> (r: RecvOutcome)
        requires
            bus_wf(old(self)@),
            sub < old(self)@.cursors.len(),
        ensures
            final(self)@ == spec_recv(old(self)@, sub as int).0,
            r@ == spec_recv(old(self)@, sub as int).1,
            bus_wf(final(self)@),
    {
        let cursor = self.cursors[sub];
        let oldest_seq = self.next_seq - (self.buffer.len() as u64);
        if cursor < oldest_seq {
            self.cursors.set(sub, oldest_seq);
            return RecvOutcome::Lagged(oldest_seq - cursor);
        }
        if cursor < self.next_seq {
            let idx = (cursor - oldest_seq) as usize;
            let p = self.buffer[idx].duplicate();
            self.cursors.set(sub, cursor + 1);
            return RecvOutcome::Msg(p);
        }
        if self.closed {
            RecvOutcome::Closed
        } else {
            RecvOutcome::Empty
        }
    }
}

} // verus!
