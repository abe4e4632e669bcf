//! The listener registry.
//!
//! The registry maps each championship to at most one active listener
//! and its broadcast bus; ports in use are pairwise distinct and lie
//! in the fixed UDP range.  Starting an already-running championship
//! (or reusing a bound port) fails with `AlreadyExists`; stopping an
//! unknown one fails with `NotFound`; subscribing to an unknown one
//! yields `None`.

use vstd::prelude::*;

use crate::bus::bus_wf;
use crate::bus::BroadcastBus;
use crate::bus::BusModel;
use crate::bus::RecvOutcome;
use crate::bus::spec_publish;
use crate::bus::spec_recv;
use crate::packets::Packet;

verus! {

/// Lowest UDP port a listener may use.
pub const PORT_MIN: u16 = 20777;

/// Highest UDP port a listener may use.
pub const PORT_MAX: u16 = 20899;

/// Bound, in messages, of each listener's broadcast bus.
pub const BUS_CAPACITY: usize = 256;

/// Registry errors surfaced to the control layer.
#[derive(Clone, Copy, Debug, PartialEq, Eq, Structural)]
pub enum SocketError {
    /// A listener (or its port) already exists for this request.
    AlreadyExists,
    /// No listener is registered for this championship.
    NotFound,
}

/// Model of [`ListenerEntry`].
pub struct EntryModel {
    pub championship_id: u32,
    pub port: u16,
    pub bus: BusModel,
}

/// One registered listener: its championship, its port, its bus.
pub struct ListenerEntry {
    championship_id: u32,
    port: u16,
    bus: BroadcastBus,
}

impl View for ListenerEntry {
    type V = EntryModel;

    closed spec fn view(&self) -> EntryModel {
        EntryModel {
            championship_id: self.championship_id,
            port: self.port,
            bus: self.bus@,
        }
    }
}

/// Some entry carries this championship.
pub open spec fn has_cid(s: Seq<EntryModel>, c: u32) -> bool {
    exists|i: int| 0 <= i < s.len() && s[i].championship_id == c
}

/// Some entry occupies this port.
pub open spec fn has_port(s: Seq<EntryModel>, p: u16) -> bool {
    exists|i: int| 0 <= i < s.len() && s[i].port == p
}

/// The index of the entry carrying championship `c` (meaningful under
/// [`has_cid`]; unique under [`reg_wf`]).
pub open spec fn idx_of_cid(s: Seq<EntryModel>, c: u32) -> int {
    choose|i: int| 0 <= i < s.len() && s[i].championship_id == c
}

/// The registry invariant: championships unique, ports unique and in
/// range, every bus well-formed.
pub open spec fn reg_wf(s: Seq<EntryModel>) -> bool {
    &&& forall|i: int, j: int|
        0 <= i < j < s.len() ==> s[i].championship_id != s[j].championship_id
    &&& forall|i: int, j: int| 0 <= i < j < s.len() ==> s[i].port != s[j].port
    &&& forall|i: int| 0 <= i < s.len() ==> PORT_MIN <= (#[trigger] s[i].port) <= PORT_MAX
    &&& forall|i: int| 0 <= i < s.len() ==> bus_wf(#[trigger] s[i].bus)
}

/// Under [`reg_wf`], the entry of a championship is at one index only.
pub proof fn lemma_cid_index(s: Seq<EntryModel>, c: u32, i: int)
    requires
        reg_wf(s),
        0 <= i < s.len(),
        s[i].championship_id == c,
    ensures
        has_cid(s, c),
        idx_of_cid(s, c) == i,
{
    assert(has_cid(s, c));
    let j = idx_of_cid(s, c);
    if i < j {
        assert(s[i].championship_id != s[j].championship_id);
    } else if j < i {
        assert(s[j].championship_id != s[i].championship_id);
    }
}

/// Removing an entry keeps the registry invariant.
proof fn lemma_wf_remove(s: Seq<EntryModel>, i: int)
    requires
        reg_wf(s),
        0 <= i < s.len(),
    ensures
        reg_wf(s.remove(i)),
{
    let t = s.remove(i);
    assert forall|x: int, y: int| 0 <= x < y < t.len() implies t[x].championship_id != t[
        y
    ].championship_id && t[x].port != t[y].port by {
        let sx: int = if x < i {
            x
        } else {
            x + 1
        };
        let sy: int = if y < i {
            y
        } else {
            y + 1
        };
        assert(t[x] == s[sx]);
        assert(t[y] == s[sy]);
        assert(s[sx].championship_id != s[sy].championship_id && s[sx].port != s[sy].port);
    }
    assert forall|x: int| 0 <= x < t.len() implies PORT_MIN <= (#[trigger] t[x].port) <= PORT_MAX
        && bus_wf(t[x].bus) by {
        let sx: int = if x < i {
            x
        } else {
            x + 1
        };
        assert(t[x] == s[sx]);
        assert(PORT_MIN <= s[sx].port <= PORT_MAX);
        assert(bus_wf(s[sx].bus));
    }
}

/// Replacing an entry's bus (same championship, same port) keeps the
/// registry invariant, provided the new bus is well-formed.
proof fn lemma_wf_update_bus(s: Seq<EntryModel>, i: int, b: BusModel)
    requires
        reg_wf(s),
        0 <= i < s.len(),
        bus_wf(b),
    ensures
        reg_wf(s.update(i, EntryModel { bus: b, ..s[i] })),
{
    let t = s.update(i, EntryModel { bus: b, ..s[i] });
    assert(t.len() == s.len());
    assert forall|x: int, y: int| 0 <= x < y < t.len() implies t[x].championship_id != t[
        y
    ].championship_id && t[x].port != t[y].port by {
        assert(t[x].championship_id == s[x].championship_id && t[x].port == s[x].port);
        assert(t[y].championship_id == s[y].championship_id && t[y].port == s[y].port);
        assert(s[x].championship_id != s[y].championship_id && s[x].port != s[y].port);
    }
    assert forall|x: int| 0 <= x < t.len() implies PORT_MIN <= (#[trigger] t[x].port) <= PORT_MAX
        && bus_wf(t[x].bus) by {
        assert(PORT_MIN <= s[x].port <= PORT_MAX);
        assert(bus_wf(s[x].bus));
        if x == i {
            assert(t[x].bus == b);
        } else {
            assert(t[x] == s[x]);
        }
    }
}

/// The registry: championship id to at-most-one active listener.
pub struct ListenerRegistry {
    entries: Vec<ListenerEntry>,
}

impl View for ListenerRegistry {
    type V = Seq<EntryModel>;

    closed spec fn view(&self) -> Seq<EntryModel> {
        self.entries@.map_values(|e: ListenerEntry| e@)
    }
}

impl ListenerRegistry {
    /// An empty registry.
    pub fn new() -> (r: ListenerRegistry)
        ensures
            r@.len() == 0,
            reg_wf(r@),
    {
        let r = ListenerRegistry { entries: Vec::new() };
        proof {
            assert(r@ =~= Seq::<EntryModel>::empty());
        }
        r
    }

    /// Registers a listener for `championship_id` on `port`, with a
    /// fresh broadcast bus.  Fails with `AlreadyExists` exactly when a
    /// listener for this championship, or one bound to this port, is
    /// already present.
    pub fn start(&mut self, championship_id: u32, port: u16) -> (r: Result<(), SocketError>)
        requires
            reg_wf(old(self)@),
            PORT_MIN <= port <= PORT_MAX,
        ensures
            reg_wf(final(self)@),
            r is Ok <==> !has_cid(old(self)@, championship_id) && !has_port(old(self)@, port),
            r is Ok ==> final(self)@ == old(self)@.push(
                EntryModel {
                    championship_id,
                    port,
                    bus: BusModel {
                        capacity: BUS_CAPACITY,
                        next_seq: 0,
                        buffer: Seq::empty(),
                        cursors: Seq::empty(),
                        closed: false,
                    },
                },
            ),
            r is Err ==> final(self)@ == old(self)@ && r == Err::<(), SocketError>(
                SocketError::AlreadyExists,
            ),
    {
        let n = self.entries.len();
        let mut i: usize = 0;
        while i < n
            invariant
                i <= n,
                n == self@.len(),
                self@ == old(self)@,
                reg_wf(old(self)@),
                forall|j: int|
                    0 <= j < i ==> (#[trigger] self@[j]).championship_id != championship_id
                        && self@[j].port != port,
            decreases n - i,
        {
            if self.entries[i].championship_id == championship_id
                || self.entries[i].port == port {
                assert(self@[i as int].championship_id == championship_id || self@[
                    i as int
                ].port == port);
                return Err(SocketError::AlreadyExists);
            }
            assert(self@[i as int].championship_id != championship_id && self@[i as int].port
                != port);
            i = i + 1;
        }
        proof {
            assert(!has_cid(self@, championship_id)) by {
                if has_cid(self@, championship_id) {
                    let p = choose|p: int|
                        0 <= p < self@.len() && self@[p].championship_id == championship_id;
                    assert(self@[p].championship_id != championship_id);
                }
            }
            assert(!has_port(self@, port)) by {
                if has_port(self@, port) {
                    let p = choose|p: int| 0 <= p < self@.len() && self@[p].port == port;
                    assert(self@[p].port != port);
                }
            }
        }
        let entry = ListenerEntry { championship_id, port, bus: BroadcastBus::new(BUS_CAPACITY) };
        self.entries.push(entry);
        proof {
            assert(self@ =~= old(self)@.push(
                EntryModel {
                    championship_id,
                    port,
                    bus: BusModel {
                        capacity: BUS_CAPACITY,
                        next_seq: 0,
                        buffer: Seq::empty(),
                        cursors: Seq::empty(),
                        closed: false,
                    },
                },
            ));
            let t = self@;
            assert forall|x: int, y: int| 0 <= x < y < t.len() implies t[x].championship_id != t[
                y
            ].championship_id && t[x].port != t[y].port by {
                if y < t.len() - 1 {
                    assert(old(self)@[x].championship_id != old(self)@[y].championship_id);
                    assert(old(self)@[x].port != old(self)@[y].port);
                } else {
                    assert(t[x] == old(self)@[x]);
                }
            }
            assert(reg_wf(t));
        }
        Ok(())
    }

    /// Removes the listener of `championship_id` and returns its port
    /// (so the caller can tear its firewall rules down).  Fails with
    /// `NotFound` exactly when no such listener is registered.
    pub fn stop(&mut self, championship_id: u32) -> (r: Result<u16, SocketError>)
        requires
            reg_wf(old(self)@),
        ensures
            reg_wf(final(self)@),
            r is Ok <==> has_cid(old(self)@, championship_id),
            r matches Ok(p) ==> {
                let i = idx_of_cid(old(self)@, championship_id);
                &&& old(self)@[i].championship_id == championship_id
                &&& p == old(self)@[i].port
                &&& final(self)@ == old(self)@.remove(i)
            },
            r is Err ==> final(self)@ == old(self)@ && r == Err::<u16, SocketError>(
                SocketError::NotFound,
            ),
            !has_cid(final(self)@, championship_id),
    {
        let n = self.entries.len();
        let mut i: usize = 0;
        while i < n
            invariant
                i <= n,
                n == self@.len(),
                self@ == old(self)@,
                reg_wf(old(self)@),
                forall|j: int|
                    0 <= j < i ==> (#[trigger] self@[j]).championship_id != championship_id,
            decreases n - i,
        {
            if self.entries[i].championship_id == championship_id {
                proof {
                    lemma_cid_index(self@, championship_id, i as int);
                }
                let entry = self.entries.remove(i);
                proof {
                    assert(self@ =~= old(self)@.remove(i as int));
                    lemma_wf_remove(old(self)@, i as int);
                    assert forall|k: int| 0 <= k < self@.len() implies (
                    #[trigger] self@[k]).championship_id != championship_id by {
                        if k < i {
                            assert(self@[k] == old(self)@[k]);
                            assert(old(self)@[k].championship_id != old(self)@[
                                i as int
                            ].championship_id);
                        } else {
                            assert(self@[k] == old(self)@[k + 1]);
                            assert(old(self)@[i as int].championship_id != old(self)@[k
                                + 1].championship_id);
                        }
                    }
                    assert(!has_cid(self@, championship_id)) by {
                        if has_cid(self@, championship_id) {
                            let p = choose|p: int|
                                0 <= p < self@.len() && self@[p].championship_id
                                    == championship_id;
                            assert(self@[p].championship_id != championship_id);
                        }
                    }
                }
                return Ok(entry.port());
            }
            assert(self@[i as int].championship_id != championship_id);
            i = i + 1;
        }
        proof {
            assert(!has_cid(self@, championship_id)) by {
                if has_cid(self@, championship_id) {
                    let p = choose|p: int|
                        0 <= p < self@.len() && self@[p].championship_id == championship_id;
                    assert(self@[p].championship_id != championship_id);
                }
            }
        }
        Err(SocketError::NotFound)
    }

    /// The championships with an active listener, in creation order.
    pub fn list(&self) -> (r: Vec<u32>)
        ensures
            r@ == self@.map_values(|e: EntryModel| e.championship_id),
    {
        let n = self.entries.len();
        let mut r: Vec<u32> = Vec::new();
        let mut i: usize = 0;
        while i < n
            invariant
                i <= n,
                n == self@.len(),
                r@.len() == i,
                forall|j: int| 0 <= j < i ==> r@[j] == self@[j].championship_id,
            decreases n - i,
        {
            r.push(self.entries[i].championship_id());
            i = i + 1;
        }
        proof {
            assert(r@ =~= self@.map_values(|e: EntryModel| e.championship_id));
        }
        r
    }

    /// Whether a listener is registered for `championship_id`.
    pub fn contains(&self, championship_id: u32) -> (r: bool)
        ensures
            r == has_cid(self@, championship_id),
    {
        let n = self.entries.len();
        let mut i: usize = 0;
        while i < n
            invariant
                i <= n,
                n == self@.len(),
                forall|j: int|
                    0 <= j < i ==> (#[trigger] self@[j]).championship_id != championship_id,
            decreases n - i,
        {
            if self.entries[i].championship_id == championship_id {
                assert(self@[i as int].championship_id == championship_id);
                assert(has_cid(self@, championship_id));
                return true;
            }
            assert(self@[i as int].championship_id != championship_id);
            i = i + 1;
        }
        proof {
            assert(!has_cid(self@, championship_id)) by {
                if has_cid(self@, championship_id) {
                    let p = choose|p: int|
                        0 <= p < self@.len() && self@[p].championship_id == championship_id;
                    assert(self@[p].championship_id != championship_id);
                }
            }
        }
        false
    }

    /// Hands out a fresh subscription to the championship's bus, or
    /// `None` exactly when no listener is registered for it.
    pub fn subscribe(&mut self, championship_id: u32) -> (r: Option<usize>)
        requires
            reg_wf(old(self)@),
        ensures
            reg_wf(final(self)@),
            r is Some <==> has_cid(old(self)@, championship_id),
            r matches Some(id) ==> {
                let i = idx_of_cid(old(self)@, championship_id);
                &&& id == old(self)@[i].bus.cursors.len()
                &&& final(self)@ == old(self)@.update(
                    i,
                    EntryModel {
                        bus: BusModel {
                            cursors: old(self)@[i].bus.cursors.push(old(self)@[i].bus.next_seq),
                            ..old(self)@[i].bus
                        },
                        ..old(self)@[i]
                    },
                )
            },
            r is None ==> final(self)@ == old(self)@,
    {
        let n = self.entries.len();
        let mut i: usize = 0;
        while i < n
            invariant
                i <= n,
                n == self@.len(),
                self@ == old(self)@,
                reg_wf(old(self)@),
                forall|j: int|
                    0 <= j < i ==> (#[trigger] self@[j]).championship_id != championship_id,
            decreases n - i,
        {
            if self.entries[i].championship_id == championship_id {
                proof {
                    lemma_cid_index(self@, championship_id, i as int);
                }
                let mut entry = self.entries.remove(i);
                assert(entry@ == old(self)@[i as int]);
                assert(bus_wf(entry@.bus));
                let id = entry.bus.subscribe();
                self.entries.insert(i, entry);
                proof {
                    let em = EntryModel {
                        bus: BusModel {
                            cursors: old(self)@[i as int].bus.cursors.push(
                                old(self)@[i as int].bus.next_seq,
                            ),
                            ..old(self)@[i as int].bus
                        },
                        ..old(self)@[i as int]
                    };
                    assert(entry@ == em);
                    assert(self@ =~= old(self)@.update(i as int, em));
                    lemma_wf_update_bus(old(self)@, i as int, em.bus);
                }
                return Some(id);
            }
            assert(self@[i as int].championship_id != championship_id);
            i = i + 1;
        }
        proof {
            assert(!has_cid(self@, championship_id)) by {
                if has_cid(self@, championship_id) {
                    let p = choose|p: int|
                        0 <= p < self@.len() && self@[p].championship_id == championship_id;
                    assert(self@[p].championship_id != championship_id);
                }
            }
        }
        None
    }

    /// Sends `p` on the championship's bus.  Returns whether such a
    /// listener exists; sending with no subscribers is not an error,
    /// the message simply ages out of the buffer.
    pub fn publish(&mut self, championship_id: u32, p: Packet) -> (r: bool)
        requires
            reg_wf(old(self)@),
            forall|i: int|
                0 <= i < old(self)@.len() ==> (#[trigger] old(self)@[i].bus).next_seq
                    < u64::MAX,
        ensures
            reg_wf(final(self)@),
            r == has_cid(old(self)@, championship_id),
            r ==> {
                let i = idx_of_cid(old(self)@, championship_id);
                final(self)@ == old(self)@.update(
                    i,
                    EntryModel { bus: spec_publish(old(self)@[i].bus, p@), ..old(self)@[i] },
                )
            },
            !r ==> final(self)@ == old(self)@,
    {
        let n = self.entries.len();
        let mut i: usize = 0;
        while i < n
            invariant
                i <= n,
                n == self@.len(),
                self@ == old(self)@,
                reg_wf(old(self)@),
                forall|j: int|
                    0 <= j < old(self)@.len() ==> (#[trigger] old(self)@[j].bus).next_seq
                        < u64::MAX,
                forall|j: int|
                    0 <= j < i ==> (#[trigger] self@[j]).championship_id != championship_id,
            decreases n - i,
        {
            if self.entries[i].championship_id == championship_id {
                proof {
                    lemma_cid_index(self@, championship_id, i as int);
                }
                let mut entry = self.entries.remove(i);
                assert(entry@ == old(self)@[i as int]);
                assert(bus_wf(entry@.bus));
                assert(entry@.bus.next_seq < u64::MAX);
                entry.bus.publish(p);
                self.entries.insert(i, entry);
                proof {
                    let em = EntryModel {
                        bus: spec_publish(old(self)@[i as int].bus, p@),
                        ..old(self)@[i as int]
                    };
                    assert(entry@ == em);
                    assert(self@ =~= old(self)@.update(i as int, em));
                    lemma_wf_update_bus(old(self)@, i as int, em.bus);
                }
                return true;
            }
            assert(self@[i as int].championship_id != championship_id);
            i = i + 1;
        }
        proof {
            assert(!has_cid(self@, championship_id)) by {
                if has_cid(self@, championship_id) {
                    let p_idx = choose|p_idx: int|
                        0 <= p_idx < self@.len() && self@[p_idx].championship_id
                            == championship_id;
                    assert(self@[p_idx].championship_id != championship_id);
                }
            }
        }
        false
    }

    /// One receive by subscriber `sub` of the championship's bus;
    /// `None` when no such listener or no such subscriber exists.
    pub fn recv(&mut self, championship_id: u32, sub: usize) -> (r: Option<RecvOutcome>)
        requires
            reg_wf(old(self)@),
        ensures
            reg_wf(final(self)@),
            r is Some <==> has_cid(old(self)@, championship_id) && sub < old(self)@[idx_of_cid(
                old(self)@,
                championship_id,
            )].bus.cursors.len(),
            r matches Some(o) ==> {
                let i = idx_of_cid(old(self)@, championship_id);
                &&& o@ == spec_recv(old(self)@[i].bus, sub as int).1
                &&& final(self)@ == old(self)@.update(
                    i,
                    EntryModel {
                        bus: spec_recv(old(self)@[i].bus, sub as int).0,
                        ..old(self)@[i]
                    },
                )
            },
            r is None ==> final(self)@ == old(self)@,
    {
        let n = self.entries.len();
        let mut i: usize = 0;
        while i < n
            invariant
                i <= n,
                n == self@.len(),
                self@ == old(self)@,
                reg_wf(old(self)@),
                forall|j: int|
                    0 <= j < i ==> (#[trigger] self@[j]).championship_id != championship_id,
            decreases n - i,
        {
            if self.entries[i].championship_id == championship_id {
                proof {
                    lemma_cid_index(self@, championship_id, i as int);
                }
                let mut entry = self.entries.remove(i);
                assert(entry@ == old(self)@[i as int]);
                assert(bus_wf(entry@.bus));
                if sub >= entry.bus.subscriber_count() {
                    self.entries.insert(i, entry);
                    proof {
                        assert(self@ =~= old(self)@);
                    }
                    return None;
                }
                let outcome = entry.bus.recv(sub);
                self.entries.insert(i, entry);
                proof {
                    let em = EntryModel {
                        bus: spec_recv(old(self)@[i as int].bus, sub as int).0,
                        ..old(self)@[i as int]
                    };
                    assert(entry@ == em);
                    assert(self@ =~= old(self)@.update(i as int, em));
                    lemma_wf_update_bus(old(self)@, i as int, em.bus);
                }
                return Some(outcome);
            }
            assert(self@[i as int].championship_id != championship_id);
            i = i + 1;
        }
        proof {
            assert(!has_cid(self@, championship_id)) by {
                if has_cid(self@, championship_id) {
                    let p = choose|p: int|
                        0 <= p < self@.len() && self@[p].championship_id == championship_id;
                    assert(self@[p].championship_id != championship_id);
                }
            }
        }
        None
    }

    /// Marks the championship's bus closed, as the ingest loop's exit
    /// drops the sender: drained subscribers then observe end of
    /// stream.  Returns whether such a listener exists.
    pub fn close_channel(&mut self, championship_id: u32) -> (r: bool)
        requires
            reg_wf(old(self)@),
        ensures
            reg_wf(final(self)@),
            r == has_cid(old(self)@, championship_id),
            r ==> {
                let i = idx_of_cid(old(self)@, championship_id);
                final(self)@ == old(self)@.update(
                    i,
                    EntryModel {
                        bus: BusModel { closed: true, ..old(self)@[i].bus },
                        ..old(self)@[i]
                    },
                )
            },
            !r ==> final(self)@ == old(self)@,
    {
        let n = self.entries.len();
        let mut i: usize = 0;
        while i < n
            invariant
                i <= n,
                n == self@.len(),
                self@ == old(self)@,
                reg_wf(old(self)@),
                forall|j: int|
                    0 <= j < i ==> (#[trigger] self@[j]).championship_id != championship_id,
            decreases n - i,
        {
            if self.entries[i].championship_id == championship_id {
                proof {
                    lemma_cid_index(self@, championship_id, i as int);
                }
                let mut entry = self.entries.remove(i);
                assert(entry@ == old(self)@[i as int]);
                assert(bus_wf(entry@.bus));
                entry.bus.close();
                self.entries.insert(i, entry);
                proof {
                    let em = EntryModel {
                        bus: BusModel { closed: true, ..old(self)@[i as int].bus },
                        ..old(self)@[i as int]
                    };
                    assert(entry@ == em);
                    assert(bus_wf(em.bus));
                    assert(self@ =~= old(self)@.update(i as int, em));
                    lemma_wf_update_bus(old(self)@, i as int, em.bus);
                }
                return true;
            }
            assert(self@[i as int].championship_id != championship_id);
            i = i + 1;
        }
        proof {
            assert(!has_cid(self@, championship_id)) by {
                if has_cid(self@, championship_id) {
                    let p = choose|p: int|
                        0 <= p < self@.len() && self@[p].championship_id == championship_id;
                    assert(self@[p].championship_id != championship_id);
                }
            }
        }
        false
    }
}

impl ListenerEntry {
    /// The championship this entry serves.
    pub fn championship_id(&self) -> (r: u32)
        ensures
            r == self@.championship_id,
    {
        self.championship_id
    }

    /// The UDP port this entry's listener is bound to.
    pub fn port(&self) -> (r: u16)
        ensures
            r == self@.port,
    {
        self.port
    }
}

} // verus!
