//! The event table: the relational store's observable semantics.
//!
//! Rows are keyed by `(session_uid, event_code)`.  The first event of
//! a pair inserts a list of one; every later event appends, so a
//! row's list is exactly the payloads in arrival order.  The driver
//! mirrors each [`upsert`](EventTable::upsert) to the external store;
//! this structure is the contract it must meet.

use vstd::prelude::*;

use crate::packets::EventCode;

verus! {

/// Model of [`EventRow`].
pub struct EventRowModel {
    pub session_uid: u64,
    pub code: EventCode,
    pub events: Seq<Seq<u8>>,
}

/// One row: a session, a four-byte code, the payloads in arrival
/// order.
pub struct EventRow {
    session_uid: u64,
    code: EventCode,
    events: Vec<Vec<u8>>,
}

impl View for EventRow {
    type V = EventRowModel;

    closed spec fn view(&self) -> EventRowModel {
        EventRowModel {
            session_uid: self.session_uid,
            code: self.code,
            events: self.events@.map_values(|e: Vec<u8>| e@),
        }
    }
}

/// Some row carries this key.
pub open spec fn has_row(s: Seq<EventRowModel>, session_uid: u64, code: EventCode) -> bool {
    exists|i: int| 0 <= i < s.len() && s[i].session_uid == session_uid && s[i].code == code
}

/// The index of the row with this key (meaningful under [`has_row`];
/// unique under [`table_wf`]).
pub open spec fn row_idx(s: Seq<EventRowModel>, session_uid: u64, code: EventCode) -> int {
    choose|i: int| 0 <= i < s.len() && s[i].session_uid == session_uid && s[i].code == code
}

/// The table invariant: `(session_uid, code)` is a primary key.
pub open spec fn table_wf(s: Seq<EventRowModel>) -> bool {
    forall|i: int, j: int|
        0 <= i < j < s.len() ==> !(s[i].session_uid == s[j].session_uid && s[i].code == s[j].code)
}

/// Under [`table_wf`], a key's row is at one index only.
pub proof fn lemma_row_index(s: Seq<EventRowModel>, session_uid: u64, code: EventCode, i: int)
    requires
        table_wf(s),
        0 <= i < s.len(),
        s[i].session_uid == session_uid,
        s[i].code == code,
    ensures
        has_row(s, session_uid, code),
        row_idx(s, session_uid, code) == i,
{
    assert(has_row(s, session_uid, code));
    let j = row_idx(s, session_uid, code);
    if i < j {
        assert(!(s[i].session_uid == s[j].session_uid && s[i].code == s[j].code));
    } else if j < i {
        assert(!(s[j].session_uid == s[i].session_uid && s[j].code == s[i].code));
    }
}

/// The event table.
pub struct EventTable {
    rows: Vec<EventRow>,
}

impl View for EventTable {
    type V = Seq<EventRowModel>;

    closed spec fn view(&self) -> Seq<EventRowModel> {
        self.rows@.map_values(|r: EventRow| r@)
    }
}

impl EventTable {
    /// An empty table.
    pub fn new() -> (r: EventTable)
        ensures
            r@.len() == 0,
            table_wf(r@),
    {
        let r = EventTable { rows: Vec::new() };
        proof {
            assert(r@ =~= Seq::<EventRowModel>::empty());
        }
        r
    }

    /// Inserts a one-element list when the key is absent; appends to
    /// the key's list when it is present.
    pub fn upsert(&mut self, session_uid: u64, code: EventCode, payload: Vec<u8>)
        requires
            table_wf(old(self)@),
        ensures
            table_wf(final(self)@),
            !has_row(old(self)@, session_uid, code) ==> final(self)@ == old(self)@.push(
                EventRowModel { session_uid, code, events: seq![payload@] },
            ),
            has_row(old(self)@, session_uid, code) ==> {
                let i = row_idx(old(self)@, session_uid, code);
                final(self)@ == old(self)@.update(
                    i,
                    EventRowModel {
                        events: old(self)@[i].events.push(payload@),
                        ..old(self)@[i]
                    },
                )
            },
    {
        let n = self.rows.len();
        let mut i: usize = 0;
        while i < n
            invariant
                i <= n,
                n == self@.len(),
                self@ == old(self)@,
                table_wf(old(self)@),
                forall|j: int|
                    0 <= j < i ==> !((#[trigger] self@[j]).session_uid == session_uid
                        && self@[j].code == code),
            decreases n - i,
        {
            let hit = self.rows[i].session_uid == session_uid && self.rows[i].code.b0 == code.b0
                && self.rows[i].code.b1 == code.b1 && self.rows[i].code.b2 == code.b2
                && self.rows[i].code.b3 == code.b3;
            if hit {
                assert(self@[i as int].session_uid == session_uid && self@[i as int].code
                    == code);
                proof {
                    lemma_row_index(self@, session_uid, code, i as int);
                }
                let mut row = self.rows.remove(i);
                assert(row@ == old(self)@[i as int]);
                let ghost events_before = row@.events;
                row.events.push(payload);
                proof {
                    assert(row@.events =~= events_before.push(payload@));
                }
                self.rows.insert(i, row);
                proof {
                    let em = EventRowModel {
                        events: old(self)@[i as int].events.push(payload@),
                        ..old(self)@[i as int]
                    };
                    assert(row@ == em);
                    assert(self@ =~= old(self)@.update(i as int, em));
                    let t = self@;
                    assert forall|x: int, y: int| 0 <= x < y < t.len() implies !(t[x].session_uid
                        == t[y].session_uid && t[x].code == t[y].code) by {
                        assert(t[x].session_uid == old(self)@[x].session_uid && t[x].code == old(
                            self,
                        )@[x].code);
                        assert(t[y].session_uid == old(self)@[y].session_uid && t[y].code == old(
                            self,
                        )@[y].code);
                        assert(!(old(self)@[x].session_uid == old(self)@[y].session_uid && old(
                            self,
                        )@[x].code == old(self)@[y].code));
                    }
                }
                return ;
            }
            assert(!(self@[i as int].session_uid == session_uid && self@[i as int].code == code));
            i = i + 1;
        }
        proof {
            assert(!has_row(self@, session_uid, code)) by {
                if has_row(self@, session_uid, code) {
                    let p = choose|p: int|
                        0 <= p < self@.len() && self@[p].session_uid == session_uid && self@[
                            p
                        ].code == code;
                    assert(!(self@[p].session_uid == session_uid && self@[p].code == code));
                }
            }
        }
        let row = EventRow { session_uid, code, events: vec![payload] };
        proof {
            assert(row@.events =~= seq![payload@]);
        }
        self.rows.push(row);
        proof {
            assert(self@ =~= old(self)@.push(
                EventRowModel { session_uid, code, events: seq![payload@] },
            ));
            let t = self@;
            assert forall|x: int, y: int| 0 <= x < y < t.len() implies !(t[x].session_uid == t[
                y
            ].session_uid && t[x].code == t[y].code) by {
                if y < t.len() - 1 {
                    assert(!(old(self)@[x].session_uid == old(self)@[y].session_uid && old(
                        self,
                    )@[x].code == old(self)@[y].code));
                } else {
                    assert(t[x] == old(self)@[x]);
                }
            }
        }
    }

    /// How many keys have at least one event.
    pub fn len(&self) -> (r: usize)
        ensures
            r == self@.len(),
    {
        self.rows.len()
    }

    /// The payload list of a key, or `None` exactly when the key has
    /// no row.
    pub fn events(&self, session_uid: u64, code: EventCode) -> (r: Option<&Vec<Vec<u8>>>)
        requires
            table_wf(self@),
        ensures
            r is Some <==> has_row(self@, session_uid, code),
            r matches Some(v) ==> v@.map_values(|e: Vec<u8>| e@) == self@[row_idx(
                self@,
                session_uid,
                code,
            )].events,
    {
        let n = self.rows.len();
        let mut i: usize = 0;
        while i < n
            invariant
                i <= n,
                n == self@.len(),
                table_wf(self@),
                forall|j: int|
                    0 <= j < i ==> !((#[trigger] self@[j]).session_uid == session_uid
                        && self@[j].code == code),
            decreases n - i,
        {
            let hit = self.rows[i].session_uid == session_uid && self.rows[i].code.b0 == code.b0
                && self.rows[i].code.b1 == code.b1 && self.rows[i].code.b2 == code.b2
                && self.rows[i].code.b3 == code.b3;
            if hit {
                assert(self@[i as int].session_uid == session_uid && self@[i as int].code
                    == code);
                proof {
                    lemma_row_index(self@, session_uid, code, i as int);
                }
                return Some(&self.rows[i].events);
            }
            assert(!(self@[i as int].session_uid == session_uid && self@[i as int].code == code));
            i = i + 1;
        }
        proof {
            assert(!has_row(self@, session_uid, code)) by {
                if has_row(self@, session_uid, code) {
                    let p = choose|p: int|
                        0 <= p < self@.len() && self@[p].session_uid == session_uid && self@[
                            p
                        ].code == code;
                    assert(!(self@[p].session_uid == session_uid && self@[p].code == code));
                }
            }
        }
        None
    }
}

} // verus!
