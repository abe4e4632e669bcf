//! The snapshot store: the key/value store's observable semantics.
//!
//! Snapshots are written under structured keys with a fixed
//! time-to-live and never explicitly deleted; a write replaces the
//! key's previous entry.  The contract of the store is that a reader
//! can recover the latest unexpired snapshot per key.  The driver
//! mirrors each [`put`](SnapshotStore::put) to the external store;
//! this structure is the contract it must meet.

use vstd::prelude::*;

use crate::ingest::SnapshotKey;
use crate::ingest::SNAPSHOT_TTL_SECS;

verus! {

/// Model of [`SnapshotEntry`].
pub struct SnapshotEntryModel {
    pub key: SnapshotKey,
    pub payload: Seq<u8>,
    pub expires_at_ms: u64,
}

/// One stored snapshot: its key, its bytes, and when it lapses.
pub struct SnapshotEntry {
    key: SnapshotKey,
    payload: Vec<u8>,
    expires_at_ms: u64,
}

impl View for SnapshotEntry {
    type V = SnapshotEntryModel;

    closed spec fn view(&self) -> SnapshotEntryModel {
        SnapshotEntryModel {
            key: self.key,
            payload: self.payload@,
            expires_at_ms: self.expires_at_ms,
        }
    }
}

/// Some entry carries this key.
pub open spec fn has_key(s: Seq<SnapshotEntryModel>, key: SnapshotKey) -> bool {
    exists|i: int| 0 <= i < s.len() && s[i].key == key
}

/// The index of the key's entry (meaningful under [`has_key`]; unique
/// under [`store_wf`]).
pub open spec fn idx_of_key(s: Seq<SnapshotEntryModel>, key: SnapshotKey) -> int {
    choose|i: int| 0 <= i < s.len() && s[i].key == key
}

/// The store invariant: at most one entry per key.
pub open spec fn store_wf(s: Seq<SnapshotEntryModel>) -> bool {
    forall|i: int, j: int| 0 <= i < j < s.len() ==> s[i].key != s[j].key
}

/// Under [`store_wf`], a key's entry is at one index only.
pub proof fn lemma_key_index(s: Seq<SnapshotEntryModel>, key: SnapshotKey, i: int)
    requires
        store_wf(s),
        0 <= i < s.len(),
        s[i].key == key,
    ensures
        has_key(s, key),
        idx_of_key(s, key) == i,
{
    assert(has_key(s, key));
    let j = idx_of_key(s, key);
    if i < j {
        assert(s[i].key != s[j].key);
    } else if j < i {
        assert(s[j].key != s[i].key);
    }
}

/// The in-memory image of the TTL-bounded snapshot store.
pub struct SnapshotStore {
    entries: Vec<SnapshotEntry>,
}

impl View for SnapshotStore {
    type V = Seq<SnapshotEntryModel>;

    closed spec fn view(&self) -> Seq<SnapshotEntryModel> {
        self.entries@.map_values(|e: SnapshotEntry| e@)
    }
}

impl SnapshotStore {
    /// An empty store.
    pub fn new() -> (r: SnapshotStore)
        ensures
            r@.len() == 0,
            store_wf(r@),
    {
        let r = SnapshotStore { entries: Vec::new() };
        proof {
            assert(r@ =~= Seq::<SnapshotEntryModel>::empty());
        }
        r
    }

    /// Writes a snapshot at time `now_ms`: the key's previous entry,
    /// if any, is replaced; the new entry lapses after the fixed TTL.
    pub fn put(&mut self, key: SnapshotKey, payload: Vec<u8>, now_ms: u64)
        requires
            store_wf(old(self)@),
            now_ms + SNAPSHOT_TTL_SECS * 1000 <= u64::MAX,
        ensures
            store_wf(final(self)@),
            has_key(final(self)@, key),
            ({
                let e = final(self)@[idx_of_key(final(self)@, key)];
                e.payload == payload@ && e.expires_at_ms == now_ms + SNAPSHOT_TTL_SECS * 1000
            }),
            forall|q: SnapshotKey|
                q != key ==> (has_key(final(self)@, q) == has_key(old(self)@, q) && (has_key(
                    old(self)@,
                    q,
                ) ==> final(self)@[idx_of_key(final(self)@, q)] == old(self)@[idx_of_key(
                    old(self)@,
                    q,
                )])),
    {
        let expires_at_ms = now_ms + SNAPSHOT_TTL_SECS * 1000;
        let n = self.entries.len();
        let mut i: usize = 0;
        let mut removed = false;
        while i < n && !removed
            invariant
                i <= n,
                n == self@.len() + if removed {
                    1int
                } else {
                    0int
                },
                store_wf(old(self)@),
                !removed ==> self@ == old(self)@,
                removed ==> has_key(old(self)@, key) && self@ == old(self)@.remove(
                    idx_of_key(old(self)@, key),
                ) && !has_key(self@, key),
                !removed ==> forall|j: int|
                    0 <= j < i ==> (#[trigger] self@[j]).key != key,
            decreases n - i + if removed {
                0int
            } else {
                1int
            },
        {
            if self.entries[i].key == key {
                proof {
                    lemma_key_index(self@, key, i as int);
                }
                self.entries.remove(i);
                proof {
                    assert(self@ =~= old(self)@.remove(i as int));
                    assert forall|k: int| 0 <= k < self@.len() implies (
                    #[trigger] self@[k]).key != key by {
                        if k < i {
                            assert(self@[k] == old(self)@[k]);
                            assert(old(self)@[k].key != old(self)@[i as int].key);
                        } else {
                            assert(self@[k] == old(self)@[k + 1]);
                            assert(old(self)@[i as int].key != old(self)@[k + 1].key);
                        }
                    }
                    assert(!has_key(self@, key)) by {
                        if has_key(self@, key) {
                            let p = choose|p: int|
                                0 <= p < self@.len() && self@[p].key == key;
                            assert(self@[p].key != key);
                        }
                    }
                }
                removed = true;
            } else {
                assert(self@[i as int].key != key);
                i = i + 1;
            }
        }
        if !removed {
            proof {
                assert(!has_key(self@, key)) by {
                    if has_key(self@, key) {
                        let p = choose|p: int| 0 <= p < self@.len() && self@[p].key == key;
                        assert(self@[p].key != key);
                    }
                }
            }
        }
        let ghost trimmed = self@;
        let entry = SnapshotEntry { key, payload, expires_at_ms };
        self.entries.push(entry);
        proof {
            assert(self@ =~= trimmed.push(entry@));
            lemma_put_tail(old(self)@, trimmed, entry@, key);
        }
    }

    /// The latest unexpired snapshot of a key: its bytes, exactly
    /// when an entry exists whose expiry lies after `now_ms`.
    pub fn get(&self, key: SnapshotKey, now_ms: u64) -> (r: Option<&Vec<u8>>)
        requires
            store_wf(self@),
        ensures
            r is Some <==> has_key(self@, key) && self@[idx_of_key(self@, key)].expires_at_ms
                > now_ms,
            r matches Some(v) ==> v@ == self@[idx_of_key(self@, key)].payload,
    {
        let n = self.entries.len();
        let mut i: usize = 0;
        while i < n
            invariant
                i <= n,
                n == self@.len(),
                store_wf(self@),
                forall|j: int| 0 <= j < i ==> (#[trigger] self@[j]).key != key,
            decreases n - i,
        {
            if self.entries[i].key == key {
                proof {
                    lemma_key_index(self@, key, i as int);
                }
                if self.entries[i].expires_at_ms > now_ms {
                    return Some(&self.entries[i].payload);
                }
                return None;
            }
            assert(self@[i as int].key != key);
            i = i + 1;
        }
        proof {
            assert(!has_key(self@, key)) by {
                if has_key(self@, key) {
                    let p = choose|p: int| 0 <= p < self@.len() && self@[p].key == key;
                    assert(self@[p].key != key);
                }
            }
        }
        None
    }
}

/// The state after trimming the key and appending its new entry:
/// well-formed, the key's entry is the appended one, and every other
/// key is exactly as before.
proof fn lemma_put_tail(
    before: Seq<SnapshotEntryModel>,
    trimmed: Seq<SnapshotEntryModel>,
    entry: SnapshotEntryModel,
    key: SnapshotKey,
)
    requires
        store_wf(before),
        entry.key == key,
        trimmed == before || (has_key(before, key) && trimmed == before.remove(
            idx_of_key(before, key),
        )),
        !has_key(trimmed, key),
    ensures
        store_wf(trimmed.push(entry)),
        has_key(trimmed.push(entry), key),
        trimmed.push(entry)[idx_of_key(trimmed.push(entry), key)] == entry,
        forall|q: SnapshotKey|
            q != key ==> (has_key(trimmed.push(entry), q) == has_key(before, q) && (has_key(
                before,
                q,
            ) ==> trimmed.push(entry)[idx_of_key(trimmed.push(entry), q)] == before[idx_of_key(
                before,
                q,
            )])),
{
    let t = trimmed.push(entry);
    if trimmed == before {
        assert(store_wf(trimmed));
    } else {
        let i = idx_of_key(before, key);
        assert(trimmed == before.remove(i));
        assert forall|x: int, y: int| 0 <= x < y < trimmed.len() implies trimmed[x].key
            != trimmed[y].key by {
            let sx: int = if x < i {
                x
            } else {
                x + 1
            };
            let sy: int = if y < i {
                y
            } else {
                y + 1
            };
            assert(trimmed[x] == before[sx]);
            assert(trimmed[y] == before[sy]);
            assert(before[sx].key != before[sy].key);
        }
    }
    assert forall|x: int, y: int| 0 <= x < y < t.len() implies t[x].key != t[y].key by {
        if y < t.len() - 1 {
            assert(trimmed[x].key != trimmed[y].key);
        } else {
            assert(t[x] == trimmed[x]);
            assert(!(trimmed[x].key == key)) by {
                if trimmed[x].key == key {
                    assert(has_key(trimmed, key));
                }
            }
        }
    }
    let last = t.len() - 1;
    assert(t[last].key == key);
    lemma_key_index(t, key, last);
    assert forall|q: SnapshotKey| q != key implies (has_key(t, q) == has_key(before, q) && (
    has_key(before, q) ==> t[idx_of_key(t, q)] == before[idx_of_key(before, q)])) by {
        if has_key(before, q) {
            let k = idx_of_key(before, q);
            assert(0 <= k < before.len() && before[k].key == q);
            if trimmed == before {
                assert(t[k] == before[k]);
                lemma_key_index(t, q, k);
            } else {
                let i = idx_of_key(before, key);
                assert(k != i);
                let tk: int = if k < i {
                    k
                } else {
                    k - 1
                };
                assert(trimmed[tk] == before[k]);
                assert(t[tk] == before[k]);
                lemma_key_index(t, q, tk);
            }
        } else {
            assert(!has_key(t, q)) by {
                if has_key(t, q) {
                    let k = choose|k: int| 0 <= k < t.len() && t[k].key == q;
                    if k < t.len() - 1 {
                        assert(t[k] == trimmed[k]);
                        if trimmed == before {
                            assert(has_key(before, q));
                        } else {
                            let i = idx_of_key(before, key);
                            let sk: int = if k < i {
                                k
                            } else {
                                k + 1
                            };
                            assert(trimmed[k] == before[sk]);
                            assert(has_key(before, q));
                        }
                    } else {
                        assert(t[k].key == key);
                    }
                }
            }
        }
    }
}

} // verus!
