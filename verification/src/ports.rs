//! The pool of UDP ports not yet assigned to a championship.
//!
//! The pool is seeded with the whole fixed range minus the ports
//! already in use and kept in ascending order, so handing out its
//! first element hands out the lowest free port; assignment removes
//! the port from the pool.

use vstd::prelude::*;

use crate::registry::PORT_MAX;
use crate::registry::PORT_MIN;

verus! {

/// The pool invariant: strictly ascending (hence duplicate-free),
/// everything in the fixed range.
pub open spec fn pool_wf(s: Seq<u16>) -> bool {
    &&& forall|i: int, j: int| 0 <= i < j < s.len() ==> s[i] < s[j]
    &&& forall|i: int| 0 <= i < s.len() ==> PORT_MIN <= (#[trigger] s[i]) <= PORT_MAX
}

/// The position of `port` in `s` (meaningful when `s` contains it;
/// unique under [`pool_wf`]).
pub open spec fn idx_of_port(s: Seq<u16>, port: u16) -> int {
    choose|i: int| 0 <= i < s.len() && s[i] == port
}

/// Under [`pool_wf`], a port sits at one position only.
pub proof fn lemma_port_index(s: Seq<u16>, port: u16, i: int)
    requires
        pool_wf(s),
        0 <= i < s.len(),
        s[i] == port,
    ensures
        s.contains(port),
        idx_of_port(s, port) == i,
{
    assert(s.contains(port));
    let j = idx_of_port(s, port);
    if i < j {
        assert(s[i] < s[j]);
    } else if j < i {
        assert(s[j] < s[i]);
    }
}

/// Whether `v` holds `x`.
fn contains_u16(v: &Vec<u16>, x: u16) -> (r: bool)
    ensures
        r == v@.contains(x),
{
    let n = v.len();
    let mut i: usize = 0;
    while i < n
        invariant
            i <= n,
            n == v@.len(),
            forall|j: int| 0 <= j < i ==> v@[j] != x,
        decreases n - i,
    {
        if v[i] == x {
            assert(v@[i as int] == x);
            assert(v@.contains(x));
            return true;
        }
        assert(v@[i as int] != x);
        i = i + 1;
    }
    proof {
        assert(!v@.contains(x)) by {
            if v@.contains(x) {
                let p = choose|p: int| 0 <= p < v@.len() && v@[p] == x;
                assert(v@[p] != x);
            }
        }
    }
    false
}

/// The ports available for new championships.
pub struct PortPool {
    ports: Vec<u16>,
}

impl View for PortPool {
    type V = Seq<u16>;

    closed spec fn view(&self) -> Seq<u16> {
        self.ports@
    }
}

impl PortPool {
    /// The whole port range minus `ports_in_use`, in ascending order.
    pub fn available_ports(ports_in_use: &Vec<u16>) -> (r: PortPool)
        ensures
            pool_wf(r@),
            forall|q: u16|
                r@.contains(q) <==> (PORT_MIN <= q <= PORT_MAX && !ports_in_use@.contains(q)),
    {
        let mut ports: Vec<u16> = Vec::new();
        let mut p: u16 = PORT_MIN;
        while p <= PORT_MAX
            invariant
                PORT_MIN <= p <= PORT_MAX + 1,
                forall|i: int| 0 <= i < ports@.len() ==> PORT_MIN <= (#[trigger] ports@[i]) < p,
                forall|i: int, j: int| 0 <= i < j < ports@.len() ==> ports@[i] < ports@[j],
                forall|q: u16|
                    ports@.contains(q) <==> (PORT_MIN <= q < p && !ports_in_use@.contains(q)),
            decreases PORT_MAX + 1 - p,
        {
            if !contains_u16(ports_in_use, p) {
                let ghost before = ports@;
                ports.push(p);
                proof {
                    assert(ports@ == before.push(p));
                    assert forall|x: int, y: int| 0 <= x < y < ports@.len() implies ports@[x]
                        < ports@[y] by {
                        if y < ports@.len() - 1 {
                            assert(before[x] < before[y]);
                        } else {
                            assert(ports@[x] == before[x]);
                            assert(before[x] < p);
                        }
                    }
                    assert forall|q: u16|
                        ports@.contains(q) <==> (PORT_MIN <= q < p + 1 && !ports_in_use@.contains(
                            q,
                        )) by {
                        if ports@.contains(q) {
                            let k = choose|k: int| 0 <= k < ports@.len() && ports@[k] == q;
                            if k < before.len() {
                                assert(before[k] == q);
                                assert(before.contains(q));
                            } else {
                                assert(q == p);
                            }
                        }
                        if PORT_MIN <= q < p + 1 && !ports_in_use@.contains(q) {
                            if q == p {
                                assert(ports@[ports@.len() - 1] == q);
                                assert(ports@.contains(q));
                            } else {
                                assert(before.contains(q));
                                let k = choose|k: int| 0 <= k < before.len() && before[k] == q;
                                assert(ports@[k] == q);
                                assert(ports@.contains(q));
                            }
                        }
                    }
                }
            } else {
                proof {
                    assert forall|q: u16|
                        ports@.contains(q) <==> (PORT_MIN <= q < p + 1 && !ports_in_use@.contains(
                            q,
                        )) by {
                        if PORT_MIN <= q < p + 1 && !ports_in_use@.contains(q) {
                            assert(q != p);
                        }
                    }
                }
            }
            p = p + 1;
        }
        PortPool { ports }
    }

    /// How many ports are free.
    pub fn len(&self) -> (r: usize)
        ensures
            r == self@.len(),
    {
        self.ports.len()
    }

    /// The lowest free port, or `None` exactly when the pool is empty.
    pub fn get_port(&self) -> (r: Option<u16>)
        requires
            pool_wf(self@),
        ensures
            r is Some <==> self@.len() > 0,
            r matches Some(p) ==> p == self@[0] && forall|i: int|
                0 <= i < self@.len() ==> p <= #[trigger] self@[i],
    {
        if self.ports.len() == 0 {
            None
        } else {
            proof {
                assert forall|i: int| 0 <= i < self@.len() implies self@[0] <= #[trigger] self@[
                    i
                ] by {
                    if i > 0 {
                        assert(self@[0] < self@[i]);
                    }
                }
            }
            Some(self.ports[0])
        }
    }

    /// Removes `port` from the pool on assignment.  Returns whether it
    /// was free; the pool is unchanged when it was not.
    pub fn remove_port(&mut self, port: u16) -> (r: bool)
        requires
            pool_wf(old(self)@),
        ensures
            pool_wf(final(self)@),
            r == old(self)@.contains(port),
            r ==> final(self)@ == old(self)@.remove(idx_of_port(old(self)@, port)),
            !r ==> final(self)@ == old(self)@,
            !final(self)@.contains(port),
    {
        let n = self.ports.len();
        let mut i: usize = 0;
        while i < n
            invariant
                i <= n,
                n == self@.len(),
                self@ == old(self)@,
                pool_wf(old(self)@),
                forall|j: int| 0 <= j < i ==> self@[j] != port,
            decreases n - i,
        {
            if self.ports[i] == port {
                proof {
                    lemma_port_index(self@, port, i as int);
                }
                self.ports.remove(i);
                proof {
                    let t = self@;
                    assert forall|x: int, y: int| 0 <= x < y < t.len() implies t[x] < t[y] by {
                        let sx: int = if x < i {
                            x
                        } else {
                            x + 1
                        };
                        let sy: int = if y < i {
                            y
                        } else {
                            y + 1
                        };
                        assert(t[x] == old(self)@[sx]);
                        assert(t[y] == old(self)@[sy]);
                        assert(old(self)@[sx] < old(self)@[sy]);
                    }
                    assert forall|x: int| 0 <= x < t.len() implies PORT_MIN <= (#[trigger] t[x])
                        <= PORT_MAX by {
                        let sx: int = if x < i {
                            x
                        } else {
                            x + 1
                        };
                        assert(t[x] == old(self)@[sx]);
                    }
                    assert(!t.contains(port)) by {
                        if t.contains(port) {
                            let k = choose|k: int| 0 <= k < t.len() && t[k] == port;
                            let sk: int = if k < i {
                                k
                            } else {
                                k + 1
                            };
                            assert(t[k] == old(self)@[sk]);
                            assert(old(self)@[sk] == old(self)@[i as int]);
                            assert(sk != i);
                        }
                    }
                }
                return true;
            }
            assert(self@[i as int] != port);
            i = i + 1;
        }
        proof {
            assert(!self@.contains(port)) by {
                if self@.contains(port) {
                    let k = choose|k: int| 0 <= k < self@.len() && self@[k] == port;
                    assert(self@[k] != port);
                }
            }
        }
        false
    }
}

} // verus!
