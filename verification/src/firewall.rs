//! The firewall controller's rule set, modelled.
//!
//! The host packet filter holds at most one rule per port: `Open`
//! (accept UDP from anywhere) or `Pinned` (accept UDP from one source
//! only).  Each operation first removes any pre-existing rule for the
//! port, which keeps the rule set idempotent across restarts; pinning
//! twice with the same pair is proved to be a no-op.  The driver
//! mirrors these transitions onto the host's packet filter; on hosts
//! without one it performs nothing, which spec-wise leaves every port
//! unfiltered.

use vstd::prelude::*;

verus! {

/// What a port's rule lets through.
#[derive(Clone, Copy, Debug, PartialEq, Eq, Structural)]
pub enum FilterState {
    /// Inbound UDP from any source.
    Open,
    /// Inbound UDP from this source only.
    Pinned { source_ip: u32 },
}

/// One rule of the packet filter.
#[derive(Clone, Copy, Debug, PartialEq, Eq, Structural)]
pub struct FirewallRule {
    pub port: u16,
    pub state: FilterState,
}

/// Some rule references this port.
pub open spec fn has_rule(s: Seq<FirewallRule>, port: u16) -> bool {
    exists|i: int| 0 <= i < s.len() && s[i].port == port
}

/// The index of the port's rule (meaningful under [`has_rule`];
/// unique under [`fw_wf`]).
pub open spec fn idx_of_rule(s: Seq<FirewallRule>, port: u16) -> int {
    choose|i: int| 0 <= i < s.len() && s[i].port == port
}

/// The rule-set invariant: at most one rule per port.
pub open spec fn fw_wf(s: Seq<FirewallRule>) -> bool {
    forall|i: int, j: int| 0 <= i < j < s.len() ==> s[i].port != s[j].port
}

/// What the filter allows on `port`: its rule's state, or `None` for
/// an unreferenced port.
pub open spec fn rule_of(s: Seq<FirewallRule>, port: u16) -> Option<FilterState> {
    if has_rule(s, port) {
        Some(s[idx_of_rule(s, port)].state)
    } else {
        None
    }
}

/// `s` without any rule for `port`.
pub open spec fn spec_remove_rule(s: Seq<FirewallRule>, port: u16) -> Seq<FirewallRule> {
    if has_rule(s, port) {
        s.remove(idx_of_rule(s, port))
    } else {
        s
    }
}

/// The rule set after `open(port)`.
pub open spec fn spec_open(s: Seq<FirewallRule>, port: u16) -> Seq<FirewallRule> {
    spec_remove_rule(s, port).push(FirewallRule { port, state: FilterState::Open })
}

/// The rule set after `pin(port, source_ip)`.
pub open spec fn spec_pin(s: Seq<FirewallRule>, port: u16, source_ip: u32) -> Seq<FirewallRule> {
    spec_remove_rule(s, port).push(
        FirewallRule { port, state: FilterState::Pinned { source_ip } },
    )
}

/// The rule set after `close(port)`.
pub open spec fn spec_close(s: Seq<FirewallRule>, port: u16) -> Seq<FirewallRule> {
    spec_remove_rule(s, port)
}

/// Under [`fw_wf`], a port's rule is at one index only.
pub proof fn lemma_rule_index(s: Seq<FirewallRule>, port: u16, i: int)
    requires
        fw_wf(s),
        0 <= i < s.len(),
        s[i].port == port,
    ensures
        has_rule(s, port),
        idx_of_rule(s, port) == i,
{
    assert(has_rule(s, port));
    let j = idx_of_rule(s, port);
    if i < j {
        assert(s[i].port != s[j].port);
    } else if j < i {
        assert(s[j].port != s[i].port);
    }
}

/// Removing a port's rule keeps the invariant, drops that port, and
/// leaves every other port's rule as it was.
pub proof fn lemma_remove_rule(s: Seq<FirewallRule>, port: u16)
    requires
        fw_wf(s),
    ensures
        fw_wf(spec_remove_rule(s, port)),
        !has_rule(spec_remove_rule(s, port), port),
        forall|q: u16| q != port ==> rule_of(spec_remove_rule(s, port), q) == rule_of(s, q),
{
    let t = spec_remove_rule(s, port);
    if has_rule(s, port) {
        let i = idx_of_rule(s, port);
        assert(0 <= i < s.len() && s[i].port == port);
        assert forall|x: int, y: int| 0 <= x < y < t.len() implies t[x].port != t[y].port by {
            let sx: int = if x < i {
                x
            } else {
                x + 1
            };
            let sy: int = if y < i {
                y
            } else {
                y + 1
            };
            assert(t[x] == s[sx]);
            assert(t[y] == s[sy]);
            assert(s[sx].port != s[sy].port);
        }
        assert(!has_rule(t, port)) by {
            if has_rule(t, port) {
                let k = choose|k: int| 0 <= k < t.len() && t[k].port == port;
                let sk: int = if k < i {
                    k
                } else {
                    k + 1
                };
                assert(t[k] == s[sk]);
                assert(sk != i);
                assert(s[sk].port != s[i].port);
            }
        }
        assert forall|q: u16| q != port implies rule_of(t, q) == rule_of(s, q) by {
            if has_rule(s, q) {
                let k = idx_of_rule(s, q);
                assert(0 <= k < s.len() && s[k].port == q);
                assert(k != i);
                let tk: int = if k < i {
                    k
                } else {
                    k - 1
                };
                assert(t[tk] == s[k]);
                lemma_rule_index(t, q, tk);
                assert(rule_of(t, q) == Some(s[k].state));
            } else {
                assert(!has_rule(t, q)) by {
                    if has_rule(t, q) {
                        let k = choose|k: int| 0 <= k < t.len() && t[k].port == q;
                        let sk: int = if k < i {
                            k
                        } else {
                            k + 1
                        };
                        assert(t[k] == s[sk]);
                        assert(has_rule(s, q));
                    }
                }
            }
        }
    }
}

/// After `open`, the port accepts from any source; other ports are
/// untouched.
pub proof fn lemma_open_effect(s: Seq<FirewallRule>, port: u16)
    requires
        fw_wf(s),
    ensures
        fw_wf(spec_open(s, port)),
        rule_of(spec_open(s, port), port) == Some(FilterState::Open),
        forall|q: u16| q != port ==> rule_of(spec_open(s, port), q) == rule_of(s, q),
{
    lemma_remove_rule(s, port);
    lemma_push_rule(spec_remove_rule(s, port), port, FilterState::Open);
}

/// After `pin`, the port accepts from the pinned source only; other
/// ports are untouched.
pub proof fn lemma_pin_effect(s: Seq<FirewallRule>, port: u16, source_ip: u32)
    requires
        fw_wf(s),
    ensures
        fw_wf(spec_pin(s, port, source_ip)),
        rule_of(spec_pin(s, port, source_ip), port) == Some(
            FilterState::Pinned { source_ip },
        ),
        forall|q: u16| q != port ==> rule_of(spec_pin(s, port, source_ip), q) == rule_of(s, q),
{
    lemma_remove_rule(s, port);
    lemma_push_rule(spec_remove_rule(s, port), port, FilterState::Pinned { source_ip });
}

/// After `close`, the port has no rule; other ports are untouched.
pub proof fn lemma_close_effect(s: Seq<FirewallRule>, port: u16)
    requires
        fw_wf(s),
    ensures
        fw_wf(spec_close(s, port)),
        rule_of(spec_close(s, port), port) is None,
        forall|q: u16| q != port ==> rule_of(spec_close(s, port), q) == rule_of(s, q),
{
    lemma_remove_rule(s, port);
}

/// Pinning the same pair twice is a no-op: the second pin yields the
/// very same rule set.
pub proof fn lemma_pin_idempotent(s: Seq<FirewallRule>, port: u16, source_ip: u32)
    requires
        fw_wf(s),
    ensures
        spec_pin(spec_pin(s, port, source_ip), port, source_ip) == spec_pin(s, port, source_ip),
{
    let t = spec_pin(s, port, source_ip);
    lemma_pin_effect(s, port, source_ip);
    let last = t.len() - 1;
    assert(t[last].port == port);
    lemma_rule_index(t, port, last);
    assert(spec_remove_rule(t, port) =~= t.remove(last));
    assert(t.remove(last) =~= spec_remove_rule(s, port));
    assert(spec_pin(t, port, source_ip) =~= t);
}

/// Pushing a rule for an unreferenced port keeps the invariant, sets
/// that port, and leaves every other port's rule as it was.
proof fn lemma_push_rule(s: Seq<FirewallRule>, port: u16, state: FilterState)
    requires
        fw_wf(s),
        !has_rule(s, port),
    ensures
        fw_wf(s.push(FirewallRule { port, state })),
        rule_of(s.push(FirewallRule { port, state }), port) == Some(state),
        forall|q: u16| q != port ==> rule_of(s.push(FirewallRule { port, state }), q) == rule_of(
            s,
            q,
        ),
{
    let t = s.push(FirewallRule { port, state });
    assert forall|x: int, y: int| 0 <= x < y < t.len() implies t[x].port != t[y].port by {
        if y < t.len() - 1 {
            assert(s[x].port != s[y].port);
        } else {
            assert(t[x] == s[x]);
            assert(!(s[x].port == port)) by {
                if s[x].port == port {
                    assert(has_rule(s, port));
                }
            }
        }
    }
    let last = t.len() - 1;
    assert(t[last].port == port);
    lemma_rule_index(t, port, last);
    assert forall|q: u16| q != port implies rule_of(t, q) == rule_of(s, q) by {
        if has_rule(s, q) {
            let k = idx_of_rule(s, q);
            assert(0 <= k < s.len() && s[k].port == q);
            assert(t[k] == s[k]);
            lemma_rule_index(t, q, k);
        } else {
            assert(!has_rule(t, q)) by {
                if has_rule(t, q) {
                    let k = choose|k: int| 0 <= k < t.len() && t[k].port == q;
                    if k < t.len() - 1 {
                        assert(t[k] == s[k]);
                        assert(has_rule(s, q));
                    } else {
                        assert(t[k].port == port);
                    }
                }
            }
        }
    }
}

/// The firewall controller's view of the host packet filter.
pub struct Firewall {
    rules: Vec<FirewallRule>,
}

impl View for Firewall {
    type V = Seq<FirewallRule>;

    closed spec fn view(&self) -> Seq<FirewallRule> {
        self.rules@
    }
}

impl Firewall {
    /// A filter with no rules.
    pub fn new() -> (r: Firewall)
        ensures
            r@.len() == 0,
            fw_wf(r@),
    {
        Firewall { rules: Vec::new() }
    }

    /// The rule in force for `port`, if any.
    pub fn rule(&self, port: u16) -> (r: Option<FilterState>)
        requires
            fw_wf(self@),
        ensures
            r == rule_of(self@, port),
    {
        let n = self.rules.len();
        let mut i: usize = 0;
        while i < n
            invariant
                i <= n,
                n == self@.len(),
                fw_wf(self@),
                forall|j: int| 0 <= j < i ==> (#[trigger] self@[j]).port != port,
            decreases n - i,
        {
            if self.rules[i].port == port {
                proof {
                    lemma_rule_index(self@, port, i as int);
                }
                return Some(self.rules[i].state);
            }
            assert(self@[i as int].port != port);
            i = i + 1;
        }
        proof {
            assert(!has_rule(self@, port)) by {
                if has_rule(self@, port) {
                    let p = choose|p: int| 0 <= p < self@.len() && self@[p].port == port;
                    assert(self@[p].port != port);
                }
            }
        }
        None
    }

    /// Permits inbound UDP on `port` from any source, replacing any
    /// pre-existing rule for the port.
    pub fn open(&mut self, port: u16)
        requires
            fw_wf(old(self)@),
        ensures
            fw_wf(final(self)@),
            final(self)@ == spec_open(old(self)@, port),
    {
        self.remove_rule(port);
        self.rules.push(FirewallRule { port, state: FilterState::Open });
        proof {
            lemma_open_effect(old(self)@, port);
        }
    }

    /// Restricts `port` to `source_ip`, replacing any pre-existing
    /// rule for the port.
    pub fn pin(&mut self, port: u16, source_ip: u32)
        requires
            fw_wf(old(self)@),
        ensures
            fw_wf(final(self)@),
            final(self)@ == spec_pin(old(self)@, port, source_ip),
    {
        self.remove_rule(port);
        self.rules.push(FirewallRule { port, state: FilterState::Pinned { source_ip } });
        proof {
            lemma_pin_effect(old(self)@, port, source_ip);
        }
    }

    /// Removes whatever rule `port` has.
    pub fn close(&mut self, port: u16)
        requires
            fw_wf(old(self)@),
        ensures
            fw_wf(final(self)@),
            final(self)@ == spec_close(old(self)@, port),
    {
        self.remove_rule(port);
        proof {
            lemma_close_effect(old(self)@, port);
        }
    }

    /// Removes the port's rule, if present.
    fn remove_rule(&mut self, port: u16)
        requires
            fw_wf(old(self)@),
        ensures
            fw_wf(final(self)@),
            final(self)@ == spec_remove_rule(old(self)@, port),
    {
        let n = self.rules.len();
        let mut i: usize = 0;
        while i < n
            invariant
                i <= n,
                n == self@.len(),
                self@ == old(self)@,
                fw_wf(old(self)@),
                forall|j: int| 0 <= j < i ==> (#[trigger] self@[j]).port != port,
            decreases n - i,
        {
            if self.rules[i].port == port {
                proof {
                    lemma_rule_index(self@, port, i as int);
                    lemma_remove_rule(old(self)@, port);
                }
                self.rules.remove(i);
                return ;
            }
            assert(self@[i as int].port != port);
            i = i + 1;
        }
        proof {
            assert(!has_rule(self@, port)) by {
                if has_rule(self@, port) {
                    let p = choose|p: int| 0 <= p < self@.len() && self@[p].port == port;
                    assert(self@[p].port != port);
                }
            }
        }
    }
}

} // verus!
