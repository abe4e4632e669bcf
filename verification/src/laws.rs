//! Laws of the ingest loop, proved over whole event traces.
//!
//! A trace is the sequence of events the driver fed to one listener,
//! each with the millisecond clock value at which it was fed.
//! [`run`] folds [`spec_step`] over a trace; [`step_actions`] is what
//! the loop emitted at one position.  The lemmas here state the
//! system-wide guarantees: firewall open/close pairing, the
//! publication rate caps of the sampled kinds, and the per-car
//! session-history deduplication.

use vstd::prelude::*;

use crate::ingest::is_terminal;
use crate::ingest::spec_step;
use crate::ingest::IngestActionModel;
use crate::ingest::IngestEventModel;
use crate::ingest::IngestModel;
use crate::ingest::Lifecycle;
use crate::ingest::HISTORY_INTERVAL_MS;
use crate::ingest::MOTION_INTERVAL_MS;
use crate::ingest::SESSION_INTERVAL_MS;
use crate::packets::PacketModel;
use crate::registry::has_cid;
use crate::registry::idx_of_cid;
use crate::registry::reg_wf;
use crate::registry::EntryModel;
use crate::registry::PORT_MAX;
use crate::registry::PORT_MIN;

verus! {

/// One observed input to the loop: the event and the clock value at
/// which the driver fed it.
pub struct TraceStep {
    pub ev: IngestEventModel,
    pub now_ms: u64,
}

/// The listener state after feeding the whole trace from `m0`.
pub open spec fn run(m0: IngestModel, tr: Seq<TraceStep>) -> IngestModel
    decreases tr.len(),
{
    if tr.len() == 0 {
        m0
    } else {
        spec_step(run(m0, tr.drop_last()), tr.last().ev, tr.last().now_ms).0
    }
}

/// What the loop emitted at position `k` of the trace.
pub open spec fn step_actions(m0: IngestModel, tr: Seq<TraceStep>, k: int) -> Seq<
    IngestActionModel,
> {
    spec_step(run(m0, tr.take(k)), tr[k].ev, tr[k].now_ms).1
}

/// Folding one more step.
pub proof fn lemma_run_take_succ(m0: IngestModel, tr: Seq<TraceStep>, k: int)
    requires
        0 <= k < tr.len(),
    ensures
        run(m0, tr.take(k + 1)) == spec_step(run(m0, tr.take(k)), tr[k].ev, tr[k].now_ms).0,
{
    assert(tr.take(k + 1).drop_last() =~= tr.take(k));
    assert(tr.take(k + 1).last() == tr[k]);
}

/// The whole trace is the trace taken whole.
pub proof fn lemma_run_take_all(m0: IngestModel, tr: Seq<TraceStep>)
    ensures
        run(m0, tr.take(tr.len() as int)) == run(m0, tr),
{
    assert(tr.take(tr.len() as int) =~= tr);
}

/// The action opens the firewall.
pub open spec fn is_open_act(a: IngestActionModel) -> bool {
    a is OpenFirewall
}

/// The action closes the firewall.
pub open spec fn is_close_act(a: IngestActionModel) -> bool {
    a is CloseFirewall
}

/// Some action in the sequence opens the firewall.
pub open spec fn has_open(acts: Seq<IngestActionModel>) -> bool {
    exists|i: int| 0 <= i < acts.len() && is_open_act(acts[i])
}

/// Some action in the sequence closes the firewall.
pub open spec fn has_close(acts: Seq<IngestActionModel>) -> bool {
    exists|i: int| 0 <= i < acts.len() && is_close_act(acts[i])
}

proof fn lemma_has_open_concat(a: Seq<IngestActionModel>, b: Seq<IngestActionModel>)
    ensures
        has_open(a + b) == (has_open(a) || has_open(b)),
{
    if has_open(a + b) {
        let i = choose|i: int| 0 <= i < (a + b).len() && is_open_act((a + b)[i]);
        if i < a.len() {
            assert(a[i] == (a + b)[i]);
        } else {
            assert(b[i - a.len()] == (a + b)[i]);
        }
    }
    if has_open(a) {
        let i = choose|i: int| 0 <= i < a.len() && is_open_act(a[i]);
        assert((a + b)[i] == a[i]);
    }
    if has_open(b) {
        let i = choose|i: int| 0 <= i < b.len() && is_open_act(b[i]);
        assert((a + b)[a.len() + i] == b[i]);
    }
}

proof fn lemma_has_close_concat(a: Seq<IngestActionModel>, b: Seq<IngestActionModel>)
    ensures
        has_close(a + b) == (has_close(a) || has_close(b)),
{
    if has_close(a + b) {
        let i = choose|i: int| 0 <= i < (a + b).len() && is_close_act((a + b)[i]);
        if i < a.len() {
            assert(a[i] == (a + b)[i]);
        } else {
            assert(b[i - a.len()] == (a + b)[i]);
        }
    }
    if has_close(a) {
        let i = choose|i: int| 0 <= i < a.len() && is_close_act(a[i]);
        assert((a + b)[i] == a[i]);
    }
    if has_close(b) {
        let i = choose|i: int| 0 <= i < b.len() && is_close_act(b[i]);
        assert((a + b)[a.len() + i] == b[i]);
    }
}

/// The listener is live: bound or pinned, not yet terminated.
pub open spec fn is_live(m: IngestModel) -> bool {
    m.lifecycle == Lifecycle::Bound || m.lifecycle == Lifecycle::Pinned
}

/// How one step treats the firewall: a terminal state stutters; the
/// firewall is opened exactly on a successful bind; it is closed
/// exactly when a live listener terminates; and a live listener never
/// falls back to `Created`.
pub proof fn lemma_step_firewall(m: IngestModel, ev: IngestEventModel, now_ms: u64)
    ensures
        is_terminal(m) ==> spec_step(m, ev, now_ms).0 == m && spec_step(m, ev, now_ms).1.len()
            == 0,
        has_open(spec_step(m, ev, now_ms).1) <==> (m.lifecycle == Lifecycle::Created
            && ev is BindOk),
        has_close(spec_step(m, ev, now_ms).1) ==> is_live(m),
        is_live(m) ==> (has_close(spec_step(m, ev, now_ms).1) <==> is_terminal(
            spec_step(m, ev, now_ms).0,
        )),
        is_live(spec_step(m, ev, now_ms).0) ==> (is_live(m) || (m.lifecycle
            == Lifecycle::Created && ev is BindOk)),
{
    let m2 = spec_step(m, ev, now_ms).0;
    let acts = spec_step(m, ev, now_ms).1;
    if is_terminal(m) {
        assert(!has_open(acts));
        assert(!has_close(acts));
    } else if m.lifecycle == Lifecycle::Created {
        match ev {
            IngestEventModel::BindOk => {
                assert(is_open_act(acts[0]));
                assert(has_open(acts));
                assert(!has_close(acts));
            },
            _ => {
                assert(!has_open(acts));
                assert(!has_close(acts));
            },
        }
    } else {
        match ev {
            IngestEventModel::StopRequested => {
                assert(is_close_act(acts[0]));
                assert(has_close(acts));
                assert(!has_open(acts));
            },
            IngestEventModel::FirewallFailed => {
                assert(is_close_act(acts[0]));
                assert(has_close(acts));
                assert(!has_open(acts));
            },
            IngestEventModel::Datagram { bytes, source_ip } => {
                lemma_datagram_firewall(m, bytes, source_ip, now_ms);
            },
            _ => {
                assert(!has_open(acts));
                assert(!has_close(acts));
            },
        }
    }
}

/// Firewall facts for the datagram case of a live listener.
proof fn lemma_datagram_firewall(m: IngestModel, bytes: Seq<u8>, source_ip: u32, now_ms: u64)
    requires
        is_live(m),
    ensures
        !has_open(crate::ingest::spec_datagram(m, bytes, source_ip, now_ms).1),
        has_close(crate::ingest::spec_datagram(m, bytes, source_ip, now_ms).1) <==> is_terminal(
            crate::ingest::spec_datagram(m, bytes, source_ip, now_ms).0,
        ),
        is_live(crate::ingest::spec_datagram(m, bytes, source_ip, now_ms).0) || is_terminal(
            crate::ingest::spec_datagram(m, bytes, source_ip, now_ms).0,
        ),
{
    let r = crate::ingest::spec_datagram(m, bytes, source_ip, now_ms);
    match crate::header::spec_decode_header(bytes) {
        Result::Err(_) => {
            assert(!has_open(r.1));
            assert(!has_close(r.1));
        },
        Result::Ok(h) => {
            let pinned = if m.lifecycle == Lifecycle::Bound {
                (
                    IngestModel { lifecycle: Lifecycle::Pinned, ..m },
                    seq![
                        IngestActionModel::PinFirewall { port: m.port, source_ip },
                    ],
                )
            } else {
                (m, seq![])
            };
            let m1 = pinned.0;
            let pre = pinned.1;
            assert(!has_open(pre));
            assert(!has_close(pre));
            assert(is_live(m1));
            if h.session_uid == 0 {
                let tail = seq![IngestActionModel::SleepIdle];
                assert(!has_open(tail));
                assert(!has_close(tail));
                lemma_has_open_concat(pre, tail);
                lemma_has_close_concat(pre, tail);
            } else {
                match crate::body::spec_decode_body(h.packet_id, bytes) {
                    Result::Err(_) => {
                        assert(!has_open(r.1));
                        assert(!has_close(r.1));
                    },
                    Result::Ok(p) => {
                        let stepped = crate::ingest::spec_dispatch(
                            m1,
                            h.session_uid,
                            p,
                            bytes,
                            now_ms,
                        );
                        lemma_dispatch_firewall(m1, h.session_uid, p, bytes, now_ms);
                        lemma_has_open_concat(pre, stepped.1);
                        lemma_has_close_concat(pre, stepped.1);
                    },
                }
            }
        },
    }
}

/// Firewall facts for the dispatch of one decoded packet.
proof fn lemma_dispatch_firewall(
    m: IngestModel,
    session_uid: u64,
    p: crate::packets::PacketModel,
    bytes: Seq<u8>,
    now_ms: u64,
)
    requires
        is_live(m),
    ensures
        !has_open(crate::ingest::spec_dispatch(m, session_uid, p, bytes, now_ms).1),
        has_close(crate::ingest::spec_dispatch(m, session_uid, p, bytes, now_ms).1)
            <==> is_terminal(crate::ingest::spec_dispatch(m, session_uid, p, bytes, now_ms).0),
        is_live(crate::ingest::spec_dispatch(m, session_uid, p, bytes, now_ms).0) || is_terminal(
            crate::ingest::spec_dispatch(m, session_uid, p, bytes, now_ms).0,
        ),
{
    let r = crate::ingest::spec_dispatch(m, session_uid, p, bytes, now_ms);
    match p {
        crate::packets::PacketModel::FinalClassification(_) => {
            assert(is_close_act(r.1[1]));
            assert(has_close(r.1));
            assert(!has_open(r.1));
        },
        crate::packets::PacketModel::SessionHistory(ph) => {
            assert(r.0.lifecycle == m.lifecycle);
            assert(!has_open(r.1));
            assert(!has_close(r.1));
        },
        _ => {
            assert(r.0.lifecycle == m.lifecycle);
            assert(!has_open(r.1));
            assert(!has_close(r.1));
        },
    }
}

/// Some step before `n` opened the firewall.
pub open spec fn opened_before(m0: IngestModel, tr: Seq<TraceStep>, n: int) -> bool {
    exists|k: int| 0 <= k < n && has_open(#[trigger] step_actions(m0, tr, k))
}

/// Some step before `n` closed the firewall.
pub open spec fn closed_before(m0: IngestModel, tr: Seq<TraceStep>, n: int) -> bool {
    exists|k: int| 0 <= k < n && has_close(#[trigger] step_actions(m0, tr, k))
}

/// The firewall bookkeeping invariant along a trace that starts in
/// `Created`.
proof fn lemma_firewall_invariant(m0: IngestModel, tr: Seq<TraceStep>, n: int)
    requires
        m0.lifecycle == Lifecycle::Created,
        0 <= n <= tr.len(),
    ensures
        run(m0, tr.take(n)).lifecycle == Lifecycle::Created ==> !opened_before(m0, tr, n)
            && !closed_before(m0, tr, n),
        is_live(run(m0, tr.take(n))) ==> opened_before(m0, tr, n) && !closed_before(m0, tr, n),
        is_terminal(run(m0, tr.take(n))) ==> (opened_before(m0, tr, n) <==> closed_before(
            m0,
            tr,
            n,
        )),
        closed_before(m0, tr, n) ==> is_terminal(run(m0, tr.take(n))),
    decreases n,
{
    if n == 0 {
        assert(tr.take(0) =~= Seq::<TraceStep>::empty());
        assert(run(m0, tr.take(0)) == m0);
    } else {
        lemma_firewall_invariant(m0, tr, n - 1);
        let m_prev = run(m0, tr.take(n - 1));
        let m_next = run(m0, tr.take(n));
        lemma_run_take_succ(m0, tr, n - 1);
        lemma_step_firewall(m_prev, tr[n - 1].ev, tr[n - 1].now_ms);
        let acts = step_actions(m0, tr, n - 1);
        assert forall|k: int| 0 <= k < n && has_open(#[trigger] step_actions(m0, tr, k))
            implies 0 <= k < n by {}
        assert(opened_before(m0, tr, n) == (opened_before(m0, tr, n - 1) || has_open(acts))) by {
            if opened_before(m0, tr, n) {
                let k = choose|k: int|
                    0 <= k < n && has_open(#[trigger] step_actions(m0, tr, k));
                if k < n - 1 {
                    assert(opened_before(m0, tr, n - 1));
                } else {
                    assert(has_open(acts));
                }
            }
            if opened_before(m0, tr, n - 1) {
                let k = choose|k: int|
                    0 <= k < n - 1 && has_open(#[trigger] step_actions(m0, tr, k));
                assert(has_open(step_actions(m0, tr, k)));
                assert(opened_before(m0, tr, n));
            }
            if has_open(acts) {
                assert(has_open(step_actions(m0, tr, n - 1)));
                assert(opened_before(m0, tr, n));
            }
        }
        assert(closed_before(m0, tr, n) == (closed_before(m0, tr, n - 1) || has_close(acts)))
            by {
            if closed_before(m0, tr, n) {
                let k = choose|k: int|
                    0 <= k < n && has_close(#[trigger] step_actions(m0, tr, k));
                if k < n - 1 {
                    assert(closed_before(m0, tr, n - 1));
                } else {
                    assert(has_close(acts));
                }
            }
            if closed_before(m0, tr, n - 1) {
                let k = choose|k: int|
                    0 <= k < n - 1 && has_close(#[trigger] step_actions(m0, tr, k));
                assert(has_close(step_actions(m0, tr, k)));
                assert(closed_before(m0, tr, n));
            }
            if has_close(acts) {
                assert(has_close(step_actions(m0, tr, n - 1)));
                assert(closed_before(m0, tr, n));
            }
        }
        if is_terminal(m_prev) {
            assert(m_next == m_prev);
            assert(acts.len() == 0);
            assert(!has_open(acts));
            assert(!has_close(acts));
        }
    }
}

/// Firewall pairing along any trace of a listener started in
/// `Created`: the firewall is closed at most once; only after it was
/// opened; and on a terminated trace it is closed exactly when it was
/// opened — one matching close for each successful start, on every
/// exit path.
pub proof fn lemma_firewall_pairing(m0: IngestModel, tr: Seq<TraceStep>)
    requires
        m0.lifecycle == Lifecycle::Created,
    ensures
        forall|k1: int, k2: int|
            0 <= k1 < k2 < tr.len() ==> !(has_close(#[trigger] step_actions(m0, tr, k1))
                && has_close(#[trigger] step_actions(m0, tr, k2))),
        forall|k: int|
            0 <= k < tr.len() && has_close(#[trigger] step_actions(m0, tr, k)) ==> opened_before(
                m0,
                tr,
                k + 1,
            ),
        is_terminal(run(m0, tr)) ==> (opened_before(m0, tr, tr.len() as int) <==> closed_before(
            m0,
            tr,
            tr.len() as int,
        )),
{
    assert forall|k1: int, k2: int| 0 <= k1 < k2 < tr.len() implies !(has_close(
        #[trigger] step_actions(m0, tr, k1),
    ) && has_close(#[trigger] step_actions(m0, tr, k2))) by {
        if has_close(step_actions(m0, tr, k1)) && has_close(step_actions(m0, tr, k2)) {
            assert(closed_before(m0, tr, k1 + 1));
            lemma_firewall_invariant(m0, tr, k1 + 1);
            lemma_firewall_invariant(m0, tr, k2);
            assert(closed_before(m0, tr, k2)) by {
                assert(has_close(step_actions(m0, tr, k1)));
            }
            assert(is_terminal(run(m0, tr.take(k2))));
            lemma_step_firewall(run(m0, tr.take(k2)), tr[k2].ev, tr[k2].now_ms);
            assert(!has_close(step_actions(m0, tr, k2)));
        }
    }
    assert forall|k: int| 0 <= k < tr.len() && has_close(#[trigger] step_actions(m0, tr, k))
        implies opened_before(m0, tr, k + 1) by {
        lemma_firewall_invariant(m0, tr, k);
        lemma_step_firewall(run(m0, tr.take(k)), tr[k].ev, tr[k].now_ms);
        assert(is_live(run(m0, tr.take(k))));
        assert(opened_before(m0, tr, k));
        let j = choose|j: int| 0 <= j < k && has_open(#[trigger] step_actions(m0, tr, j));
        assert(has_open(step_actions(m0, tr, j)));
    }
    if is_terminal(run(m0, tr)) {
        lemma_firewall_invariant(m0, tr, tr.len() as int);
        lemma_run_take_all(m0, tr);
    }
}

/// The three packet kinds published under an interval cap.
pub enum SampledKind {
    Motion,
    Session,
    Participants,
}

/// The cap: minimum spacing of two publications of the kind.
pub open spec fn interval_ms(kind: SampledKind) -> u64 {
    match kind {
        SampledKind::Motion => MOTION_INTERVAL_MS,
        SampledKind::Session => SESSION_INTERVAL_MS,
        SampledKind::Participants => SESSION_INTERVAL_MS,
    }
}

/// The listener's last-publication clock of the kind.
pub open spec fn stamp_of(m: IngestModel, kind: SampledKind) -> u64 {
    match kind {
        SampledKind::Motion => m.last_motion_ms,
        SampledKind::Session => m.last_session_ms,
        SampledKind::Participants => m.last_participants_ms,
    }
}

/// The action publishes a packet of the kind.
pub open spec fn is_pub_of(a: IngestActionModel, kind: SampledKind) -> bool {
    match a {
        IngestActionModel::Publish { packet } => match kind {
            SampledKind::Motion => packet is Motion,
            SampledKind::Session => packet is Session,
            SampledKind::Participants => packet is Participants,
        },
        _ => false,
    }
}

/// Some action in the sequence publishes a packet of the kind.
pub open spec fn has_pub_of(acts: Seq<IngestActionModel>, kind: SampledKind) -> bool {
    exists|i: int| 0 <= i < acts.len() && is_pub_of(acts[i], kind)
}

proof fn lemma_has_pub_concat(a: Seq<IngestActionModel>, b: Seq<IngestActionModel>, kind: SampledKind)
    ensures
        has_pub_of(a + b, kind) == (has_pub_of(a, kind) || has_pub_of(b, kind)),
{
    if has_pub_of(a + b, kind) {
        let i = choose|i: int| 0 <= i < (a + b).len() && is_pub_of((a + b)[i], kind);
        if i < a.len() {
            assert(a[i] == (a + b)[i]);
        } else {
            assert(b[i - a.len()] == (a + b)[i]);
        }
    }
    if has_pub_of(a, kind) {
        let i = choose|i: int| 0 <= i < a.len() && is_pub_of(a[i], kind);
        assert((a + b)[i] == a[i]);
    }
    if has_pub_of(b, kind) {
        let i = choose|i: int| 0 <= i < b.len() && is_pub_of(b[i], kind);
        assert((a + b)[a.len() + i] == b[i]);
    }
}

/// How one step treats a sampled kind: a publication happens only
/// when the kind's interval has elapsed, and it moves the kind's
/// clock to `now_ms`; without a publication the clock is unchanged.
pub proof fn lemma_step_sampling(
    m: IngestModel,
    ev: IngestEventModel,
    now_ms: u64,
    kind: SampledKind,
)
    ensures
        has_pub_of(spec_step(m, ev, now_ms).1, kind) ==> now_ms >= stamp_of(m, kind)
            + interval_ms(kind) && stamp_of(spec_step(m, ev, now_ms).0, kind) == now_ms,
        !has_pub_of(spec_step(m, ev, now_ms).1, kind) ==> stamp_of(
            spec_step(m, ev, now_ms).0,
            kind,
        ) == stamp_of(m, kind),
{
    let acts = spec_step(m, ev, now_ms).1;
    if is_terminal(m) {
        assert(!has_pub_of(acts, kind));
    } else if m.lifecycle == Lifecycle::Created {
        assert(!has_pub_of(acts, kind));
    } else {
        match ev {
            IngestEventModel::Datagram { bytes, source_ip } => {
                lemma_datagram_sampling(m, bytes, source_ip, now_ms, kind);
            },
            _ => {
                assert(!has_pub_of(acts, kind));
            },
        }
    }
}

/// Sampling facts for the datagram case of a live listener.
proof fn lemma_datagram_sampling(
    m: IngestModel,
    bytes: Seq<u8>,
    source_ip: u32,
    now_ms: u64,
    kind: SampledKind,
)
    requires
        is_live(m),
    ensures
        has_pub_of(crate::ingest::spec_datagram(m, bytes, source_ip, now_ms).1, kind) ==> now_ms
            >= stamp_of(m, kind) + interval_ms(kind) && stamp_of(
            crate::ingest::spec_datagram(m, bytes, source_ip, now_ms).0,
            kind,
        ) == now_ms,
        !has_pub_of(crate::ingest::spec_datagram(m, bytes, source_ip, now_ms).1, kind)
            ==> stamp_of(crate::ingest::spec_datagram(m, bytes, source_ip, now_ms).0, kind)
            == stamp_of(m, kind),
{
    let r = crate::ingest::spec_datagram(m, bytes, source_ip, now_ms);
    match crate::header::spec_decode_header(bytes) {
        Result::Err(_) => {
            assert(!has_pub_of(r.1, kind));
        },
        Result::Ok(h) => {
            let pinned = if m.lifecycle == Lifecycle::Bound {
                (
                    IngestModel { lifecycle: Lifecycle::Pinned, ..m },
                    seq![
                        IngestActionModel::PinFirewall { port: m.port, source_ip },
                    ],
                )
            } else {
                (m, seq![])
            };
            let m1 = pinned.0;
            let pre = pinned.1;
            assert(!has_pub_of(pre, kind));
            assert(stamp_of(m1, kind) == stamp_of(m, kind));
            if h.session_uid == 0 {
                let tail = seq![IngestActionModel::SleepIdle];
                assert(!has_pub_of(tail, kind));
                lemma_has_pub_concat(pre, tail, kind);
            } else {
                match crate::body::spec_decode_body(h.packet_id, bytes) {
                    Result::Err(_) => {
                        assert(!has_pub_of(r.1, kind));
                    },
                    Result::Ok(p) => {
                        let stepped = crate::ingest::spec_dispatch(
                            m1,
                            h.session_uid,
                            p,
                            bytes,
                            now_ms,
                        );
                        lemma_dispatch_sampling(m1, h.session_uid, p, bytes, now_ms, kind);
                        lemma_has_pub_concat(pre, stepped.1, kind);
                    },
                }
            }
        },
    }
}

/// Sampling facts for the dispatch of one decoded packet.
proof fn lemma_dispatch_sampling(
    m: IngestModel,
    session_uid: u64,
    p: PacketModel,
    bytes: Seq<u8>,
    now_ms: u64,
    kind: SampledKind,
)
    ensures
        has_pub_of(crate::ingest::spec_dispatch(m, session_uid, p, bytes, now_ms).1, kind)
            ==> now_ms >= stamp_of(m, kind) + interval_ms(kind) && stamp_of(
            crate::ingest::spec_dispatch(m, session_uid, p, bytes, now_ms).0,
            kind,
        ) == now_ms,
        !has_pub_of(crate::ingest::spec_dispatch(m, session_uid, p, bytes, now_ms).1, kind)
            ==> stamp_of(crate::ingest::spec_dispatch(m, session_uid, p, bytes, now_ms).0, kind)
            == stamp_of(m, kind),
{
    let r = crate::ingest::spec_dispatch(m, session_uid, p, bytes, now_ms);
    match p {
        PacketModel::Motion(_) => {
            if now_ms >= m.last_motion_ms + MOTION_INTERVAL_MS {
                assert(is_pub_of(r.1[0], SampledKind::Motion));
            } else {
                assert(!has_pub_of(r.1, kind));
            }
        },
        PacketModel::Session(_) => {
            if now_ms >= m.last_session_ms + SESSION_INTERVAL_MS {
                assert(is_pub_of(r.1[1], SampledKind::Session));
            } else {
                assert(!has_pub_of(r.1, kind));
            }
        },
        PacketModel::Participants(_) => {
            if now_ms >= m.last_participants_ms + SESSION_INTERVAL_MS {
                assert(is_pub_of(r.1[1], SampledKind::Participants));
            } else {
                assert(!has_pub_of(r.1, kind));
            }
        },
        PacketModel::Event(_) => {
            assert(!has_pub_of(r.1, kind));
        },
        PacketModel::FinalClassification(_) => {
            assert(!has_pub_of(r.1, kind));
        },
        PacketModel::SessionHistory(ph) => {
            assert(r.0.last_motion_ms == m.last_motion_ms && r.0.last_session_ms
                == m.last_session_ms && r.0.last_participants_ms == m.last_participants_ms);
            assert(!has_pub_of(r.1, kind));
        },
    }
}

/// Between two publications of a sampled kind with none in between,
/// the kind's clock keeps the earlier publication time.
proof fn lemma_stamp_held(
    m0: IngestModel,
    tr: Seq<TraceStep>,
    kind: SampledKind,
    k1: int,
    j: int,
)
    requires
        0 <= k1 < j <= tr.len(),
        has_pub_of(step_actions(m0, tr, k1), kind),
        forall|k: int| k1 < k < j ==> !has_pub_of(#[trigger] step_actions(m0, tr, k), kind),
    ensures
        stamp_of(run(m0, tr.take(j)), kind) == tr[k1].now_ms,
    decreases j,
{
    if j == k1 + 1 {
        lemma_run_take_succ(m0, tr, k1);
        lemma_step_sampling(run(m0, tr.take(k1)), tr[k1].ev, tr[k1].now_ms, kind);
    } else {
        lemma_stamp_held(m0, tr, kind, k1, j - 1);
        lemma_run_take_succ(m0, tr, j - 1);
        lemma_step_sampling(run(m0, tr.take(j - 1)), tr[j - 1].ev, tr[j - 1].now_ms, kind);
        assert(!has_pub_of(step_actions(m0, tr, j - 1), kind));
    }
}

/// The publication rate cap of the sampled kinds: two consecutive
/// publications of one kind on one listener are at least the kind's
/// interval apart (Motion: 700 ms; Session and Participants: 15 s).
pub proof fn lemma_sampled_pacing(
    m0: IngestModel,
    tr: Seq<TraceStep>,
    kind: SampledKind,
    k1: int,
    k2: int,
)
    requires
        0 <= k1 < k2 < tr.len(),
        has_pub_of(step_actions(m0, tr, k1), kind),
        has_pub_of(step_actions(m0, tr, k2), kind),
        forall|k: int| k1 < k < k2 ==> !has_pub_of(#[trigger] step_actions(m0, tr, k), kind),
    ensures
        tr[k2].now_ms >= tr[k1].now_ms + interval_ms(kind),
{
    lemma_stamp_held(m0, tr, kind, k1, k2);
    lemma_step_sampling(run(m0, tr.take(k2)), tr[k2].ev, tr[k2].now_ms, kind);
}

/// The action publishes a SessionHistory packet of this car.
pub open spec fn is_hist_pub(a: IngestActionModel, car: u8) -> bool {
    match a {
        IngestActionModel::Publish { packet } => match packet {
            PacketModel::SessionHistory(ph) => ph.car_idx == car,
            _ => false,
        },
        _ => false,
    }
}

/// Some action in the sequence publishes this car's history.
pub open spec fn has_hist_pub(acts: Seq<IngestActionModel>, car: u8) -> bool {
    exists|i: int| 0 <= i < acts.len() && is_hist_pub(acts[i], car)
}

proof fn lemma_has_hist_concat(a: Seq<IngestActionModel>, b: Seq<IngestActionModel>, car: u8)
    ensures
        has_hist_pub(a + b, car) == (has_hist_pub(a, car) || has_hist_pub(b, car)),
{
    if has_hist_pub(a + b, car) {
        let i = choose|i: int| 0 <= i < (a + b).len() && is_hist_pub((a + b)[i], car);
        if i < a.len() {
            assert(a[i] == (a + b)[i]);
        } else {
            assert(b[i - a.len()] == (a + b)[i]);
        }
    }
    if has_hist_pub(a, car) {
        let i = choose|i: int| 0 <= i < a.len() && is_hist_pub(a[i], car);
        assert((a + b)[i] == a[i]);
    }
    if has_hist_pub(b, car) {
        let i = choose|i: int| 0 <= i < b.len() && is_hist_pub(b[i], car);
        assert((a + b)[a.len() + i] == b[i]);
    }
}

/// How one step treats one car's history state.  A publication for
/// the car happens only when the car's interval has elapsed and its
/// sector triple changed; it moves the car's clock to `now_ms` and
/// records the new triple.  Without a publication, a car already
/// tracked in both maps keeps its clock and its triple.
pub proof fn lemma_step_history(m: IngestModel, ev: IngestEventModel, now_ms: u64, car: u8)
    ensures
        has_hist_pub(spec_step(m, ev, now_ms).1, car) ==> ({
            let m2 = spec_step(m, ev, now_ms).0;
            &&& m.stamps.dom().contains(car)
            &&& m.sectors.dom().contains(car)
            &&& now_ms >= m.stamps[car] + HISTORY_INTERVAL_MS
            &&& m2.stamps.dom().contains(car)
            &&& m2.stamps[car] == now_ms
            &&& m2.sectors.dom().contains(car)
            &&& m2.sectors[car] != m.sectors[car]
        }),
        !has_hist_pub(spec_step(m, ev, now_ms).1, car) && m.stamps.dom().contains(car)
            && m.sectors.dom().contains(car) ==> ({
            let m2 = spec_step(m, ev, now_ms).0;
            &&& m2.stamps.dom().contains(car)
            &&& m2.stamps[car] == m.stamps[car]
            &&& m2.sectors.dom().contains(car)
            &&& m2.sectors[car] == m.sectors[car]
        }),
{
    let acts = spec_step(m, ev, now_ms).1;
    if is_terminal(m) {
        assert(!has_hist_pub(acts, car));
    } else if m.lifecycle == Lifecycle::Created {
        assert(!has_hist_pub(acts, car));
    } else {
        match ev {
            IngestEventModel::Datagram { bytes, source_ip } => {
                lemma_datagram_history(m, bytes, source_ip, now_ms, car);
            },
            _ => {
                assert(!has_hist_pub(acts, car));
            },
        }
    }
}

/// History facts for the datagram case of a live listener.
proof fn lemma_datagram_history(
    m: IngestModel,
    bytes: Seq<u8>,
    source_ip: u32,
    now_ms: u64,
    car: u8,
)
    requires
        is_live(m),
    ensures
        has_hist_pub(crate::ingest::spec_datagram(m, bytes, source_ip, now_ms).1, car) ==> ({
            let m2 = crate::ingest::spec_datagram(m, bytes, source_ip, now_ms).0;
            &&& m.stamps.dom().contains(car)
            &&& m.sectors.dom().contains(car)
            &&& now_ms >= m.stamps[car] + HISTORY_INTERVAL_MS
            &&& m2.stamps.dom().contains(car)
            &&& m2.stamps[car] == now_ms
            &&& m2.sectors.dom().contains(car)
            &&& m2.sectors[car] != m.sectors[car]
        }),
        !has_hist_pub(crate::ingest::spec_datagram(m, bytes, source_ip, now_ms).1, car)
            && m.stamps.dom().contains(car) && m.sectors.dom().contains(car) ==> ({
            let m2 = crate::ingest::spec_datagram(m, bytes, source_ip, now_ms).0;
            &&& m2.stamps.dom().contains(car)
            &&& m2.stamps[car] == m.stamps[car]
            &&& m2.sectors.dom().contains(car)
            &&& m2.sectors[car] == m.sectors[car]
        }),
{
    let r = crate::ingest::spec_datagram(m, bytes, source_ip, now_ms);
    match crate::header::spec_decode_header(bytes) {
        Result::Err(_) => {
            assert(!has_hist_pub(r.1, car));
        },
        Result::Ok(h) => {
            let pinned = if m.lifecycle == Lifecycle::Bound {
                (
                    IngestModel { lifecycle: Lifecycle::Pinned, ..m },
                    seq![
                        IngestActionModel::PinFirewall { port: m.port, source_ip },
                    ],
                )
            } else {
                (m, seq![])
            };
            let m1 = pinned.0;
            let pre = pinned.1;
            assert(!has_hist_pub(pre, car));
            assert(m1.stamps == m.stamps && m1.sectors == m.sectors);
            if h.session_uid == 0 {
                let tail = seq![IngestActionModel::SleepIdle];
                assert(!has_hist_pub(tail, car));
                lemma_has_hist_concat(pre, tail, car);
            } else {
                match crate::body::spec_decode_body(h.packet_id, bytes) {
                    Result::Err(_) => {
                        assert(!has_hist_pub(r.1, car));
                    },
                    Result::Ok(p) => {
                        let stepped = crate::ingest::spec_dispatch(
                            m1,
                            h.session_uid,
                            p,
                            bytes,
                            now_ms,
                        );
                        lemma_dispatch_history(m1, h.session_uid, p, bytes, now_ms, car);
                        lemma_has_hist_concat(pre, stepped.1, car);
                    },
                }
            }
        },
    }
}

/// History facts for the dispatch of one decoded packet.
proof fn lemma_dispatch_history(
    m: IngestModel,
    session_uid: u64,
    p: PacketModel,
    bytes: Seq<u8>,
    now_ms: u64,
    car: u8,
)
    ensures
        has_hist_pub(crate::ingest::spec_dispatch(m, session_uid, p, bytes, now_ms).1, car)
            ==> ({
            let m2 = crate::ingest::spec_dispatch(m, session_uid, p, bytes, now_ms).0;
            &&& m.stamps.dom().contains(car)
            &&& m.sectors.dom().contains(car)
            &&& now_ms >= m.stamps[car] + HISTORY_INTERVAL_MS
            &&& m2.stamps.dom().contains(car)
            &&& m2.stamps[car] == now_ms
            &&& m2.sectors.dom().contains(car)
            &&& m2.sectors[car] != m.sectors[car]
        }),
        !has_hist_pub(crate::ingest::spec_dispatch(m, session_uid, p, bytes, now_ms).1, car)
            && m.stamps.dom().contains(car) && m.sectors.dom().contains(car) ==> ({
            let m2 = crate::ingest::spec_dispatch(m, session_uid, p, bytes, now_ms).0;
            &&& m2.stamps.dom().contains(car)
            &&& m2.stamps[car] == m.stamps[car]
            &&& m2.sectors.dom().contains(car)
            &&& m2.sectors[car] == m.sectors[car]
        }),
{
    let r = crate::ingest::spec_dispatch(m, session_uid, p, bytes, now_ms);
    match p {
        PacketModel::SessionHistory(ph) => {
            let hr = crate::ingest::spec_history(m, session_uid, ph, bytes, now_ms);
            if ph.car_idx == car {
                if !m.stamps.dom().contains(car) {
                    assert(!has_hist_pub(hr.1, car));
                } else if now_ms >= m.stamps[car] + HISTORY_INTERVAL_MS {
                    match crate::ingest::spec_sector_triple(ph) {
                        Option::Some(triple) => {
                            if !m.sectors.dom().contains(car) {
                                assert(!has_hist_pub(hr.1, car));
                            } else if triple != m.sectors[car] {
                                assert(is_hist_pub(hr.1[1], car));
                                assert(has_hist_pub(hr.1, car));
                            } else {
                                assert(!has_hist_pub(hr.1, car));
                            }
                        },
                        Option::None => {
                            assert(!has_hist_pub(hr.1, car));
                        },
                    }
                } else {
                    assert(!has_hist_pub(hr.1, car));
                }
            } else {
                assert(!has_hist_pub(hr.1, car));
            }
        },
        _ => {
            assert(!has_hist_pub(r.1, car));
            assert(r.0.stamps == m.stamps && r.0.sectors == m.sectors);
        },
    }
}

/// Between two history publications of one car with none for that car
/// in between, the car's clock and recorded triple are held.
proof fn lemma_car_state_held(m0: IngestModel, tr: Seq<TraceStep>, car: u8, k1: int, j: int)
    requires
        0 <= k1 < j <= tr.len(),
        has_hist_pub(step_actions(m0, tr, k1), car),
        forall|k: int| k1 < k < j ==> !has_hist_pub(#[trigger] step_actions(m0, tr, k), car),
    ensures
        run(m0, tr.take(j)).stamps.dom().contains(car),
        run(m0, tr.take(j)).stamps[car] == tr[k1].now_ms,
        run(m0, tr.take(j)).sectors.dom().contains(car),
        run(m0, tr.take(j)).sectors[car] == run(m0, tr.take(k1 + 1)).sectors[car],
    decreases j,
{
    if j == k1 + 1 {
        lemma_run_take_succ(m0, tr, k1);
        lemma_step_history(run(m0, tr.take(k1)), tr[k1].ev, tr[k1].now_ms, car);
    } else {
        lemma_car_state_held(m0, tr, car, k1, j - 1);
        lemma_run_take_succ(m0, tr, j - 1);
        lemma_step_history(run(m0, tr.take(j - 1)), tr[j - 1].ev, tr[j - 1].now_ms, car);
        assert(!has_hist_pub(step_actions(m0, tr, j - 1), car));
    }
}

/// The per-car history deduplication: two consecutive accepted
/// SessionHistory publications of one car are at least the history
/// interval apart, and record different sector triples (the map
/// `sectors` holds, after each accepted publication, the triple that
/// was published).
pub proof fn lemma_history_dedup(m0: IngestModel, tr: Seq<TraceStep>, car: u8, k1: int, k2: int)
    requires
        0 <= k1 < k2 < tr.len(),
        has_hist_pub(step_actions(m0, tr, k1), car),
        has_hist_pub(step_actions(m0, tr, k2), car),
        forall|k: int| k1 < k < k2 ==> !has_hist_pub(#[trigger] step_actions(m0, tr, k), car),
    ensures
        tr[k2].now_ms >= tr[k1].now_ms + HISTORY_INTERVAL_MS,
        run(m0, tr.take(k2 + 1)).sectors[car] != run(m0, tr.take(k1 + 1)).sectors[car],
{
    lemma_car_state_held(m0, tr, car, k1, k2);
    lemma_run_take_succ(m0, tr, k2);
    lemma_step_history(run(m0, tr.take(k2)), tr[k2].ev, tr[k2].now_ms, car);
}

/// A championship is listed exactly when the registry holds an entry
/// for it: `ListenerRegistry::list` returns the per-entry
/// championships, so membership in its result is [`has_cid`].
pub proof fn lemma_listed_iff(s: Seq<EntryModel>, c: u32)
    ensures
        s.map_values(|e: EntryModel| e.championship_id).contains(c) == has_cid(s, c),
{
    let l = s.map_values(|e: EntryModel| e.championship_id);
    if l.contains(c) {
        let i = choose|i: int| 0 <= i < l.len() && l[i] == c;
        assert(s[i].championship_id == c);
        assert(has_cid(s, c));
    }
    if has_cid(s, c) {
        let i = choose|i: int| 0 <= i < s.len() && s[i].championship_id == c;
        assert(l[i] == c);
        assert(l.contains(c));
    }
}

/// After a successful `start(c, p)` the registry's listing contains
/// `c`: `start`'s contract appends the new entry, and the appended
/// entry is listed.
pub proof fn lemma_start_listed(s: Seq<EntryModel>, e: EntryModel)
    ensures
        s.push(e).map_values(|x: EntryModel| x.championship_id).contains(e.championship_id),
{
    assert(s.push(e)[s.len() as int] == e);
    assert(has_cid(s.push(e), e.championship_id));
    lemma_listed_iff(s.push(e), e.championship_id);
}

/// After a successful `stop(c)` the registry's listing no longer
/// contains `c`: `stop`'s contract removes the championship's entry,
/// and under the registry invariant it was the only one.
pub proof fn lemma_stop_unlisted(s: Seq<EntryModel>, c: u32)
    requires
        reg_wf(s),
        has_cid(s, c),
    ensures
        !s.remove(idx_of_cid(s, c)).map_values(|x: EntryModel| x.championship_id).contains(c),
{
    let i = idx_of_cid(s, c);
    assert(0 <= i < s.len() && s[i].championship_id == c);
    let t = s.remove(i);
    assert(!has_cid(t, c)) by {
        if has_cid(t, c) {
            let k = choose|k: int| 0 <= k < t.len() && t[k].championship_id == c;
            let sk: int = if k < i {
                k
            } else {
                k + 1
            };
            assert(t[k] == s[sk]);
            assert(sk != i);
            if sk < i {
                assert(s[sk].championship_id != s[i].championship_id);
            } else {
                assert(s[i].championship_id != s[sk].championship_id);
            }
        }
    }
    lemma_listed_iff(t, c);
}

/// Ports in use across all listeners form a subset of the fixed range
/// and are pairwise distinct: the registry invariant says so of every
/// reachable registry state.
pub proof fn lemma_ports_distinct(s: Seq<EntryModel>)
    requires
        reg_wf(s),
    ensures
        forall|i: int| 0 <= i < s.len() ==> PORT_MIN <= (#[trigger] s[i].port) <= PORT_MAX,
        forall|i: int, j: int| 0 <= i < j < s.len() ==> s[i].port != s[j].port,
{
}

/// `start(c, p)` then `start(c, p)` fails: after the first start the
/// registry holds `c`, and `start`'s contract returns `AlreadyExists`
/// exactly when the championship (or its port) is held.
pub proof fn lemma_start_start_exists(s: Seq<EntryModel>, e: EntryModel)
    ensures
        has_cid(s.push(e), e.championship_id),
{
    assert(s.push(e)[s.len() as int] == e);
}

/// `stop(c)` then `stop(c)` fails: after the first stop the registry
/// no longer holds `c`, and `stop`'s contract returns `NotFound`
/// exactly when the championship is not held.
pub proof fn lemma_stop_stop_not_found(s: Seq<EntryModel>, c: u32)
    requires
        reg_wf(s),
        has_cid(s, c),
    ensures
        !has_cid(s.remove(idx_of_cid(s, c)), c),
{
    lemma_stop_unlisted(s, c);
    lemma_listed_iff(s.remove(idx_of_cid(s, c)), c);
}

} // verus!
