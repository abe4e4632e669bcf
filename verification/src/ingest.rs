//! The ingest loop's decisions, as a verified state machine.
//!
//! One listener runs one loop: receive a datagram, decode, gate on the
//! session, sample, deduplicate, publish, persist, and stop on final
//! classification.  Everything the loop decides is the pure transition
//! [`spec_step`]; the executable [`IngestState::step`] is proved equal
//! to it.  The unverified driver owns the socket, the stores, the
//! broadcast channel and the packet filter: it feeds one
//! [`IngestEvent`] at a time and performs the returned
//! [`IngestAction`]s in order.
//!
//! Pacing uses a monotone millisecond clock supplied by the driver as
//! `now_ms`; the state never holds a timestamp above the last `now_ms`
//! it saw.

use vstd::prelude::*;

use crate::body::spec_decode_body;
use crate::body::decode_body;
use crate::header::decode_header;
use crate::header::spec_decode_header;
use crate::maps::sector_entries;
use crate::maps::sector_map_get;
use crate::maps::sector_map_insert;
use crate::maps::sector_map_new;
use crate::maps::stamp_entries;
use crate::maps::stamp_map_get;
use crate::maps::stamp_map_insert;
use crate::maps::stamp_map_new;
use crate::maps::SectorMap;
use crate::maps::StampMap;
use crate::packets::Packet;
use crate::packets::PacketModel;
use crate::packets::PacketSessionHistoryModel;
use crate::packets::SectorTriple;

verus! {

/// Minimum spacing of Motion publications, per listener.
pub const MOTION_INTERVAL_MS: u64 = 700;

/// Minimum spacing of Session and of Participants publications.
pub const SESSION_INTERVAL_MS: u64 = 15000;

/// Minimum spacing of SessionHistory publications, per car.
pub const HISTORY_INTERVAL_MS: u64 = 2000;

/// Time-to-live of every snapshot written to the key/value store.
pub const SNAPSHOT_TTL_SECS: u64 = 900;

/// How long the loop pauses after a datagram outside any session.
pub const IDLE_SLEEP_MS: u64 = 5000;

/// Where a listener stands in its life.
#[derive(Clone, Copy, Debug, PartialEq, Eq, Structural)]
pub enum Lifecycle {
    /// Task spawned, socket not yet bound.
    Created,
    /// Socket bound, firewall open, no packet seen yet.
    Bound,
    /// First packet seen; the port is pinned to its source.
    Pinned,
    /// Terminated in order: explicit stop or final classification.
    Stopped,
    /// Terminated by a bind or firewall failure.
    Failed,
}

/// What the driver reports to the loop.
pub enum IngestEvent {
    /// The UDP socket bound successfully.
    BindOk,
    /// The UDP socket could not be bound: fatal.
    BindFailed,
    /// A firewall rule could not be installed: fatal.
    FirewallFailed,
    /// One datagram, with its source address.
    Datagram { bytes: Vec<u8>, source_ip: u32 },
    /// A receive failed; recoverable, the loop continues.
    RecvError,
    /// The registry asked this listener to stop.
    StopRequested,
}

/// Model of [`IngestEvent`].
pub enum IngestEventModel {
    BindOk,
    BindFailed,
    FirewallFailed,
    Datagram { bytes: Seq<u8>, source_ip: u32 },
    RecvError,
    StopRequested,
}

impl View for IngestEvent {
    type V = IngestEventModel;

    open spec fn view(&self) -> IngestEventModel {
        match self {
            IngestEvent::BindOk => IngestEventModel::BindOk,
            IngestEvent::BindFailed => IngestEventModel::BindFailed,
            IngestEvent::FirewallFailed => IngestEventModel::FirewallFailed,
            IngestEvent::Datagram { bytes, source_ip } => IngestEventModel::Datagram {
                bytes: bytes@,
                source_ip: *source_ip,
            },
            IngestEvent::RecvError => IngestEventModel::RecvError,
            IngestEvent::StopRequested => IngestEventModel::StopRequested,
        }
    }
}

/// A key of the snapshot store, one per key-schema family.
#[derive(Clone, Copy, Debug, PartialEq, Eq, Structural)]
pub enum SnapshotKey {
    /// The latest Session packet of a session.
    Session { championship_id: u32, session_uid: u64 },
    /// The latest Participants packet of a session.
    Participants { championship_id: u32, session_uid: u64 },
    /// The latest accepted SessionHistory packet of one car.
    HistoryCar { championship_id: u32, session_uid: u64, car_idx: u8 },
}

/// What the driver must do, in order, after a step.
pub enum IngestAction {
    /// Permit inbound UDP on the port from any source.
    OpenFirewall { port: u16 },
    /// Restrict the port to this first observed source.
    PinFirewall { port: u16, source_ip: u32 },
    /// Remove the port's accept and pin rules.
    CloseFirewall { port: u16 },
    /// Send the packet on the listener's broadcast bus.
    Publish { packet: Packet },
    /// Write the raw datagram under the key, with the fixed TTL.
    WriteSnapshot { key: SnapshotKey, payload: Vec<u8> },
    /// Append the payload to the `(session, code)` event row.
    AppendEvent { session_uid: u64, code: crate::packets::EventCode, payload: Vec<u8> },
    /// Pause for [`IDLE_SLEEP_MS`] before the next receive.
    SleepIdle,
}

/// Model of [`IngestAction`].
pub enum IngestActionModel {
    OpenFirewall { port: u16 },
    PinFirewall { port: u16, source_ip: u32 },
    CloseFirewall { port: u16 },
    Publish { packet: PacketModel },
    WriteSnapshot { key: SnapshotKey, payload: Seq<u8> },
    AppendEvent { session_uid: u64, code: crate::packets::EventCode, payload: Seq<u8> },
    SleepIdle,
}

impl View for IngestAction {
    type V = IngestActionModel;

    open spec fn view(&self) -> IngestActionModel {
        match self {
            IngestAction::OpenFirewall { port } => IngestActionModel::OpenFirewall { port: *port },
            IngestAction::PinFirewall { port, source_ip } => IngestActionModel::PinFirewall {
                port: *port,
                source_ip: *source_ip,
            },
            IngestAction::CloseFirewall { port } => IngestActionModel::CloseFirewall {
                port: *port,
            },
            IngestAction::Publish { packet } => IngestActionModel::Publish { packet: packet@ },
            IngestAction::WriteSnapshot { key, payload } => IngestActionModel::WriteSnapshot {
                key: *key,
                payload: payload@,
            },
            IngestAction::AppendEvent { session_uid, code, payload } => {
                IngestActionModel::AppendEvent {
                    session_uid: *session_uid,
                    code: *code,
                    payload: payload@,
                }
            },
            IngestAction::SleepIdle => IngestActionModel::SleepIdle,
        }
    }
}

/// Model of [`IngestState`].
pub struct IngestModel {
    pub championship_id: u32,
    pub port: u16,
    pub lifecycle: Lifecycle,
    pub last_motion_ms: u64,
    pub last_session_ms: u64,
    pub last_participants_ms: u64,
    pub stamps: Map<u8, u64>,
    pub sectors: Map<u8, SectorTriple>,
    pub decode_errors: u64,
}

/// The per-listener state of the ingest loop.
pub struct IngestState {
    championship_id: u32,
    port: u16,
    lifecycle: Lifecycle,
    last_motion_ms: u64,
    last_session_ms: u64,
    last_participants_ms: u64,
    stamps: StampMap,
    sectors: SectorMap,
    decode_errors: u64,
}

impl View for IngestState {
    type V = IngestModel;

    closed spec fn view(&self) -> IngestModel {
        IngestModel {
            championship_id: self.championship_id,
            port: self.port,
            lifecycle: self.lifecycle,
            last_motion_ms: self.last_motion_ms,
            last_session_ms: self.last_session_ms,
            last_participants_ms: self.last_participants_ms,
            stamps: stamp_entries(self.stamps),
            sectors: sector_entries(self.sectors),
            decode_errors: self.decode_errors,
        }
    }
}

/// The state a listener starts from: created at time `now_ms`, with
/// every sampling clock seeded to `now_ms` and no car state.
pub open spec fn spec_init(championship_id: u32, port: u16, now_ms: u64) -> IngestModel {
    IngestModel {
        championship_id,
        port,
        lifecycle: Lifecycle::Created,
        last_motion_ms: now_ms,
        last_session_ms: now_ms,
        last_participants_ms: now_ms,
        stamps: Map::empty(),
        sectors: Map::empty(),
        decode_errors: 0,
    }
}

/// No timestamp held by the state lies in the future of `now_ms`.
pub open spec fn time_le(m: IngestModel, now_ms: u64) -> bool {
    &&& m.last_motion_ms <= now_ms
    &&& m.last_session_ms <= now_ms
    &&& m.last_participants_ms <= now_ms
    &&& forall|c: u8| m.stamps.dom().contains(c) ==> m.stamps[c] <= now_ms
}

/// The listener has terminated and takes no further step.
pub open spec fn is_terminal(m: IngestModel) -> bool {
    m.lifecycle == Lifecycle::Stopped || m.lifecycle == Lifecycle::Failed
}

/// Saturating increment of the dropped-datagram counter.
pub open spec fn sat_inc(x: u64) -> u64 {
    if x < u64::MAX {
        (x + 1) as u64
    } else {
        x
    }
}

/// The sector triple of the most recently completed lap, if the packet
/// reports at least one completed lap within the lap array.
pub open spec fn spec_sector_triple(ph: PacketSessionHistoryModel) -> Option<SectorTriple> {
    if 1 <= ph.num_laps && ph.num_laps <= ph.laps.len() {
        let lap = ph.laps[ph.num_laps - 1];
        Some(
            SectorTriple {
                sector1_ms: lap.sector1_ms,
                sector2_ms: lap.sector2_ms,
                sector3_ms: lap.sector3_ms,
            },
        )
    } else {
        None
    }
}

/// SessionHistory handling: per-car pacing and sector deduplication.
///
/// First sight of a car seeds its sampling clock and publishes
/// nothing.  After that, a packet is accepted only when the car's
/// interval has elapsed and the final-lap sector triple differs from
/// the last triple recorded for the car; the first triple seen for a
/// car is recorded without publishing.
pub open spec fn spec_history(
    m: IngestModel,
    session_uid: u64,
    ph: PacketSessionHistoryModel,
    bytes: Seq<u8>,
    now_ms: u64,
) -> (IngestModel, Seq<IngestActionModel>) {
    let car = ph.car_idx;
    if !m.stamps.dom().contains(car) {
        (IngestModel { stamps: m.stamps.insert(car, now_ms), ..m }, seq![])
    } else if now_ms >= m.stamps[car] + HISTORY_INTERVAL_MS {
        match spec_sector_triple(ph) {
            Option::Some(triple) => {
                if !m.sectors.dom().contains(car) {
                    (IngestModel { sectors: m.sectors.insert(car, triple), ..m }, seq![])
                } else if triple != m.sectors[car] {
                    (
                        IngestModel {
                            stamps: m.stamps.insert(car, now_ms),
                            sectors: m.sectors.insert(car, triple),
                            ..m
                        },
                        seq![
                            IngestActionModel::WriteSnapshot {
                                key: SnapshotKey::HistoryCar {
                                    championship_id: m.championship_id,
                                    session_uid,
                                    car_idx: car,
                                },
                                payload: bytes,
                            },
                            IngestActionModel::Publish {
                                packet: PacketModel::SessionHistory(ph),
                            },
                        ],
                    )
                } else {
                    (m, seq![])
                }
            },
            Option::None => (m, seq![]),
        }
    } else {
        (m, seq![])
    }
}

/// Dispatch of one well-formed in-session packet, after any pinning.
pub open spec fn spec_dispatch(
    m: IngestModel,
    session_uid: u64,
    p: PacketModel,
    bytes: Seq<u8>,
    now_ms: u64,
) -> (IngestModel, Seq<IngestActionModel>) {
    match p {
        PacketModel::Motion(pm) => {
            if now_ms >= m.last_motion_ms + MOTION_INTERVAL_MS {
                (
                    IngestModel { last_motion_ms: now_ms, ..m },
                    seq![IngestActionModel::Publish { packet: PacketModel::Motion(pm) }],
                )
            } else {
                (m, seq![])
            }
        },
        PacketModel::Session(ps) => {
            if now_ms >= m.last_session_ms + SESSION_INTERVAL_MS {
                (
                    IngestModel { last_session_ms: now_ms, ..m },
                    seq![
                        IngestActionModel::WriteSnapshot {
                            key: SnapshotKey::Session {
                                championship_id: m.championship_id,
                                session_uid,
                            },
                            payload: bytes,
                        },
                        IngestActionModel::Publish { packet: PacketModel::Session(ps) },
                    ],
                )
            } else {
                (m, seq![])
            }
        },
        PacketModel::Participants(pp) => {
            if now_ms >= m.last_participants_ms + SESSION_INTERVAL_MS {
                (
                    IngestModel { last_participants_ms: now_ms, ..m },
                    seq![
                        IngestActionModel::WriteSnapshot {
                            key: SnapshotKey::Participants {
                                championship_id: m.championship_id,
                                session_uid,
                            },
                            payload: bytes,
                        },
                        IngestActionModel::Publish { packet: PacketModel::Participants(pp) },
                    ],
                )
            } else {
                (m, seq![])
            }
        },
        PacketModel::Event(pe) => {
            (
                m,
                seq![
                    IngestActionModel::AppendEvent {
                        session_uid,
                        code: pe.code,
                        payload: pe.payload,
                    },
                    IngestActionModel::Publish { packet: PacketModel::Event(pe) },
                ],
            )
        },
        PacketModel::FinalClassification(pf) => {
            (
                IngestModel { lifecycle: Lifecycle::Stopped, ..m },
                seq![
                    IngestActionModel::Publish {
                        packet: PacketModel::FinalClassification(pf),
                    },
                    IngestActionModel::CloseFirewall { port: m.port },
                ],
            )
        },
        PacketModel::SessionHistory(ph) => spec_history(m, session_uid, ph, bytes, now_ms),
    }
}

/// One received datagram: header decode, pinning on the first valid
/// packet, the `session_uid == 0` idle gate, body decode, dispatch.
pub open spec fn spec_datagram(
    m: IngestModel,
    bytes: Seq<u8>,
    source_ip: u32,
    now_ms: u64,
) -> (IngestModel, Seq<IngestActionModel>) {
    match spec_decode_header(bytes) {
        Result::Err(_) => (IngestModel { decode_errors: sat_inc(m.decode_errors), ..m }, seq![]),
        Result::Ok(h) => {
            let pinned = if m.lifecycle == Lifecycle::Bound {
                (
                    IngestModel { lifecycle: Lifecycle::Pinned, ..m },
                    seq![IngestActionModel::PinFirewall { port: m.port, source_ip }],
                )
            } else {
                (m, seq![])
            };
            let m1 = pinned.0;
            let pre = pinned.1;
            if h.session_uid == 0 {
                (m1, pre + seq![IngestActionModel::SleepIdle])
            } else {
                match spec_decode_body(h.packet_id, bytes) {
                    Result::Err(_) => (
                        IngestModel { decode_errors: sat_inc(m1.decode_errors), ..m1 },
                        pre,
                    ),
                    Result::Ok(p) => {
                        let stepped = spec_dispatch(m1, h.session_uid, p, bytes, now_ms);
                        (stepped.0, pre + stepped.1)
                    },
                }
            }
        },
    }
}

/// The transition of the ingest loop: the authoritative statement of
/// what one event does to the listener's state and what the driver
/// must do in response.
pub open spec fn spec_step(m: IngestModel, ev: IngestEventModel, now_ms: u64) -> (
    IngestModel,
    Seq<IngestActionModel>,
) {
    if is_terminal(m) {
        (m, seq![])
    } else if m.lifecycle == Lifecycle::Created {
        match ev {
            IngestEventModel::BindOk => (
                IngestModel { lifecycle: Lifecycle::Bound, ..m },
                seq![IngestActionModel::OpenFirewall { port: m.port }],
            ),
            IngestEventModel::BindFailed => (
                IngestModel { lifecycle: Lifecycle::Failed, ..m },
                seq![],
            ),
            IngestEventModel::StopRequested => (
                IngestModel { lifecycle: Lifecycle::Stopped, ..m },
                seq![],
            ),
            _ => (m, seq![]),
        }
    } else {
        match ev {
            IngestEventModel::StopRequested => (
                IngestModel { lifecycle: Lifecycle::Stopped, ..m },
                seq![IngestActionModel::CloseFirewall { port: m.port }],
            ),
            IngestEventModel::FirewallFailed => (
                IngestModel { lifecycle: Lifecycle::Failed, ..m },
                seq![IngestActionModel::CloseFirewall { port: m.port }],
            ),
            IngestEventModel::Datagram { bytes, source_ip } => spec_datagram(
                m,
                bytes,
                source_ip,
                now_ms,
            ),
            _ => (m, seq![]),
        }
    }
}

impl IngestState {
    /// A listener for `championship_id` on `port`, created at `now_ms`.
    pub fn new(championship_id: u32, port: u16, now_ms: u64) -> (r: IngestState)
        ensures
            r@ == spec_init(championship_id, port, now_ms),
    {
        let r = IngestState {
            championship_id,
            port,
            lifecycle: Lifecycle::Created,
            last_motion_ms: now_ms,
            last_session_ms: now_ms,
            last_participants_ms: now_ms,
            stamps: stamp_map_new(),
            sectors: sector_map_new(),
            decode_errors: 0,
        };
        proof {
            assert(stamp_entries(r.stamps) =~= Map::<u8, u64>::empty());
            assert(sector_entries(r.sectors) =~= Map::<u8, SectorTriple>::empty());
        }
        r
    }

    /// The championship this listener serves.
    pub fn championship_id(&self) -> (r: u32)
        ensures
            r == self@.championship_id,
    {
        self.championship_id
    }

    /// The UDP port this listener receives on.
    pub fn port(&self) -> (r: u16)
        ensures
            r == self@.port,
    {
        self.port
    }

    /// Where the listener stands in its life.
    pub fn lifecycle(&self) -> (r: Lifecycle)
        ensures
            r == self@.lifecycle,
    {
        self.lifecycle
    }

    /// Datagrams dropped because they did not decode.
    pub fn decode_errors(&self) -> (r: u64)
        ensures
            r == self@.decode_errors,
    {
        self.decode_errors
    }

    /// The listener has terminated; the driver's loop must exit.
    pub fn is_terminal(&self) -> (r: bool)
        ensures
            r == is_terminal(self@),
    {
        match self.lifecycle {
            Lifecycle::Stopped => true,
            Lifecycle::Failed => true,
            _ => false,
        }
    }

    /// Feeds one event to the loop at time `now_ms` and returns the
    /// actions the driver must perform, in order.  Behaves exactly as
    /// [`spec_step`].
    pub fn step(&mut self, ev: IngestEvent, now_ms: u64) -> (acts: Vec<IngestAction>)
        requires
            time_le(old(self)@, now_ms),
        ensures
            final(self)@ == spec_step(old(self)@, ev@, now_ms).0,
            acts@.map_values(|a: IngestAction| a@) == spec_step(old(self)@, ev@, now_ms).1,
            time_le(final(self)@, now_ms),
    {
        let ghost m0 = self@;
        let ghost evm = ev@;
        let mut acts: Vec<IngestAction> = Vec::new();
        if self.is_terminal() {
            assert(acts@.map_values(|a: IngestAction| a@) =~= spec_step(m0, evm, now_ms).1);
            return acts;
        }
        let live = match self.lifecycle {
            Lifecycle::Created => false,
            _ => true,
        };
        if !live {
            match ev {
                IngestEvent::BindOk => {
                    self.lifecycle = Lifecycle::Bound;
                    acts.push(IngestAction::OpenFirewall { port: self.port });
                },
                IngestEvent::BindFailed => {
                    self.lifecycle = Lifecycle::Failed;
                },
                IngestEvent::StopRequested => {
                    self.lifecycle = Lifecycle::Stopped;
                },
                _ => {},
            }
            assert(acts@.map_values(|a: IngestAction| a@) =~= spec_step(m0, evm, now_ms).1);
            return acts;
        }
        match ev {
            IngestEvent::StopRequested => {
                self.lifecycle = Lifecycle::Stopped;
                acts.push(IngestAction::CloseFirewall { port: self.port });
            },
            IngestEvent::FirewallFailed => {
                self.lifecycle = Lifecycle::Failed;
                acts.push(IngestAction::CloseFirewall { port: self.port });
            },
            IngestEvent::Datagram { bytes, source_ip } => {
                self.on_datagram(bytes, source_ip, now_ms, &mut acts);
                assert(acts@.map_values(|a: IngestAction| a@) == spec_step(m0, evm, now_ms).1);
                return acts;
            },
            _ => {},
        }
        assert(acts@.map_values(|a: IngestAction| a@) =~= spec_step(m0, evm, now_ms).1);
        acts
    }

    /// One datagram, as [`spec_datagram`].
    fn on_datagram(&mut self, bytes: Vec<u8>, source_ip: u32, now_ms: u64, acts: &mut Vec<
        IngestAction,
    >)
        requires
            time_le(old(self)@, now_ms),
            !is_terminal(old(self)@),
            old(self)@.lifecycle != Lifecycle::Created,
            old(acts)@.len() == 0,
        ensures
            final(self)@ == spec_datagram(old(self)@, bytes@, source_ip, now_ms).0,
            final(acts)@.map_values(|a: IngestAction| a@) == spec_datagram(
                old(self)@,
                bytes@,
                source_ip,
                now_ms,
            ).1,
            time_le(final(self)@, now_ms),
    {
        let ghost m0 = self@;
        let header = match decode_header(&bytes) {
            Ok(h) => h,
            Err(_) => {
                self.decode_errors = if self.decode_errors < u64::MAX {
                    self.decode_errors + 1
                } else {
                    self.decode_errors
                };
                assert(acts@.map_values(|a: IngestAction| a@) =~= spec_datagram(
                    m0,
                    bytes@,
                    source_ip,
                    now_ms,
                ).1);
                return ;
            },
        };
        let is_bound = match self.lifecycle {
            Lifecycle::Bound => true,
            _ => false,
        };
        if is_bound {
            self.lifecycle = Lifecycle::Pinned;
            acts.push(IngestAction::PinFirewall { port: self.port, source_ip });
        }
        let ghost m1 = self@;
        let ghost pre = acts@.map_values(|a: IngestAction| a@);
        if header.session_uid == 0 {
            acts.push(IngestAction::SleepIdle);
            assert(acts@.map_values(|a: IngestAction| a@) =~= pre + seq![
                IngestActionModel::SleepIdle,
            ]);
            return ;
        }
        let packet = match decode_body(header.packet_id, &bytes) {
            Ok(p) => p,
            Err(_) => {
                self.decode_errors = if self.decode_errors < u64::MAX {
                    self.decode_errors + 1
                } else {
                    self.decode_errors
                };
                return ;
            },
        };
        self.dispatch(header.session_uid, packet, bytes, now_ms, acts);
        proof {
            let stepped = spec_dispatch(
                m1,
                header.session_uid,
                spec_decode_body(header.packet_id, bytes@)->Ok_0,
                bytes@,
                now_ms,
            );
            assert(acts@.map_values(|a: IngestAction| a@) == pre + stepped.1);
        }
    }

    /// Dispatch of one decoded in-session packet, as [`spec_dispatch`].
    fn dispatch(
        &mut self,
        session_uid: u64,
        packet: Packet,
        bytes: Vec<u8>,
        now_ms: u64,
        acts: &mut Vec<IngestAction>,
    )
        requires
            time_le(old(self)@, now_ms),
        ensures
            final(self)@ == spec_dispatch(old(self)@, session_uid, packet@, bytes@, now_ms).0,
            final(acts)@.map_values(|a: IngestAction| a@) == old(acts)@.map_values(
                |a: IngestAction| a@,
            ) + spec_dispatch(old(self)@, session_uid, packet@, bytes@, now_ms).1,
            time_le(final(self)@, now_ms),
    {
        let ghost m0 = self@;
        let ghost pre = acts@.map_values(|a: IngestAction| a@);
        match packet {
            Packet::Motion(pm) => {
                if now_ms - self.last_motion_ms >= MOTION_INTERVAL_MS {
                    self.last_motion_ms = now_ms;
                    acts.push(IngestAction::Publish { packet: Packet::Motion(pm) });
                    assert(acts@.map_values(|a: IngestAction| a@) =~= pre + spec_dispatch(
                        m0,
                        session_uid,
                        packet@,
                        bytes@,
                        now_ms,
                    ).1);
                } else {
                    assert(acts@.map_values(|a: IngestAction| a@) =~= pre);
                }
            },
            Packet::Session(ps) => {
                if now_ms - self.last_session_ms >= SESSION_INTERVAL_MS {
                    self.last_session_ms = now_ms;
                    acts.push(
                        IngestAction::WriteSnapshot {
                            key: SnapshotKey::Session {
                                championship_id: self.championship_id,
                                session_uid,
                            },
                            payload: bytes,
                        },
                    );
                    acts.push(IngestAction::Publish { packet: Packet::Session(ps) });
                    assert(acts@.map_values(|a: IngestAction| a@) =~= pre + spec_dispatch(
                        m0,
                        session_uid,
                        packet@,
                        bytes@,
                        now_ms,
                    ).1);
                } else {
                    assert(acts@.map_values(|a: IngestAction| a@) =~= pre);
                }
            },
            Packet::Participants(pp) => {
                if now_ms - self.last_participants_ms >= SESSION_INTERVAL_MS {
                    self.last_participants_ms = now_ms;
                    acts.push(
                        IngestAction::WriteSnapshot {
                            key: SnapshotKey::Participants {
                                championship_id: self.championship_id,
                                session_uid,
                            },
                            payload: bytes,
                        },
                    );
                    acts.push(IngestAction::Publish { packet: Packet::Participants(pp) });
                    assert(acts@.map_values(|a: IngestAction| a@) =~= pre + spec_dispatch(
                        m0,
                        session_uid,
                        packet@,
                        bytes@,
                        now_ms,
                    ).1);
                } else {
                    assert(acts@.map_values(|a: IngestAction| a@) =~= pre);
                }
            },
            Packet::Event(pe) => {
                let code = pe.code;
                let payload = pe.payload.clone();
                acts.push(IngestAction::AppendEvent { session_uid, code, payload });
                acts.push(IngestAction::Publish { packet: Packet::Event(pe) });
                assert(acts@.map_values(|a: IngestAction| a@) =~= pre + spec_dispatch(
                    m0,
                    session_uid,
                    packet@,
                    bytes@,
                    now_ms,
                ).1);
            },
            Packet::FinalClassification(pf) => {
                self.lifecycle = Lifecycle::Stopped;
                acts.push(IngestAction::Publish { packet: Packet::FinalClassification(pf) });
                acts.push(IngestAction::CloseFirewall { port: self.port });
                assert(acts@.map_values(|a: IngestAction| a@) =~= pre + spec_dispatch(
                    m0,
                    session_uid,
                    packet@,
                    bytes@,
                    now_ms,
                ).1);
            },
            Packet::SessionHistory(ph) => {
                self.on_history(session_uid, ph, bytes, now_ms, acts);
            },
        }
    }

    /// SessionHistory handling, as [`spec_history`].
    fn on_history(
        &mut self,
        session_uid: u64,
        ph: crate::packets::PacketSessionHistory,
        bytes: Vec<u8>,
        now_ms: u64,
        acts: &mut Vec<IngestAction>,
    )
        requires
            time_le(old(self)@, now_ms),
        ensures
            final(self)@ == spec_history(old(self)@, session_uid, ph@, bytes@, now_ms).0,
            final(acts)@.map_values(|a: IngestAction| a@) == old(acts)@.map_values(
                |a: IngestAction| a@,
            ) + spec_history(old(self)@, session_uid, ph@, bytes@, now_ms).1,
            time_le(final(self)@, now_ms),
    {
        let ghost m0 = self@;
        let ghost pre = acts@.map_values(|a: IngestAction| a@);
        let car = ph.car_idx;
        let last = match stamp_map_get(&self.stamps, car) {
            Some(t) => t,
            None => {
                stamp_map_insert(&mut self.stamps, car, now_ms);
                assert(acts@.map_values(|a: IngestAction| a@) =~= pre);
                return ;
            },
        };
        if now_ms - last < HISTORY_INTERVAL_MS {
            assert(acts@.map_values(|a: IngestAction| a@) =~= pre);
            return ;
        }
        let num_laps = ph.num_laps;
        if !(1 <= num_laps && (num_laps as usize) <= ph.laps.len()) {
            assert(spec_sector_triple(ph@) is None);
            assert(acts@.map_values(|a: IngestAction| a@) =~= pre);
            return ;
        }
        let lap = ph.laps[(num_laps - 1) as usize];
        let triple = SectorTriple {
            sector1_ms: lap.sector1_ms,
            sector2_ms: lap.sector2_ms,
            sector3_ms: lap.sector3_ms,
        };
        assert(spec_sector_triple(ph@) == Some(triple));
        let prev = match sector_map_get(&self.sectors, car) {
            Some(p) => p,
            None => {
                sector_map_insert(&mut self.sectors, car, triple);
                assert(acts@.map_values(|a: IngestAction| a@) =~= pre);
                return ;
            },
        };
        if triple.sector1_ms == prev.sector1_ms && triple.sector2_ms == prev.sector2_ms
            && triple.sector3_ms == prev.sector3_ms {
            assert(triple == prev);
            assert(acts@.map_values(|a: IngestAction| a@) =~= pre);
            return ;
        }
        assert(triple != prev);
        stamp_map_insert(&mut self.stamps, car, now_ms);
        sector_map_insert(&mut self.sectors, car, triple);
        acts.push(
            IngestAction::WriteSnapshot {
                key: SnapshotKey::HistoryCar {
                    championship_id: self.championship_id,
                    session_uid,
                    car_idx: car,
                },
                payload: bytes,
            },
        );
        acts.push(IngestAction::Publish { packet: Packet::SessionHistory(ph) });
        assert(acts@.map_values(|a: IngestAction| a@) =~= pre + spec_history(
            m0,
            session_uid,
            ph@,
            bytes@,
            now_ms,
        ).1);
    }
}

} // verus!
