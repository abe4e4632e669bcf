//! The decoded packet family and its mathematical models.
//!
//! Each packet kind the engine processes has an executable struct and,
//! where it holds growable data, a model struct over `Seq` reached
//! through `view`.  Fields that are 32- or 64-bit floats on the wire
//! are kept as their raw bit patterns (`*_bits`): the core never
//! interprets them as numbers, so fidelity is bit-exact.

use vstd::prelude::*;

verus! {

/// Wire discriminant of a Motion packet.
pub const PACKET_ID_MOTION: u8 = 0;

/// Wire discriminant of a Session packet.
pub const PACKET_ID_SESSION: u8 = 1;

/// Wire discriminant of an Event packet.
pub const PACKET_ID_EVENT: u8 = 3;

/// Wire discriminant of a Participants packet.
pub const PACKET_ID_PARTICIPANTS: u8 = 4;

/// Wire discriminant of a FinalClassification packet.
pub const PACKET_ID_FINAL_CLASSIFICATION: u8 = 8;

/// Wire discriminant of a SessionHistory packet.
pub const PACKET_ID_SESSION_HISTORY: u8 = 11;

/// Cars in every fixed-size per-car array of the format.
pub const NUM_CARS: usize = 22;

/// Laps in the SessionHistory per-lap array.
pub const NUM_LAP_SLOTS: usize = 100;

/// Total bytes of a Motion packet, header included.
pub const MOTION_PACKET_LEN: usize = 1349;

/// Total bytes of a Session packet, header included.
pub const SESSION_PACKET_LEN: usize = 644;

/// Total bytes of an Event packet, header included.
pub const EVENT_PACKET_LEN: usize = 45;

/// Total bytes of a Participants packet, header included.
pub const PARTICIPANTS_PACKET_LEN: usize = 1306;

/// Total bytes of a FinalClassification packet, header included.
pub const FINAL_CLASSIFICATION_PACKET_LEN: usize = 1020;

/// Total bytes of a SessionHistory packet, header included.
pub const SESSION_HISTORY_PACKET_LEN: usize = 1460;

/// Why a packet body was rejected.
#[derive(Clone, Copy, Debug, PartialEq, Eq, Structural)]
pub enum BodyError {
    /// The discriminant selects no kind this engine processes.
    UnknownKind,
    /// The declared kind requires more bytes than were received.
    Truncated,
    /// A participant name has no nul within its field or is not UTF-8.
    InvalidName,
}

/// Motion telemetry of one car.  Positions, velocities, g-forces and
/// orientation are raw 32-bit float bits; direction vectors are the
/// wire's signed 16-bit components.
#[derive(Clone, Copy, Debug, PartialEq, Eq, Structural)]
pub struct CarMotion {
    pub world_position_x_bits: u32,
    pub world_position_y_bits: u32,
    pub world_position_z_bits: u32,
    pub world_velocity_x_bits: u32,
    pub world_velocity_y_bits: u32,
    pub world_velocity_z_bits: u32,
    pub world_forward_dir_x: i16,
    pub world_forward_dir_y: i16,
    pub world_forward_dir_z: i16,
    pub world_right_dir_x: i16,
    pub world_right_dir_y: i16,
    pub world_right_dir_z: i16,
    pub g_force_lateral_bits: u32,
    pub g_force_longitudinal_bits: u32,
    pub g_force_vertical_bits: u32,
    pub yaw_bits: u32,
    pub pitch_bits: u32,
    pub roll_bits: u32,
}

/// Motion packet: one [`CarMotion`] per car slot.
#[derive(Clone, Debug, PartialEq, Eq)]
pub struct PacketMotion {
    pub cars: Vec<CarMotion>,
}

/// Model of [`PacketMotion`].
pub struct PacketMotionModel {
    pub cars: Seq<CarMotion>,
}

impl View for PacketMotion {
    type V = PacketMotionModel;

    open spec fn view(&self) -> PacketMotionModel {
        PacketMotionModel { cars: self.cars@ }
    }
}

/// The leading scalar fields of a Session packet: weather, track and
/// rule identification.
#[derive(Clone, Copy, Debug, PartialEq, Eq, Structural)]
pub struct PacketSession {
    pub weather: u8,
    pub track_temperature: i8,
    pub air_temperature: i8,
    pub total_laps: u8,
    pub track_length: u16,
    pub session_type: u8,
    pub track_id: i8,
    pub formula: u8,
    pub session_time_left: u16,
    pub session_duration: u16,
}

/// One participant: driver metadata plus the name, truncated at its
/// first nul and known to be well-formed UTF-8.
#[derive(Clone, Debug, PartialEq, Eq)]
pub struct Participant {
    pub ai_controlled: u8,
    pub driver_id: u8,
    pub network_id: u8,
    pub team_id: u8,
    pub my_team: u8,
    pub race_number: u8,
    pub nationality: u8,
    pub name: Vec<u8>,
    pub your_telemetry: u8,
    pub show_online_names: u8,
    pub platform: u8,
}

/// Model of [`Participant`].
pub struct ParticipantModel {
    pub ai_controlled: u8,
    pub driver_id: u8,
    pub network_id: u8,
    pub team_id: u8,
    pub my_team: u8,
    pub race_number: u8,
    pub nationality: u8,
    pub name: Seq<u8>,
    pub your_telemetry: u8,
    pub show_online_names: u8,
    pub platform: u8,
}

impl View for Participant {
    type V = ParticipantModel;

    open spec fn view(&self) -> ParticipantModel {
        ParticipantModel {
            ai_controlled: self.ai_controlled,
            driver_id: self.driver_id,
            network_id: self.network_id,
            team_id: self.team_id,
            my_team: self.my_team,
            race_number: self.race_number,
            nationality: self.nationality,
            name: self.name@,
            your_telemetry: self.your_telemetry,
            show_online_names: self.show_online_names,
            platform: self.platform,
        }
    }
}

/// Participants packet: the active car count and one entry per slot.
#[derive(Clone, Debug, PartialEq, Eq)]
pub struct PacketParticipants {
    pub num_active_cars: u8,
    pub participants: Vec<Participant>,
}

/// Model of [`PacketParticipants`].
pub struct PacketParticipantsModel {
    pub num_active_cars: u8,
    pub participants: Seq<ParticipantModel>,
}

impl View for PacketParticipants {
    type V = PacketParticipantsModel;

    open spec fn view(&self) -> PacketParticipantsModel {
        PacketParticipantsModel {
            num_active_cars: self.num_active_cars,
            participants: self.participants@.map_values(|p: Participant| p@),
        }
    }
}

/// The four-byte ASCII event tag.
#[derive(Clone, Copy, Debug, PartialEq, Eq, Structural)]
pub struct EventCode {
    pub b0: u8,
    pub b1: u8,
    pub b2: u8,
    pub b3: u8,
}

/// Event packet: the four-byte ASCII tag and the raw union payload.
#[derive(Clone, Debug, PartialEq, Eq)]
pub struct PacketEvent {
    pub code: EventCode,
    pub payload: Vec<u8>,
}

/// Model of [`PacketEvent`].
pub struct PacketEventModel {
    pub code: EventCode,
    pub payload: Seq<u8>,
}

impl View for PacketEvent {
    type V = PacketEventModel;

    open spec fn view(&self) -> PacketEventModel {
        PacketEventModel { code: self.code, payload: self.payload@ }
    }
}

/// The three sector times (in milliseconds) of one lap, as compared by
/// the session-history deduplication.
#[derive(Clone, Copy, Debug, PartialEq, Eq, Structural)]
pub struct SectorTriple {
    pub sector1_ms: u16,
    pub sector2_ms: u16,
    pub sector3_ms: u16,
}

/// One lap of a car's session history; sector times are milliseconds.
#[derive(Clone, Copy, Debug, PartialEq, Eq, Structural)]
pub struct LapHistory {
    pub lap_time_ms: u32,
    pub sector1_ms: u16,
    pub sector1_minutes: u8,
    pub sector2_ms: u16,
    pub sector2_minutes: u8,
    pub sector3_ms: u16,
    pub sector3_minutes: u8,
    pub lap_valid_flags: u8,
}

/// SessionHistory packet: which car, how many laps are filled in, and
/// the fixed-size lap array.
#[derive(Clone, Debug, PartialEq, Eq)]
pub struct PacketSessionHistory {
    pub car_idx: u8,
    pub num_laps: u8,
    pub num_tyre_stints: u8,
    pub best_lap_time_lap_num: u8,
    pub best_sector1_lap_num: u8,
    pub best_sector2_lap_num: u8,
    pub best_sector3_lap_num: u8,
    pub laps: Vec<LapHistory>,
}

/// Model of [`PacketSessionHistory`].
pub struct PacketSessionHistoryModel {
    pub car_idx: u8,
    pub num_laps: u8,
    pub num_tyre_stints: u8,
    pub best_lap_time_lap_num: u8,
    pub best_sector1_lap_num: u8,
    pub best_sector2_lap_num: u8,
    pub best_sector3_lap_num: u8,
    pub laps: Seq<LapHistory>,
}

impl View for PacketSessionHistory {
    type V = PacketSessionHistoryModel;

    open spec fn view(&self) -> PacketSessionHistoryModel {
        PacketSessionHistoryModel {
            car_idx: self.car_idx,
            num_laps: self.num_laps,
            num_tyre_stints: self.num_tyre_stints,
            best_lap_time_lap_num: self.best_lap_time_lap_num,
            best_sector1_lap_num: self.best_sector1_lap_num,
            best_sector2_lap_num: self.best_sector2_lap_num,
            best_sector3_lap_num: self.best_sector3_lap_num,
            laps: self.laps@,
        }
    }
}

/// Final classification of one car.  `total_race_time_bits` is the
/// wire's 64-bit float, kept bit-exact.
#[derive(Clone, Copy, Debug, PartialEq, Eq, Structural)]
pub struct FinalClassificationRow {
    pub position: u8,
    pub num_laps: u8,
    pub grid_position: u8,
    pub points: u8,
    pub num_pit_stops: u8,
    pub result_status: u8,
    pub best_lap_time_ms: u32,
    pub total_race_time_bits: u64,
    pub penalties_time: u8,
    pub num_penalties: u8,
}

/// FinalClassification packet: the car count and one row per slot.
#[derive(Clone, Debug, PartialEq, Eq)]
pub struct PacketFinalClassification {
    pub num_cars: u8,
    pub rows: Vec<FinalClassificationRow>,
}

/// Model of [`PacketFinalClassification`].
pub struct PacketFinalClassificationModel {
    pub num_cars: u8,
    pub rows: Seq<FinalClassificationRow>,
}

impl View for PacketFinalClassification {
    type V = PacketFinalClassificationModel;

    open spec fn view(&self) -> PacketFinalClassificationModel {
        PacketFinalClassificationModel { num_cars: self.num_cars, rows: self.rows@ }
    }
}

/// A decoded packet of any kind the engine processes.
#[derive(Clone, Debug, PartialEq, Eq)]
pub enum Packet {
    Motion(PacketMotion),
    Session(PacketSession),
    Event(PacketEvent),
    Participants(PacketParticipants),
    FinalClassification(PacketFinalClassification),
    SessionHistory(PacketSessionHistory),
}

/// Model of [`Packet`].
pub enum PacketModel {
    Motion(PacketMotionModel),
    Session(PacketSession),
    Event(PacketEventModel),
    Participants(PacketParticipantsModel),
    FinalClassification(PacketFinalClassificationModel),
    SessionHistory(PacketSessionHistoryModel),
}

impl View for Packet {
    type V = PacketModel;

    open spec fn view(&self) -> PacketModel {
        match self {
            Packet::Motion(p) => PacketModel::Motion(p@),
            Packet::Session(p) => PacketModel::Session(*p),
            Packet::Event(p) => PacketModel::Event(p@),
            Packet::Participants(p) => PacketModel::Participants(p@),
            Packet::FinalClassification(p) => PacketModel::FinalClassification(p@),
            Packet::SessionHistory(p) => PacketModel::SessionHistory(p@),
        }
    }
}

/// A fresh vector holding the same elements.
pub fn copy_vec<T: Copy>(v: &Vec<T>) -> (r: Vec<T>)
    ensures
        r@ == v@,
{
    let mut r: Vec<T> = Vec::new();
    assert(r@ =~= v@.take(0));
    let mut i: usize = 0;
    while i < v.len()
        invariant
            i <= v@.len(),
            r@ == v@.take(i as int),
        decreases v@.len() - i,
    {
        r.push(v[i]);
        assert(r@ =~= v@.take(i + 1));
        i = i + 1;
    }
    assert(r@ =~= v@);
    r
}

impl Participant {
    /// A fresh participant equal to this one.
    pub fn duplicate(&self) -> (r: Participant)
        ensures
            r@ == self@,
    {
        Participant {
            ai_controlled: self.ai_controlled,
            driver_id: self.driver_id,
            network_id: self.network_id,
            team_id: self.team_id,
            my_team: self.my_team,
            race_number: self.race_number,
            nationality: self.nationality,
            name: copy_vec(&self.name),
            your_telemetry: self.your_telemetry,
            show_online_names: self.show_online_names,
            platform: self.platform,
        }
    }
}

impl Packet {
    /// A fresh packet equal to this one, as the broadcast bus hands a
    /// copy of each message to each subscriber.
    pub fn duplicate(&self) -> (r: Packet)
        ensures
            r@ == self@,
    {
        match self {
            Packet::Motion(p) => Packet::Motion(PacketMotion { cars: copy_vec(&p.cars) }),
            Packet::Session(p) => Packet::Session(*p),
            Packet::Event(p) => Packet::Event(
                PacketEvent { code: p.code, payload: copy_vec(&p.payload) },
            ),
            Packet::Participants(p) => {
                let mut participants: Vec<Participant> = Vec::new();
                let mut i: usize = 0;
                while i < p.participants.len()
                    invariant
                        i <= p.participants@.len(),
                        participants@.len() == i,
                        forall|j: int|
                            0 <= j < i ==> participants@[j]@ == p.participants@[j]@,
                    decreases p.participants@.len() - i,
                {
                    participants.push(p.participants[i].duplicate());
                    i = i + 1;
                }
                let r = Packet::Participants(
                    PacketParticipants { num_active_cars: p.num_active_cars, participants },
                );
                proof {
                    assert(participants@.map_values(|q: Participant| q@) =~= p.participants@
                        .map_values(|q: Participant| q@));
                }
                r
            },
            Packet::FinalClassification(p) => Packet::FinalClassification(
                PacketFinalClassification { num_cars: p.num_cars, rows: copy_vec(&p.rows) },
            ),
            Packet::SessionHistory(p) => Packet::SessionHistory(
                PacketSessionHistory {
                    car_idx: p.car_idx,
                    num_laps: p.num_laps,
                    num_tyre_stints: p.num_tyre_stints,
                    best_lap_time_lap_num: p.best_lap_time_lap_num,
                    best_sector1_lap_num: p.best_sector1_lap_num,
                    best_sector2_lap_num: p.best_sector2_lap_num,
                    best_sector3_lap_num: p.best_sector3_lap_num,
                    laps: copy_vec(&p.laps),
                },
            ),
        }
    }
}

} // verus!
