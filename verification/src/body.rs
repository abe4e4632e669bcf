//! Decoding of packet bodies, dispatched on the header's `packet_id`.
//!
//! [`decode_body`] rejects discriminants the engine does not process
//! (`UnknownKind`) and inputs shorter than the declared kind's fixed
//! C-struct size (`Truncated`).  Participant names are nul-terminated
//! within their 48-byte field and must be well-formed UTF-8 up to the
//! first nul; otherwise the packet is rejected (`InvalidName`).  The
//! spec functions below are the authoritative reading of each kind.

use vstd::prelude::*;

use crate::packets::BodyError;
use crate::packets::CarMotion;
use crate::packets::EventCode;
use crate::packets::EVENT_PACKET_LEN;
use crate::packets::FinalClassificationRow;
use crate::packets::FINAL_CLASSIFICATION_PACKET_LEN;
use crate::packets::LapHistory;
use crate::packets::MOTION_PACKET_LEN;
use crate::packets::NUM_CARS;
use crate::packets::NUM_LAP_SLOTS;
use crate::packets::Packet;
use crate::packets::PacketEvent;
use crate::packets::PacketEventModel;
use crate::packets::PacketFinalClassification;
use crate::packets::PacketFinalClassificationModel;
use crate::packets::PacketModel;
use crate::packets::PacketMotion;
use crate::packets::PacketMotionModel;
use crate::packets::PacketParticipants;
use crate::packets::PacketParticipantsModel;
use crate::packets::PacketSession;
use crate::packets::PacketSessionHistory;
use crate::packets::PacketSessionHistoryModel;
use crate::packets::Participant;
use crate::packets::ParticipantModel;
use crate::packets::PARTICIPANTS_PACKET_LEN;
use crate::packets::PACKET_ID_EVENT;
use crate::packets::PACKET_ID_FINAL_CLASSIFICATION;
use crate::packets::PACKET_ID_MOTION;
use crate::packets::PACKET_ID_PARTICIPANTS;
use crate::packets::PACKET_ID_SESSION;
use crate::packets::PACKET_ID_SESSION_HISTORY;
use crate::packets::SESSION_HISTORY_PACKET_LEN;
use crate::packets::SESSION_PACKET_LEN;
use crate::utf8::check_utf8;
use crate::utf8::is_utf8;
use crate::wire::le_u16;
use crate::wire::le_u32;
use crate::wire::le_u64;
use crate::wire::read_u16;
use crate::wire::read_u32;
use crate::wire::read_u64;

verus! {

/// Bytes `from..to` of `b` as a fresh vector.
pub fn copy_range(b: &Vec<u8>, from: usize, to: usize) -> (r: Vec<u8>)
    requires
        from <= to,
        to <= b@.len(),
    ensures
        r@ == b@.subrange(from as int, to as int),
{
    let mut r: Vec<u8> = Vec::new();
    let mut i: usize = from;
    while i < to
        invariant
            from <= i <= to,
            to <= b@.len(),
            r@ == b@.subrange(from as int, i as int),
        decreases to - i,
    {
        r.push(b[i]);
        assert(r@ =~= b@.subrange(from as int, i + 1));
        i = i + 1;
    }
    r
}

/// `p` is the position of the first nul in `field`.
pub open spec fn is_name_prefix(field: Seq<u8>, p: int) -> bool {
    &&& 0 <= p < field.len()
    &&& field[p] == 0
    &&& forall|j: int| 0 <= j < p ==> field[j] != 0
}

/// `field` holds a nul somewhere.
pub open spec fn has_name_nul(field: Seq<u8>) -> bool {
    exists|p: int| is_name_prefix(field, p)
}

/// Position of the first nul of `field` (meaningful under
/// [`has_name_nul`]).
pub open spec fn name_end(field: Seq<u8>) -> int {
    choose|p: int| is_name_prefix(field, p)
}

/// The name carried by `field`: everything before its first nul.
pub open spec fn spec_name(field: Seq<u8>) -> Seq<u8> {
    field.take(name_end(field))
}

/// The name field is accepted: nul-terminated and UTF-8 up to the nul.
pub open spec fn name_ok(field: Seq<u8>) -> bool {
    has_name_nul(field) && is_utf8(spec_name(field))
}

/// The first nul is at one position only.
pub proof fn lemma_name_end_at(field: Seq<u8>, p: int)
    requires
        is_name_prefix(field, p),
    ensures
        name_end(field) == p,
{
    let q = name_end(field);
    assert(is_name_prefix(field, q));
    if q < p {
        assert(field[q] != 0);
    } else if p < q {
        assert(field[p] != 0);
    }
}

/// The [`CarMotion`] record at byte offset `base`.
pub open spec fn spec_car_motion(b: Seq<u8>, base: int) -> CarMotion {
    CarMotion {
        world_position_x_bits: le_u32(b, base),
        world_position_y_bits: le_u32(b, base + 4),
        world_position_z_bits: le_u32(b, base + 8),
        world_velocity_x_bits: le_u32(b, base + 12),
        world_velocity_y_bits: le_u32(b, base + 16),
        world_velocity_z_bits: le_u32(b, base + 20),
        world_forward_dir_x: le_u16(b, base + 24) as i16,
        world_forward_dir_y: le_u16(b, base + 26) as i16,
        world_forward_dir_z: le_u16(b, base + 28) as i16,
        world_right_dir_x: le_u16(b, base + 30) as i16,
        world_right_dir_y: le_u16(b, base + 32) as i16,
        world_right_dir_z: le_u16(b, base + 34) as i16,
        g_force_lateral_bits: le_u32(b, base + 36),
        g_force_longitudinal_bits: le_u32(b, base + 40),
        g_force_vertical_bits: le_u32(b, base + 44),
        yaw_bits: le_u32(b, base + 48),
        pitch_bits: le_u32(b, base + 52),
        roll_bits: le_u32(b, base + 56),
    }
}

/// The Motion packet carried by `b` (length already checked).
pub open spec fn spec_motion(b: Seq<u8>) -> PacketMotionModel {
    PacketMotionModel { cars: Seq::new(NUM_CARS as nat, |k: int| spec_car_motion(b, 29 + 60 * k)) }
}

/// The Session packet carried by `b` (length already checked).
pub open spec fn spec_session(b: Seq<u8>) -> PacketSession {
    PacketSession {
        weather: b[29],
        track_temperature: b[30] as i8,
        air_temperature: b[31] as i8,
        total_laps: b[32],
        track_length: le_u16(b, 33),
        session_type: b[35],
        track_id: b[36] as i8,
        formula: b[37],
        session_time_left: le_u16(b, 38),
        session_duration: le_u16(b, 40),
    }
}

/// The Event packet carried by `b` (length already checked).
pub open spec fn spec_event(b: Seq<u8>) -> PacketEventModel {
    PacketEventModel {
        code: EventCode { b0: b[29], b1: b[30], b2: b[31], b3: b[32] },
        payload: b.subrange(33, EVENT_PACKET_LEN as int),
    }
}

/// Offset of participant record `k`.
pub open spec fn participant_base(k: int) -> int {
    30 + 58 * k
}

/// The name field (48 bytes) of participant record `k`.
pub open spec fn participant_name_field(b: Seq<u8>, k: int) -> Seq<u8> {
    b.subrange(participant_base(k) + 7, participant_base(k) + 55)
}

/// The participant record at index `k`, assuming its name is accepted.
pub open spec fn spec_participant(b: Seq<u8>, k: int) -> ParticipantModel {
    let base = participant_base(k);
    ParticipantModel {
        ai_controlled: b[base],
        driver_id: b[base + 1],
        network_id: b[base + 2],
        team_id: b[base + 3],
        my_team: b[base + 4],
        race_number: b[base + 5],
        nationality: b[base + 6],
        name: spec_name(participant_name_field(b, k)),
        your_telemetry: b[base + 55],
        show_online_names: b[base + 56],
        platform: b[base + 57],
    }
}

/// Every participant name field of `b` is accepted.
pub open spec fn participants_names_ok(b: Seq<u8>) -> bool {
    forall|k: int| 0 <= k < NUM_CARS ==> name_ok(#[trigger] participant_name_field(b, k))
}

/// The Participants packet carried by `b` (length and names already
/// checked).
pub open spec fn spec_participants(b: Seq<u8>) -> PacketParticipantsModel {
    PacketParticipantsModel {
        num_active_cars: b[29],
        participants: Seq::new(NUM_CARS as nat, |k: int| spec_participant(b, k)),
    }
}

/// The [`LapHistory`] record at byte offset `base`.
pub open spec fn spec_lap(b: Seq<u8>, base: int) -> LapHistory {
    LapHistory {
        lap_time_ms: le_u32(b, base),
        sector1_ms: le_u16(b, base + 4),
        sector1_minutes: b[base + 6],
        sector2_ms: le_u16(b, base + 7),
        sector2_minutes: b[base + 9],
        sector3_ms: le_u16(b, base + 10),
        sector3_minutes: b[base + 12],
        lap_valid_flags: b[base + 13],
    }
}

/// The SessionHistory packet carried by `b` (length already checked).
pub open spec fn spec_session_history(b: Seq<u8>) -> PacketSessionHistoryModel {
    PacketSessionHistoryModel {
        car_idx: b[29],
        num_laps: b[30],
        num_tyre_stints: b[31],
        best_lap_time_lap_num: b[32],
        best_sector1_lap_num: b[33],
        best_sector2_lap_num: b[34],
        best_sector3_lap_num: b[35],
        laps: Seq::new(NUM_LAP_SLOTS as nat, |k: int| spec_lap(b, 36 + 14 * k)),
    }
}

/// The [`FinalClassificationRow`] record at byte offset `base`.
pub open spec fn spec_final_row(b: Seq<u8>, base: int) -> FinalClassificationRow {
    FinalClassificationRow {
        position: b[base],
        num_laps: b[base + 1],
        grid_position: b[base + 2],
        points: b[base + 3],
        num_pit_stops: b[base + 4],
        result_status: b[base + 5],
        best_lap_time_ms: le_u32(b, base + 6),
        total_race_time_bits: le_u64(b, base + 10),
        penalties_time: b[base + 18],
        num_penalties: b[base + 19],
    }
}

/// The FinalClassification packet carried by `b` (length already
/// checked).
pub open spec fn spec_final_classification(b: Seq<u8>) -> PacketFinalClassificationModel {
    PacketFinalClassificationModel {
        num_cars: b[29],
        rows: Seq::new(NUM_CARS as nat, |k: int| spec_final_row(b, 30 + 45 * k)),
    }
}

/// What [`decode_body`] returns: the packet of the declared kind, or
/// the error, decided exactly by the discriminant, the length, and —
/// for Participants — the name fields.
pub open spec fn spec_decode_body(packet_id: u8, b: Seq<u8>) -> Result<PacketModel, BodyError> {
    if packet_id == PACKET_ID_MOTION {
        if b.len() < MOTION_PACKET_LEN {
            Err(BodyError::Truncated)
        } else {
            Ok(PacketModel::Motion(spec_motion(b)))
        }
    } else if packet_id == PACKET_ID_SESSION {
        if b.len() < SESSION_PACKET_LEN {
            Err(BodyError::Truncated)
        } else {
            Ok(PacketModel::Session(spec_session(b)))
        }
    } else if packet_id == PACKET_ID_EVENT {
        if b.len() < EVENT_PACKET_LEN {
            Err(BodyError::Truncated)
        } else {
            Ok(PacketModel::Event(spec_event(b)))
        }
    } else if packet_id == PACKET_ID_PARTICIPANTS {
        if b.len() < PARTICIPANTS_PACKET_LEN {
            Err(BodyError::Truncated)
        } else if !participants_names_ok(b) {
            Err(BodyError::InvalidName)
        } else {
            Ok(PacketModel::Participants(spec_participants(b)))
        }
    } else if packet_id == PACKET_ID_FINAL_CLASSIFICATION {
        if b.len() < FINAL_CLASSIFICATION_PACKET_LEN {
            Err(BodyError::Truncated)
        } else {
            Ok(PacketModel::FinalClassification(spec_final_classification(b)))
        }
    } else if packet_id == PACKET_ID_SESSION_HISTORY {
        if b.len() < SESSION_HISTORY_PACKET_LEN {
            Err(BodyError::Truncated)
        } else {
            Ok(PacketModel::SessionHistory(spec_session_history(b)))
        }
    } else {
        Err(BodyError::UnknownKind)
    }
}

fn decode_motion(b: &Vec<u8>) -> (r: PacketMotion)
    requires
        b@.len() >= MOTION_PACKET_LEN,
    ensures
        r@ == spec_motion(b@),
{
    let n = b.len();
    let mut cars: Vec<CarMotion> = Vec::new();
    let mut k: usize = 0;
    while k < NUM_CARS
        invariant
            k <= NUM_CARS,
            n == b@.len(),
            n >= MOTION_PACKET_LEN,
            cars@.len() == k,
            forall|j: int| 0 <= j < k ==> cars@[j] == spec_car_motion(b@, 29 + 60 * j),
        decreases NUM_CARS - k,
    {
        let base = 29 + 60 * k;
        let car = CarMotion {
            world_position_x_bits: read_u32(b, base),
            world_position_y_bits: read_u32(b, base + 4),
            world_position_z_bits: read_u32(b, base + 8),
            world_velocity_x_bits: read_u32(b, base + 12),
            world_velocity_y_bits: read_u32(b, base + 16),
            world_velocity_z_bits: read_u32(b, base + 20),
            world_forward_dir_x: read_u16(b, base + 24) as i16,
            world_forward_dir_y: read_u16(b, base + 26) as i16,
            world_forward_dir_z: read_u16(b, base + 28) as i16,
            world_right_dir_x: read_u16(b, base + 30) as i16,
            world_right_dir_y: read_u16(b, base + 32) as i16,
            world_right_dir_z: read_u16(b, base + 34) as i16,
            g_force_lateral_bits: read_u32(b, base + 36),
            g_force_longitudinal_bits: read_u32(b, base + 40),
            g_force_vertical_bits: read_u32(b, base + 44),
            yaw_bits: read_u32(b, base + 48),
            pitch_bits: read_u32(b, base + 52),
            roll_bits: read_u32(b, base + 56),
        };
        assert(car == spec_car_motion(b@, 29 + 60 * (k as int)));
        cars.push(car);
        k = k + 1;
    }
    let r = PacketMotion { cars };
    proof {
        assert(r@.cars =~= spec_motion(b@).cars);
    }
    r
}

fn decode_session(b: &Vec<u8>) -> (r: PacketSession)
    requires
        b@.len() >= SESSION_PACKET_LEN,
    ensures
        r == spec_session(b@),
{
    let n = b.len();
    PacketSession {
        weather: b[29],
        track_temperature: b[30] as i8,
        air_temperature: b[31] as i8,
        total_laps: b[32],
        track_length: read_u16(b, 33),
        session_type: b[35],
        track_id: b[36] as i8,
        formula: b[37],
        session_time_left: read_u16(b, 38),
        session_duration: read_u16(b, 40),
    }
}

fn decode_event(b: &Vec<u8>) -> (r: PacketEvent)
    requires
        b@.len() >= EVENT_PACKET_LEN,
    ensures
        r@ == spec_event(b@),
{
    let n = b.len();
    let code = EventCode { b0: b[29], b1: b[30], b2: b[31], b3: b[32] };
    let payload = copy_range(b, 33, EVENT_PACKET_LEN);
    PacketEvent { code, payload }
}

/// Extracts a participant name from the 48-byte field at `base`:
/// everything before the first nul, which must be well-formed UTF-8.
fn parse_name(b: &Vec<u8>, base: usize) -> (r: Result<Vec<u8>, BodyError>)
    requires
        base + 48 <= b@.len(),
    ensures
        ({
            let field = b@.subrange(base as int, base as int + 48);
            &&& (r matches Ok(name) ==> name_ok(field) && name@ == spec_name(field))
            &&& (r matches Err(e) ==> e == BodyError::InvalidName && !name_ok(field))
        }),
{
    let ghost field = b@.subrange(base as int, base as int + 48);
    let n = b.len();
    let mut j: usize = 0;
    while j < 48 && b[base + j] != 0
        invariant
            j <= 48,
            base + 48 <= n == b@.len(),
            field == b@.subrange(base as int, base as int + 48),
            forall|jj: int| 0 <= jj < j ==> field[jj] != 0,
        decreases 48 - j,
    {
        assert(field[j as int] == b@[base + j]);
        j = j + 1;
    }
    if j == 48 {
        assert(forall|jj: int| 0 <= jj < 48 ==> field[jj] != 0);
        assert(!has_name_nul(field)) by {
            if has_name_nul(field) {
                let p = choose|p: int| is_name_prefix(field, p);
                assert(field[p] != 0);
            }
        }
        return Err(BodyError::InvalidName);
    }
    let nul = j;
    assert(field[nul as int] == b@[base + nul]);
    assert(is_name_prefix(field, nul as int));
    proof {
        lemma_name_end_at(field, nul as int);
    }
    let name = copy_range(b, base, base + nul);
    assert(name@ =~= field.take(nul as int));
    if check_utf8(&name) {
        Ok(name)
    } else {
        Err(BodyError::InvalidName)
    }
}

fn decode_participants(b: &Vec<u8>) -> (r: Result<PacketParticipants, BodyError>)
    requires
        b@.len() >= PARTICIPANTS_PACKET_LEN,
    ensures
        r matches Ok(p) ==> participants_names_ok(b@) && p@ == spec_participants(b@),
        r matches Err(e) ==> e == BodyError::InvalidName && !participants_names_ok(b@),
{
    let n = b.len();
    let mut participants: Vec<Participant> = Vec::new();
    let mut k: usize = 0;
    while k < NUM_CARS
        invariant
            k <= NUM_CARS,
            n == b@.len(),
            n >= PARTICIPANTS_PACKET_LEN,
            participants@.len() == k,
            forall|j: int| 0 <= j < k ==> name_ok(#[trigger] participant_name_field(b@, j)),
            forall|j: int| 0 <= j < k ==> participants@[j]@ == spec_participant(b@, j),
        decreases NUM_CARS - k,
    {
        let base = 30 + 58 * k;
        assert(participant_base(k as int) == base);
        let name = match parse_name(b, base + 7) {
            Ok(name) => name,
            Err(e) => {
                assert(b@.subrange(base + 7, base as int + 55) == participant_name_field(
                    b@,
                    k as int,
                ));
                return Err(BodyError::InvalidName);
            },
        };
        assert(b@.subrange(base + 7, base as int + 55) == participant_name_field(b@, k as int));
        let entry = Participant {
            ai_controlled: b[base],
            driver_id: b[base + 1],
            network_id: b[base + 2],
            team_id: b[base + 3],
            my_team: b[base + 4],
            race_number: b[base + 5],
            nationality: b[base + 6],
            name,
            your_telemetry: b[base + 55],
            show_online_names: b[base + 56],
            platform: b[base + 57],
        };
        assert(entry@ == spec_participant(b@, k as int));
        participants.push(entry);
        k = k + 1;
    }
    let r = PacketParticipants { num_active_cars: b[29], participants };
    proof {
        assert(r@.participants =~= spec_participants(b@).participants);
    }
    Ok(r)
}

fn decode_session_history(b: &Vec<u8>) -> (r: PacketSessionHistory)
    requires
        b@.len() >= SESSION_HISTORY_PACKET_LEN,
    ensures
        r@ == spec_session_history(b@),
{
    let n = b.len();
    let mut laps: Vec<LapHistory> = Vec::new();
    let mut k: usize = 0;
    while k < NUM_LAP_SLOTS
        invariant
            k <= NUM_LAP_SLOTS,
            n == b@.len(),
            n >= SESSION_HISTORY_PACKET_LEN,
            laps@.len() == k,
            forall|j: int| 0 <= j < k ==> laps@[j] == spec_lap(b@, 36 + 14 * j),
        decreases NUM_LAP_SLOTS - k,
    {
        let base = 36 + 14 * k;
        let lap = LapHistory {
            lap_time_ms: read_u32(b, base),
            sector1_ms: read_u16(b, base + 4),
            sector1_minutes: b[base + 6],
            sector2_ms: read_u16(b, base + 7),
            sector2_minutes: b[base + 9],
            sector3_ms: read_u16(b, base + 10),
            sector3_minutes: b[base + 12],
            lap_valid_flags: b[base + 13],
        };
        assert(lap == spec_lap(b@, 36 + 14 * (k as int)));
        laps.push(lap);
        k = k + 1;
    }
    let r = PacketSessionHistory {
        car_idx: b[29],
        num_laps: b[30],
        num_tyre_stints: b[31],
        best_lap_time_lap_num: b[32],
        best_sector1_lap_num: b[33],
        best_sector2_lap_num: b[34],
        best_sector3_lap_num: b[35],
        laps,
    };
    proof {
        assert(r@.laps =~= spec_session_history(b@).laps);
    }
    r
}

fn decode_final_classification(b: &Vec<u8>) -> (r: PacketFinalClassification)
    requires
        b@.len() >= FINAL_CLASSIFICATION_PACKET_LEN,
    ensures
        r@ == spec_final_classification(b@),
{
    let n = b.len();
    let mut rows: Vec<FinalClassificationRow> = Vec::new();
    let mut k: usize = 0;
    while k < NUM_CARS
        invariant
            k <= NUM_CARS,
            n == b@.len(),
            n >= FINAL_CLASSIFICATION_PACKET_LEN,
            rows@.len() == k,
            forall|j: int| 0 <= j < k ==> rows@[j] == spec_final_row(b@, 30 + 45 * j),
        decreases NUM_CARS - k,
    {
        let base = 30 + 45 * k;
        let row = FinalClassificationRow {
            position: b[base],
            num_laps: b[base + 1],
            grid_position: b[base + 2],
            points: b[base + 3],
            num_pit_stops: b[base + 4],
            result_status: b[base + 5],
            best_lap_time_ms: read_u32(b, base + 6),
            total_race_time_bits: read_u64(b, base + 10),
            penalties_time: b[base + 18],
            num_penalties: b[base + 19],
        };
        assert(row == spec_final_row(b@, 30 + 45 * (k as int)));
        rows.push(row);
        k = k + 1;
    }
    let r = PacketFinalClassification { num_cars: b[29], rows };
    proof {
        assert(r@.rows =~= spec_final_classification(b@).rows);
    }
    r
}

/// Decodes the body of a datagram whose header carried `packet_id`.
///
/// Exact: the result is `Ok` with the packet read at the kind's fixed
/// offsets when the kind is known, the input is long enough and — for
/// Participants — every name is accepted; it is the corresponding
/// error otherwise.
pub fn decode_body(packet_id: u8, b: &Vec<u8>) -> (r: Result<Packet, BodyError>)
    ensures
        r matches Ok(p) ==> (spec_decode_body(packet_id, b@) matches Ok(m) && p@ == m),
        r matches Err(e) ==> spec_decode_body(packet_id, b@) == Err::<PacketModel, BodyError>(e),
{
    if packet_id == PACKET_ID_MOTION {
        if b.len() < MOTION_PACKET_LEN {
            return Err(BodyError::Truncated);
        }
        Ok(Packet::Motion(decode_motion(b)))
    } else if packet_id == PACKET_ID_SESSION {
        if b.len() < SESSION_PACKET_LEN {
            return Err(BodyError::Truncated);
        }
        Ok(Packet::Session(decode_session(b)))
    } else if packet_id == PACKET_ID_EVENT {
        if b.len() < EVENT_PACKET_LEN {
            return Err(BodyError::Truncated);
        }
        Ok(Packet::Event(decode_event(b)))
    } else if packet_id == PACKET_ID_PARTICIPANTS {
        if b.len() < PARTICIPANTS_PACKET_LEN {
            return Err(BodyError::Truncated);
        }
        match decode_participants(b) {
            Ok(p) => Ok(Packet::Participants(p)),
            Err(e) => Err(e),
        }
    } else if packet_id == PACKET_ID_FINAL_CLASSIFICATION {
        if b.len() < FINAL_CLASSIFICATION_PACKET_LEN {
            return Err(BodyError::Truncated);
        }
        Ok(Packet::FinalClassification(decode_final_classification(b)))
    } else if packet_id == PACKET_ID_SESSION_HISTORY {
        if b.len() < SESSION_HISTORY_PACKET_LEN {
            return Err(BodyError::Truncated);
        }
        Ok(Packet::SessionHistory(decode_session_history(b)))
    } else {
        Err(BodyError::UnknownKind)
    }
}

} // verus!
