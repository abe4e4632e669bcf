use f123_telemetry::body::decode_body;
use f123_telemetry::header::decode_header;
use f123_telemetry::header::encode_header;
use f123_telemetry::header::HeaderError;
use f123_telemetry::header::PacketHeader;
use f123_telemetry::header::HEADER_LEN;
use f123_telemetry::ingest::SnapshotKey;
use f123_telemetry::keys::render_key;
use f123_telemetry::keys::u64_decimal;
use f123_telemetry::packets::BodyError;
use f123_telemetry::packets::Packet;
use f123_telemetry::proto::ToProtoMessageBatched;
use f123_telemetry::utf8::check_utf8;

fn sample_header() -> PacketHeader {
    PacketHeader {
        packet_format: 2023,
        game_year: 23,
        game_major_version: 1,
        game_minor_version: 18,
        packet_version: 1,
        packet_id: 3,
        session_uid: 0x0123_4567_89ab_cdef,
        session_time_bits: 0x3f80_0000,
        frame_identifier: 4242,
        overall_frame_identifier: 8484,
        player_car_index: 19,
        secondary_player_car_index: 255,
    }
}

fn header_bytes(packet_id: u8, session_uid: u64) -> Vec<u8> {
    let mut h = sample_header();
    h.packet_id = packet_id;
    h.session_uid = session_uid;
    encode_header(&h)
}

fn padded_packet(packet_id: u8, session_uid: u64, total_len: usize) -> Vec<u8> {
    let mut b = header_bytes(packet_id, session_uid);
    b.resize(total_len, 0);
    b
}

#[test]
fn header_round_trip() {
    let h = sample_header();
    let encoded = encode_header(&h);
    assert_eq!(encoded.len(), HEADER_LEN);
    assert_eq!(decode_header(&encoded), Ok(h));
}

#[test]
fn header_rejects_short_input() {
    for len in 0..HEADER_LEN {
        let b = vec![0u8; len];
        assert_eq!(decode_header(&b), Err(HeaderError::MalformedHeader));
    }
}

#[test]
fn header_accepts_any_full_input() {
    let b = vec![0u8; HEADER_LEN];
    let h = decode_header(&b).unwrap();
    assert_eq!(h.packet_format, 0);
    assert_eq!(h.session_uid, 0);
}

#[test]
fn header_reads_little_endian_fields() {
    let mut b = vec![0u8; HEADER_LEN];
    b[0] = 0xe7;
    b[1] = 0x07; // 2023
    b[6] = 11;
    b[7] = 0x2a; // session_uid = 42
    let h = decode_header(&b).unwrap();
    assert_eq!(h.packet_format, 2023);
    assert_eq!(h.packet_id, 11);
    assert_eq!(h.session_uid, 42);
}

#[test]
fn body_rejects_unknown_kind() {
    let b = padded_packet(2, 7, 1464);
    assert!(matches!(decode_body(2, &b), Err(BodyError::UnknownKind)));
    let b = padded_packet(13, 7, 1464);
    assert!(matches!(decode_body(13, &b), Err(BodyError::UnknownKind)));
}

#[test]
fn body_rejects_truncated_motion() {
    let b = padded_packet(0, 7, 1348);
    assert!(matches!(decode_body(0, &b), Err(BodyError::Truncated)));
}

#[test]
fn motion_decodes_per_car_fields() {
    let mut b = padded_packet(0, 7, 1349);
    // Car 0 begins right after the header.
    b[29..33].copy_from_slice(&0x3f80_0000u32.to_le_bytes()); // world position x bits
    b[53..55].copy_from_slice(&(-123i16).to_le_bytes()); // forward dir x
    // Car 21 begins at 29 + 60 * 21 = 1289; yaw sits at offset 48 within it.
    b[1337..1341].copy_from_slice(&0x4000_0000u32.to_le_bytes());
    let p = decode_body(0, &b).unwrap();
    match p {
        Packet::Motion(m) => {
            assert_eq!(m.cars.len(), 22);
            assert_eq!(m.cars[0].world_position_x_bits, 0x3f80_0000);
            assert_eq!(m.cars[0].world_forward_dir_x, -123);
            assert_eq!(m.cars[21].yaw_bits, 0x4000_0000);
        },
        _ => panic!("expected a Motion packet"),
    }
}

#[test]
fn session_decodes_leading_fields() {
    let mut b = padded_packet(1, 7, 644);
    b[29] = 3; // weather
    b[30] = 0xec; // track temperature -20
    b[32] = 57; // total laps
    b[33..35].copy_from_slice(&5303u16.to_le_bytes()); // track length
    let p = decode_body(1, &b).unwrap();
    match p {
        Packet::Session(s) => {
            assert_eq!(s.weather, 3);
            assert_eq!(s.track_temperature, -20);
            assert_eq!(s.total_laps, 57);
            assert_eq!(s.track_length, 5303);
        },
        _ => panic!("expected a Session packet"),
    }
}

#[test]
fn event_decodes_code_and_payload() {
    let mut b = padded_packet(3, 7, 45);
    b[29] = b'F';
    b[30] = b'T';
    b[31] = b'L';
    b[32] = b'P';
    b[33] = 5; // vehicle index in the union payload
    let p = decode_body(3, &b).unwrap();
    match p {
        Packet::Event(e) => {
            assert_eq!((e.code.b0, e.code.b1, e.code.b2, e.code.b3), (b'F', b'T', b'L', b'P'));
            assert_eq!(e.payload.len(), 12);
            assert_eq!(e.payload[0], 5);
        },
        _ => panic!("expected an Event packet"),
    }
}

#[test]
fn participants_decodes_names() {
    let mut b = padded_packet(4, 7, 1306);
    b[29] = 20; // active cars
    // Participant 0 starts at 30; its name field starts at 37.
    let name = "VERSTAPPEN".as_bytes();
    b[37..37 + name.len()].copy_from_slice(name);
    // Nul already present from the zero padding.
    let p = decode_body(4, &b).unwrap();
    match p {
        Packet::Participants(pp) => {
            assert_eq!(pp.num_active_cars, 20);
            assert_eq!(pp.participants.len(), 22);
            assert_eq!(pp.participants[0].name, name.to_vec());
            assert_eq!(pp.participants[1].name, Vec::<u8>::new());
        },
        _ => panic!("expected a Participants packet"),
    }
}

#[test]
fn participants_rejects_name_without_nul() {
    let mut b = padded_packet(4, 7, 1306);
    for i in 37..85 {
        b[i] = b'x';
    }
    assert!(matches!(decode_body(4, &b), Err(BodyError::InvalidName)));
}

#[test]
fn participants_rejects_name_with_bad_utf8() {
    let mut b = padded_packet(4, 7, 1306);
    b[37] = 0xff; // never valid in UTF-8
    b[38] = 0; // nul terminator after the bad byte
    assert!(matches!(decode_body(4, &b), Err(BodyError::InvalidName)));
}

#[test]
fn session_history_decodes_laps() {
    let mut b = padded_packet(11, 7, 1460);
    b[29] = 5; // car index
    b[30] = 2; // laps filled in
    // Lap 1 (index 1) starts at 36 + 14 = 50.
    b[50..54].copy_from_slice(&91_000u32.to_le_bytes()); // lap time
    b[54..56].copy_from_slice(&28_500u16.to_le_bytes()); // sector 1
    b[57..59].copy_from_slice(&30_250u16.to_le_bytes()); // sector 2
    b[60..62].copy_from_slice(&32_250u16.to_le_bytes()); // sector 3
    let p = decode_body(11, &b).unwrap();
    match p {
        Packet::SessionHistory(sh) => {
            assert_eq!(sh.car_idx, 5);
            assert_eq!(sh.num_laps, 2);
            assert_eq!(sh.laps.len(), 100);
            assert_eq!(sh.laps[1].lap_time_ms, 91_000);
            assert_eq!(sh.laps[1].sector1_ms, 28_500);
            assert_eq!(sh.laps[1].sector2_ms, 30_250);
            assert_eq!(sh.laps[1].sector3_ms, 32_250);
        },
        _ => panic!("expected a SessionHistory packet"),
    }
}

#[test]
fn final_classification_decodes_rows() {
    let mut b = padded_packet(8, 7, 1020);
    b[29] = 20; // classified cars
    // Row 0 starts at 30.
    b[30] = 1; // position
    b[36..40].copy_from_slice(&90_123u32.to_le_bytes()); // best lap
    let p = decode_body(8, &b).unwrap();
    match p {
        Packet::FinalClassification(fc) => {
            assert_eq!(fc.num_cars, 20);
            assert_eq!(fc.rows.len(), 22);
            assert_eq!(fc.rows[0].position, 1);
            assert_eq!(fc.rows[0].best_lap_time_ms, 90_123);
        },
        _ => panic!("expected a FinalClassification packet"),
    }
}

#[test]
fn utf8_checker_accepts_and_rejects() {
    assert!(check_utf8(&"plain ascii".as_bytes().to_vec()));
    assert!(check_utf8(&"Pérez — 페레스".as_bytes().to_vec()));
    assert!(check_utf8(&Vec::new()));
    assert!(!check_utf8(&vec![0xff]));
    assert!(!check_utf8(&vec![0xc0, 0x80])); // overlong
    assert!(!check_utf8(&vec![0xed, 0xa0, 0x80])); // surrogate
    assert!(!check_utf8(&vec![0xe2, 0x82])); // truncated sequence
}

#[test]
fn decimal_rendering_is_exact() {
    assert_eq!(u64_decimal(0).as_str(), "0");
    assert_eq!(u64_decimal(7).as_str(), "7");
    assert_eq!(u64_decimal(10).as_str(), "10");
    assert_eq!(u64_decimal(20777).as_str(), "20777");
    assert_eq!(u64_decimal(u64::MAX).as_str(), "18446744073709551615");
}

#[test]
fn snapshot_keys_render_the_schema() {
    let k = SnapshotKey::Session { championship_id: 9, session_uid: 777 };
    assert_eq!(render_key(&k).as_str(), "f123:championship:9:session:777:session");
    let k = SnapshotKey::Participants { championship_id: 9, session_uid: 777 };
    assert_eq!(render_key(&k).as_str(), "f123:championship:9:session:777:participants");
    let k = SnapshotKey::HistoryCar { championship_id: 9, session_uid: 777, car_idx: 5 };
    assert_eq!(render_key(&k).as_str(), "f123:championship:9:session:777:history:car:5");
}

#[test]
fn batched_frames_are_length_delimited() {
    let out = ToProtoMessageBatched::batched_encoded(vec![vec![1, 2, 3], vec![]]).unwrap();
    assert_eq!(out, vec![0x0a, 3, 1, 2, 3, 0x0a, 0]);
}

#[test]
fn batched_long_frame_uses_multi_byte_varint() {
    let frame = vec![9u8; 300];
    let out = ToProtoMessageBatched::batched_encoded(vec![frame.clone()]).unwrap();
    assert_eq!(out[0], 0x0a);
    assert_eq!(&out[1..3], &[0xac, 0x02]); // 300 as a varint
    assert_eq!(&out[3..], frame.as_slice());
}
