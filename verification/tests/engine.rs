use f123_telemetry::bus::BroadcastBus;
use f123_telemetry::bus::RecvOutcome;
use f123_telemetry::events::EventTable;
use f123_telemetry::firewall::FilterState;
use f123_telemetry::firewall::Firewall;
use f123_telemetry::header::encode_header;
use f123_telemetry::header::PacketHeader;
use f123_telemetry::ingest::IngestAction;
use f123_telemetry::ingest::IngestEvent;
use f123_telemetry::ingest::IngestState;
use f123_telemetry::ingest::Lifecycle;
use f123_telemetry::ingest::SnapshotKey;
use f123_telemetry::maps::sector_map_get;
use f123_telemetry::maps::sector_map_insert;
use f123_telemetry::maps::sector_map_new;
use f123_telemetry::maps::stamp_map_get;
use f123_telemetry::maps::stamp_map_insert;
use f123_telemetry::maps::stamp_map_new;
use f123_telemetry::packets::EventCode;
use f123_telemetry::packets::Packet;
use f123_telemetry::packets::PacketSession;
use f123_telemetry::packets::SectorTriple;
use f123_telemetry::ports::PortPool;
use f123_telemetry::registry::ListenerRegistry;
use f123_telemetry::registry::SocketError;
use f123_telemetry::store::SnapshotStore;

fn packet_bytes(packet_id: u8, session_uid: u64, total_len: usize) -> Vec<u8> {
    let h = PacketHeader {
        packet_format: 2023,
        game_year: 23,
        game_major_version: 1,
        game_minor_version: 18,
        packet_version: 1,
        packet_id,
        session_uid,
        session_time_bits: 0,
        frame_identifier: 0,
        overall_frame_identifier: 0,
        player_car_index: 0,
        secondary_player_car_index: 255,
    };
    let mut b = encode_header(&h);
    b.resize(total_len, 0);
    b
}

fn motion_packet(session_uid: u64) -> Vec<u8> {
    packet_bytes(0, session_uid, 1349)
}

fn session_packet(session_uid: u64) -> Vec<u8> {
    packet_bytes(1, session_uid, 644)
}

fn event_packet(session_uid: u64, code: &[u8; 4], first_payload_byte: u8) -> Vec<u8> {
    let mut b = packet_bytes(3, session_uid, 45);
    b[29..33].copy_from_slice(code);
    b[33] = first_payload_byte;
    b
}

fn history_packet(session_uid: u64, car: u8, s1: u16, s2: u16, s3: u16) -> Vec<u8> {
    let mut b = packet_bytes(11, session_uid, 1460);
    b[29] = car;
    b[30] = 1; // one completed lap; its record starts at offset 36
    b[40..42].copy_from_slice(&s1.to_le_bytes());
    b[43..45].copy_from_slice(&s2.to_le_bytes());
    b[46..48].copy_from_slice(&s3.to_le_bytes());
    b
}

fn final_classification_packet(session_uid: u64) -> Vec<u8> {
    packet_bytes(8, session_uid, 1020)
}

fn datagram(bytes: Vec<u8>, source_ip: u32) -> IngestEvent {
    IngestEvent::Datagram { bytes, source_ip }
}

fn count_publishes(acts: &[IngestAction]) -> usize {
    acts.iter().filter(|a| matches!(a, IngestAction::Publish { .. })).count()
}

fn count_motion_publishes(acts: &[IngestAction]) -> usize {
    acts.iter()
        .filter(|a| matches!(a, IngestAction::Publish { packet: Packet::Motion(_) }))
        .count()
}

fn count_snapshots(acts: &[IngestAction]) -> usize {
    acts.iter().filter(|a| matches!(a, IngestAction::WriteSnapshot { .. })).count()
}

fn count_appends(acts: &[IngestAction]) -> usize {
    acts.iter().filter(|a| matches!(a, IngestAction::AppendEvent { .. })).count()
}

fn started_listener(championship_id: u32, port: u16, t0: u64) -> IngestState {
    let mut st = IngestState::new(championship_id, port, t0);
    let acts = st.step(IngestEvent::BindOk, t0);
    assert!(matches!(acts.as_slice(), [IngestAction::OpenFirewall { .. }]));
    assert_eq!(st.lifecycle(), Lifecycle::Bound);
    st
}

#[test]
fn idle_session_produces_nothing() {
    // A packet with session_uid = 0 every 100 ms for 10 s: no
    // publications, no snapshot writes, no event rows.
    let mut st = started_listener(1, 20777, 0);
    for i in 0..100u64 {
        let acts = st.step(datagram(motion_packet(0), 7), i * 100);
        assert_eq!(count_publishes(&acts), 0);
        assert_eq!(count_snapshots(&acts), 0);
        assert_eq!(count_appends(&acts), 0);
        assert!(acts.iter().any(|a| matches!(a, IngestAction::SleepIdle)));
    }
}

#[test]
fn motion_pacing_caps_the_rate() {
    // 100 valid Motion packets at 16 ms intervals: with the 700 ms
    // cap and the clocks seeded at creation, exactly 2 publications.
    let mut st = started_listener(1, 20777, 0);
    let mut published = 0;
    for i in 0..100u64 {
        let acts = st.step(datagram(motion_packet(9), 7), i * 16);
        published += count_motion_publishes(&acts);
    }
    assert!(published >= 2 && published <= 3);
    assert_eq!(published, 2);
}

#[test]
fn event_append_builds_the_row_in_order() {
    // Two Event packets with session_uid = 7 and code FTLP carrying
    // distinct payloads: one row whose list is both in order.
    let mut st = started_listener(1, 20777, 0);
    let mut table = EventTable::new();
    for (i, payload_byte) in [1u8, 2u8].iter().enumerate() {
        let acts = st.step(datagram(event_packet(7, b"FTLP", *payload_byte), 7), i as u64);
        for a in acts {
            if let IngestAction::AppendEvent { session_uid, code, payload } = a {
                table.upsert(session_uid, code, payload);
            }
        }
    }
    assert_eq!(table.len(), 1);
    let code = EventCode { b0: b'F', b1: b'T', b2: b'L', b3: b'P' };
    let rows = table.events(7, code).unwrap();
    assert_eq!(rows.len(), 2);
    assert_eq!(rows[0][0], 1);
    assert_eq!(rows[1][0], 2);
    let mut expected_a = vec![0u8; 12];
    expected_a[0] = 1;
    assert_eq!(rows[0], expected_a);
}

#[test]
fn history_dedup_publishes_changed_triples_only() {
    // Car 5: first sight seeds without publishing; the same triple
    // twice at 3 s spacing publishes nothing; a changed triple after
    // another 3 s publishes once.
    let mut st = started_listener(1, 20777, 0);
    let mut published = 0;
    let mut t = 10_000u64;
    for (s3, dt) in [(1000u16, 0u64), (1000, 3000), (1000, 3000), (1001, 3000)] {
        t += dt;
        let acts = st.step(datagram(history_packet(7, 5, 1000, 1000, s3), 7), t);
        published += count_publishes(&acts);
    }
    assert_eq!(published, 1);
}

#[test]
fn final_classification_ends_the_loop() {
    let mut st = started_listener(1, 20777, 0);
    let acts = st.step(datagram(motion_packet(9), 7), 1000);
    assert!(acts.iter().any(|a| matches!(a, IngestAction::PinFirewall { .. })));
    let acts = st.step(datagram(final_classification_packet(9), 7), 2000);
    let classification_publishes = acts
        .iter()
        .filter(|a| matches!(a, IngestAction::Publish { packet: Packet::FinalClassification(_) }))
        .count();
    assert_eq!(classification_publishes, 1);
    assert!(acts.iter().any(|a| matches!(a, IngestAction::CloseFirewall { port: 20777 })));
    assert_eq!(st.lifecycle(), Lifecycle::Stopped);
    assert!(st.is_terminal());
    // A terminated listener takes no further step.
    let acts = st.step(datagram(motion_packet(9), 7), 3000);
    assert!(acts.is_empty());
}

#[test]
fn first_valid_packet_pins_the_port() {
    let mut st = started_listener(1, 20801, 0);
    let acts = st.step(datagram(motion_packet(9), 0xc0a8_0001), 100);
    assert!(acts
        .iter()
        .any(|a| matches!(a, IngestAction::PinFirewall { port: 20801, source_ip: 0xc0a8_0001 })));
    assert_eq!(st.lifecycle(), Lifecycle::Pinned);
    // Later packets (even from another source, were the OS filter
    // absent) trigger no further pin.
    let acts = st.step(datagram(motion_packet(9), 0xc0a8_0099), 200);
    assert!(!acts.iter().any(|a| matches!(a, IngestAction::PinFirewall { .. })));
}

#[test]
fn malformed_datagrams_are_counted_and_skipped() {
    let mut st = started_listener(1, 20777, 0);
    assert_eq!(st.decode_errors(), 0);
    let acts = st.step(datagram(vec![1, 2, 3], 7), 100);
    assert!(acts.is_empty());
    assert_eq!(st.decode_errors(), 1);
    // Truncated body: the header decodes but the kind demands more.
    let acts = st.step(datagram(packet_bytes(0, 9, 100), 7), 200);
    assert_eq!(count_publishes(&acts), 0);
    assert_eq!(st.decode_errors(), 2);
    assert_eq!(st.lifecycle(), Lifecycle::Pinned);
}

#[test]
fn stop_request_closes_the_firewall() {
    let mut st = started_listener(1, 20777, 0);
    let acts = st.step(IngestEvent::StopRequested, 100);
    assert!(matches!(acts.as_slice(), [IngestAction::CloseFirewall { port: 20777 }]));
    assert!(st.is_terminal());
}

#[test]
fn bind_failure_is_fatal_without_a_close() {
    let mut st = IngestState::new(1, 20777, 0);
    let acts = st.step(IngestEvent::BindFailed, 0);
    assert!(acts.is_empty());
    assert_eq!(st.lifecycle(), Lifecycle::Failed);
}

#[test]
fn registry_start_lists_and_stop_unlists() {
    let mut reg = ListenerRegistry::new();
    assert!(reg.start(3, 20779).is_ok());
    assert!(reg.list().contains(&3));
    assert!(reg.contains(3));
    assert_eq!(reg.stop(3), Ok(20779));
    assert!(!reg.list().contains(&3));
    assert!(!reg.contains(3));
}

#[test]
fn registry_start_twice_already_exists() {
    let mut reg = ListenerRegistry::new();
    assert!(reg.start(3, 20779).is_ok());
    assert_eq!(reg.start(3, 20779), Err(SocketError::AlreadyExists));
    // A different championship on the same port is refused as well.
    assert_eq!(reg.start(4, 20779), Err(SocketError::AlreadyExists));
    assert!(reg.start(4, 20780).is_ok());
}

#[test]
fn registry_stop_twice_not_found() {
    let mut reg = ListenerRegistry::new();
    assert!(reg.start(3, 20779).is_ok());
    assert_eq!(reg.stop(3), Ok(20779));
    assert_eq!(reg.stop(3), Err(SocketError::NotFound));
}

#[test]
fn registry_subscription_and_fanout() {
    let mut reg = ListenerRegistry::new();
    assert!(reg.start(3, 20779).is_ok());
    assert_eq!(reg.subscribe(9), None);
    let sub = reg.subscribe(3).unwrap();
    let sent = reg.publish(3, Packet::Session(sample_session(1)));
    assert!(sent);
    match reg.recv(3, sub) {
        Some(RecvOutcome::Msg(Packet::Session(s))) => assert_eq!(s.weather, 1),
        _ => panic!("expected the published session packet"),
    }
    assert!(matches!(reg.recv(3, sub), Some(RecvOutcome::Empty)));
    // The ingest loop's exit closes the channel: end of stream.
    assert!(reg.close_channel(3));
    assert!(matches!(reg.recv(3, sub), Some(RecvOutcome::Closed)));
    // Publishing toward an unknown championship reaches nobody.
    assert!(!reg.publish(9, Packet::Session(sample_session(1))));
}

fn sample_session(weather: u8) -> PacketSession {
    PacketSession {
        weather,
        track_temperature: 30,
        air_temperature: 25,
        total_laps: 57,
        track_length: 5303,
        session_type: 10,
        track_id: 4,
        formula: 0,
        session_time_left: 3600,
        session_duration: 7200,
    }
}

#[test]
fn bus_subscribers_see_only_later_messages() {
    let mut bus = BroadcastBus::new(8);
    bus.publish(Packet::Session(sample_session(1)));
    let sub = bus.subscribe();
    assert!(matches!(bus.recv(sub), RecvOutcome::Empty));
    bus.publish(Packet::Session(sample_session(2)));
    match bus.recv(sub) {
        RecvOutcome::Msg(Packet::Session(s)) => assert_eq!(s.weather, 2),
        _ => panic!("expected the second session packet"),
    }
}

#[test]
fn bus_lag_drops_oldest_and_reports_count() {
    let mut bus = BroadcastBus::new(2);
    let sub = bus.subscribe();
    for w in 1..=4u8 {
        bus.publish(Packet::Session(sample_session(w)));
    }
    assert!(matches!(bus.recv(sub), RecvOutcome::Lagged(2)));
    match bus.recv(sub) {
        RecvOutcome::Msg(Packet::Session(s)) => assert_eq!(s.weather, 3),
        _ => panic!("expected to resume at the oldest retained message"),
    }
    match bus.recv(sub) {
        RecvOutcome::Msg(Packet::Session(s)) => assert_eq!(s.weather, 4),
        _ => panic!("expected the newest message"),
    }
    assert!(matches!(bus.recv(sub), RecvOutcome::Empty));
    bus.close();
    assert!(matches!(bus.recv(sub), RecvOutcome::Closed));
}

#[test]
fn firewall_open_pin_close_cycle() {
    let mut fw = Firewall::new();
    assert_eq!(fw.rule(20777), None);
    fw.open(20777);
    assert_eq!(fw.rule(20777), Some(FilterState::Open));
    fw.pin(20777, 0xc0a8_0001);
    assert_eq!(fw.rule(20777), Some(FilterState::Pinned { source_ip: 0xc0a8_0001 }));
    // Pinning the same pair twice is a no-op.
    fw.pin(20777, 0xc0a8_0001);
    assert_eq!(fw.rule(20777), Some(FilterState::Pinned { source_ip: 0xc0a8_0001 }));
    // Rules are per port.
    fw.open(20778);
    fw.close(20777);
    assert_eq!(fw.rule(20777), None);
    assert_eq!(fw.rule(20778), Some(FilterState::Open));
}

#[test]
fn port_pool_hands_out_free_ports_only() {
    let in_use = vec![20777u16, 20800];
    let mut pool = PortPool::available_ports(&in_use);
    assert_eq!(pool.len(), 121);
    assert_eq!(pool.get_port(), Some(20778));
    assert!(pool.remove_port(20778));
    assert!(!pool.remove_port(20778));
    assert!(!pool.remove_port(20777));
    assert_eq!(pool.get_port(), Some(20779));
    // Assignment hands out free ports lowest-first, in ascending
    // order.
    let mut last = 0u16;
    for _ in 0..5 {
        let p = pool.get_port().unwrap();
        assert!(p > last);
        assert!(pool.remove_port(p));
        last = p;
    }
    assert_eq!(last, 20783);
}

#[test]
fn event_table_separates_keys() {
    let mut table = EventTable::new();
    let ftlp = EventCode { b0: b'F', b1: b'T', b2: b'L', b3: b'P' };
    let ssta = EventCode { b0: b'S', b1: b'S', b2: b'T', b3: b'A' };
    table.upsert(7, ftlp, vec![1]);
    table.upsert(7, ssta, vec![2]);
    table.upsert(8, ftlp, vec![3]);
    table.upsert(7, ftlp, vec![4]);
    assert_eq!(table.len(), 3);
    let rows = table.events(7, ftlp).unwrap();
    assert_eq!(rows.len(), 2);
    assert_eq!(rows[0], vec![1]);
    assert_eq!(rows[1], vec![4]);
    assert_eq!(table.events(8, ftlp).unwrap().len(), 1);
    assert!(table.events(9, ftlp).is_none());
}

#[test]
fn session_snapshot_carries_the_raw_datagram() {
    let mut st = started_listener(4, 20790, 0);
    let raw = session_packet(55);
    let acts = st.step(datagram(raw.clone(), 7), 20_000);
    let mut seen = false;
    for a in &acts {
        if let IngestAction::WriteSnapshot { key, payload } = a {
            assert!(matches!(
                key,
                SnapshotKey::Session { championship_id: 4, session_uid: 55 }
            ));
            assert_eq!(payload, &raw);
            seen = true;
        }
    }
    assert!(seen);
    // A second session packet inside the 15 s window is sampled away.
    let acts = st.step(datagram(session_packet(55), 7), 25_000);
    assert_eq!(count_snapshots(&acts), 0);
    assert_eq!(count_publishes(&acts), 0);
}

#[test]
fn per_car_maps_track_inserts() {
    let mut stamps = stamp_map_new();
    assert_eq!(stamp_map_get(&stamps, 5), None);
    stamp_map_insert(&mut stamps, 5, 1234);
    assert_eq!(stamp_map_get(&stamps, 5), Some(1234));
    stamp_map_insert(&mut stamps, 5, 2345);
    assert_eq!(stamp_map_get(&stamps, 5), Some(2345));
    let mut sectors = sector_map_new();
    let t = SectorTriple { sector1_ms: 1, sector2_ms: 2, sector3_ms: 3 };
    assert_eq!(sector_map_get(&sectors, 9), None);
    sector_map_insert(&mut sectors, 9, t);
    assert_eq!(sector_map_get(&sectors, 9), Some(t));
}

#[test]
fn one_open_one_close_across_a_whole_life() {
    // Over a full listener life — bind, traffic, final classification,
    // stray events after termination — the firewall is opened exactly
    // once and closed exactly once.
    let mut st = IngestState::new(2, 20786, 0);
    let mut opens = 0;
    let mut closes = 0;
    let mut count = |acts: &[IngestAction], opens: &mut i32, closes: &mut i32| {
        for a in acts {
            match a {
                IngestAction::OpenFirewall { .. } => *opens += 1,
                IngestAction::CloseFirewall { .. } => *closes += 1,
                _ => {},
            }
        }
    };
    count(&st.step(IngestEvent::BindOk, 0), &mut opens, &mut closes);
    count(&st.step(datagram(motion_packet(9), 7), 100), &mut opens, &mut closes);
    count(&st.step(IngestEvent::RecvError, 200), &mut opens, &mut closes);
    count(&st.step(datagram(vec![1], 7), 300), &mut opens, &mut closes);
    count(&st.step(datagram(final_classification_packet(9), 7), 400), &mut opens, &mut closes);
    count(&st.step(IngestEvent::StopRequested, 500), &mut opens, &mut closes);
    count(&st.step(datagram(motion_packet(9), 7), 600), &mut opens, &mut closes);
    assert_eq!(opens, 1);
    assert_eq!(closes, 1);
    assert!(st.is_terminal());
}

#[test]
fn participants_sampling_publishes_with_snapshot() {
    let mut st = started_listener(6, 20785, 0);
    let acts = st.step(datagram(packet_bytes(4, 44, 1306), 7), 16_000);
    let published = acts
        .iter()
        .filter(|a| matches!(a, IngestAction::Publish { packet: Packet::Participants(_) }))
        .count();
    assert_eq!(published, 1);
    assert!(acts.iter().any(|a| matches!(
        a,
        IngestAction::WriteSnapshot {
            key: SnapshotKey::Participants { championship_id: 6, session_uid: 44 },
            ..
        }
    )));
    // Inside the 15 s window nothing is republished.
    let acts = st.step(datagram(packet_bytes(4, 44, 1306), 7), 20_000);
    assert_eq!(count_publishes(&acts), 0);
    assert_eq!(count_snapshots(&acts), 0);
}

#[test]
fn snapshot_store_recovers_the_latest_snapshot() {
    let mut store = SnapshotStore::new();
    let key = SnapshotKey::Session { championship_id: 1, session_uid: 9 };
    let other = SnapshotKey::Participants { championship_id: 1, session_uid: 9 };
    assert!(store.get(key, 0).is_none());
    store.put(key, vec![1, 2, 3], 1000);
    store.put(other, vec![9], 1000);
    assert_eq!(store.get(key, 2000).unwrap(), &vec![1, 2, 3]);
    // A later write replaces the key's entry; the other key is kept.
    store.put(key, vec![4, 5], 5000);
    assert_eq!(store.get(key, 6000).unwrap(), &vec![4, 5]);
    assert_eq!(store.get(other, 6000).unwrap(), &vec![9]);
    // The 15-minute TTL: lapsed entries are no longer readable.
    assert!(store.get(key, 5000 + 900 * 1000).is_none());
    assert!(store.get(key, 5000 + 900 * 1000 - 1).is_some());
}
