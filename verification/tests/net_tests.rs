use wander::net::{
    admit_client, receive_chunk, Seats, MAX_CLIENTS, decode_input, decode_packet, drain_frames, encode_packet, hello_payload, input_payload,
    join_payload, le_u16, le_u32, le_u64, parse_u16, parse_u32, parse_u64, send_due,
    snapshot_payload, take_frame, theme_code, theme_from_code, weather_code, weather_from_code,
    EnemyRecord, HelloPacket, InputPacket, PlayerRecord, ServerMessage, SnapshotPacket,
};
use wander::world::{Theme, Weather};

#[test]
fn integers_are_written_little_endian() {
    let mut o = vec![9u8];
    le_u16(0x1234, &mut o);
    le_u32(0xA1B2C3D4, &mut o);
    le_u64(0x0102030405060708, &mut o);
    assert_eq!(o, vec![9, 0x34, 0x12, 0xD4, 0xC3, 0xB2, 0xA1, 8, 7, 6, 5, 4, 3, 2, 1]);
    assert_eq!(o[1..3].to_vec(), 0x1234u16.to_le_bytes().to_vec());
    assert_eq!(o[3..7].to_vec(), 0xA1B2C3D4u32.to_le_bytes().to_vec());
}

#[test]
fn integers_read_back() {
    for v in [0u16, 1, 255, 256, 0xBEEF, u16::MAX] {
        let mut o = Vec::new();
        le_u16(v, &mut o);
        assert_eq!(parse_u16(&o), v);
    }
    for v in [0u32, 1, 0x01020304, u32::MAX] {
        let mut o = Vec::new();
        le_u32(v, &mut o);
        o.push(77);
        assert_eq!(parse_u32(&o), v);
    }
    for v in [0u64, 42, 0x0102030405060708, u64::MAX] {
        let mut o = Vec::new();
        le_u64(v, &mut o);
        assert_eq!(parse_u64(&o), v);
        assert_eq!(v, u64::from_le_bytes([o[0], o[1], o[2], o[3], o[4], o[5], o[6], o[7]]));
    }
}

#[test]
fn packets_are_length_prefixed() {
    assert_eq!(encode_packet(&[]), vec![0, 0]);
    assert_eq!(encode_packet(&[5, 6, 7]), vec![3, 0, 5, 6, 7]);
    let big = vec![1u8; 300];
    let e = encode_packet(&big);
    assert_eq!(&e[..2], &[44, 1]);
    assert_eq!(e.len(), 302);
}

#[test]
fn take_frame_needs_the_whole_frame() {
    let mut buf = vec![3u8, 0, 1, 2];
    assert!(take_frame(&mut buf).is_none());
    assert_eq!(buf, vec![3, 0, 1, 2]);
    let mut one = vec![1u8];
    assert!(take_frame(&mut one).is_none());
    assert_eq!(one, vec![1]);
    buf.push(3);
    buf.push(9);
    let p = take_frame(&mut buf).unwrap();
    assert_eq!(p, vec![1, 2, 3]);
    assert_eq!(buf, vec![9]);
}

#[test]
fn drain_frames_returns_every_whole_frame_in_order() {
    let payloads: Vec<Vec<u8>> = vec![vec![1], vec![], vec![2, 3, 4], vec![5; 70]];
    let mut stream = Vec::new();
    for p in &payloads {
        stream.extend_from_slice(&encode_packet(p));
    }
    let mut buf = stream.clone();
    buf.extend_from_slice(&[9, 0, 1]);
    let frames = drain_frames(&mut buf);
    assert_eq!(frames, payloads);
    assert_eq!(buf, vec![9, 0, 1]);
    let mut exact = stream;
    assert_eq!(drain_frames(&mut exact), payloads);
    assert!(exact.is_empty());
    let mut empty: Vec<u8> = Vec::new();
    assert!(drain_frames(&mut empty).is_empty());
}

#[test]
fn theme_and_weather_codes() {
    for (t, b) in [(Theme::Valley, 0u8), (Theme::Desert, 1), (Theme::Frozen, 2), (Theme::Tropical, 3), (Theme::Forest, 4)] {
        assert_eq!(theme_code(t), b);
        assert!(theme_from_code(b) == t);
    }
    assert!(theme_from_code(200) == Theme::Forest);
    for (w, b) in [(Weather::Clear, 0u8), (Weather::Rain, 1), (Weather::Snow, 2), (Weather::Fog, 3)] {
        assert_eq!(weather_code(w), b);
        assert!(weather_from_code(b) == w);
    }
    assert!(weather_from_code(9) == Weather::Clear);
}

#[test]
fn join_payload_layout() {
    let p = join_payload(1337, Theme::Desert);
    assert_eq!(p, vec![3, 0x39, 0x05, 0, 0, 0, 0, 0, 0, 1]);
}

#[test]
fn input_roundtrip_and_layout() {
    let i = InputPacket { mask: 0b1010, angle_bits: 1.5f32.to_bits(), shoot: true };
    let p = input_payload(i);
    let mut expect = vec![1u8, 10, 0];
    expect.extend_from_slice(&1.5f32.to_le_bytes());
    expect.push(1);
    assert_eq!(p, expect);
    assert!(decode_input(&p) == Some(i));
    let j = InputPacket { mask: 0xFFFF, angle_bits: 0, shoot: false };
    assert!(decode_input(&input_payload(j)) == Some(j));
}

#[test]
fn input_decoding_edge_cases() {
    assert!(decode_input(&[2, 0, 0, 0, 0, 0, 0, 1]).is_none());
    assert!(decode_input(&[1, 0, 0, 0, 0, 0]).is_none());
    let short = decode_input(&[1, 3, 0, 0, 0, 128, 63]).unwrap();
    assert_eq!(short.mask, 3);
    assert_eq!(f32::from_bits(short.angle_bits), 1.0);
    assert!(!short.shoot);
    let odd = decode_input(&[1, 0, 0, 0, 0, 0, 0, 7, 99]).unwrap();
    assert!(odd.shoot);
}

#[test]
fn hello_roundtrip() {
    let h = HelloPacket {
        seed: 9999,
        theme: Theme::Tropical,
        player_id: 3,
        x_bits: 39.5f32.to_bits(),
        y_bits: 40.5f32.to_bits(),
        angle_bits: 0.0f32.to_bits(),
    };
    let p = hello_payload(h);
    assert_eq!(p.len(), 26);
    assert_eq!(p[0], 10);
    assert_eq!(p[9], 3);
    match decode_packet(&p) {
        ServerMessage::Hello(g) => assert!(g == h),
        _ => panic!("not a hello"),
    }
}

#[test]
fn short_or_unknown_packets_are_ignored() {
    assert!(matches!(decode_packet(&[]), ServerMessage::Ignored));
    assert!(matches!(decode_packet(&[10, 1, 2, 3]), ServerMessage::Ignored));
    assert!(matches!(decode_packet(&[7; 40]), ServerMessage::Ignored));
    assert!(matches!(decode_packet(&[11, 0, 0, 0, 0, 0, 0, 0]), ServerMessage::Ignored));
    assert!(matches!(decode_packet(&[11, 0, 0, 0, 0, 0, 0]), ServerMessage::Ignored));
    // announces one enemy but carries none
    assert!(matches!(decode_packet(&[11, 0, 0, 0, 0, 0, 0, 1, 0, 0, 0, 0, 0]), ServerMessage::Ignored));
}

fn player(n: u32) -> PlayerRecord {
    PlayerRecord {
        x_bits: n,
        y_bits: n + 1,
        angle_bits: n + 2,
        hp_bits: 100f32.to_bits(),
        score: 300,
        kills: 3,
        dmg_t_bits: 0,
        dmg_dir_bits: n + 7,
    }
}

#[test]
fn snapshot_payload_layout() {
    let s = SnapshotPacket {
        players: vec![player(1)],
        enemies: vec![EnemyRecord { x_bits: 5, y_bits: 6, alive: true }],
        weather: Weather::Fog,
        tick: 0x1_0000_0002,
        remaining: 4,
        complete: false,
    };
    let p = snapshot_payload(&s);
    assert_eq!(p.len(), 8 + 32 + 9 + 5);
    assert_eq!(&p[..8], &[11, 2, 0, 0, 0, 3, 1, 1]);
    assert_eq!(&p[8..12], &[1, 0, 0, 0]);
    assert_eq!(&p[40..49], &[5, 0, 0, 0, 6, 0, 0, 0, 1]);
    assert_eq!(&p[49..], &[4, 0, 0, 0, 0]);
}

#[test]
fn snapshot_decoding_reads_the_host_layout() {
    // kind, tick (4), weather, player count, enemy count
    let mut p = vec![11u8, 7, 0, 0, 0, 1, 1, 2];
    for v in [10u32, 11, 12, 13, 14, 15, 16, 17] {
        p.extend_from_slice(&v.to_le_bytes());
    }
    p.extend_from_slice(&[1, 0, 0, 0, 2, 0, 0, 0, 1]);
    p.extend_from_slice(&[3, 0, 0, 0, 4, 0, 0, 0, 0]);
    p.extend_from_slice(&[6, 0, 0, 0, 1]);
    match decode_packet(&p) {
        ServerMessage::Snapshot(s) => {
            assert_eq!(s.tick, 7);
            assert!(s.weather == Weather::Rain);
            assert_eq!(s.players.len(), 1);
            assert!(s.players[0] == PlayerRecord {
                x_bits: 10,
                y_bits: 11,
                angle_bits: 12,
                hp_bits: 13,
                score: 14,
                kills: 15,
                dmg_t_bits: 16,
                dmg_dir_bits: 17,
            });
            assert_eq!(s.enemies.len(), 2);
            assert!(s.enemies[0] == EnemyRecord { x_bits: 1, y_bits: 2, alive: true });
            assert!(s.enemies[1] == EnemyRecord { x_bits: 3, y_bits: 4, alive: false });
            assert_eq!(s.remaining, 6);
            assert!(s.complete);
        }
        _ => panic!("not a snapshot"),
    }
}

#[test]
fn empty_host_snapshot_reads_back() {
    let s = SnapshotPacket { players: vec![], enemies: vec![], weather: Weather::Rain, tick: 7, remaining: 5, complete: false };
    let p = snapshot_payload(&s);
    assert_eq!(p, vec![11, 7, 0, 0, 0, 1, 0, 0, 5, 0, 0, 0, 0]);
    match decode_packet(&p) {
        ServerMessage::Snapshot(r) => {
            assert!(r.players.is_empty());
            assert!(r.enemies.is_empty());
            assert!(r.weather == Weather::Rain);
            assert_eq!(r.tick, 7);
            assert_eq!(r.remaining, 5);
            assert!(!r.complete);
        }
        _ => panic!("not a snapshot"),
    }
}

#[test]
fn host_snapshot_reads_back_modulo_the_tick_width() {
    let players = vec![player(1), player(100), player(7)];
    let enemies: Vec<EnemyRecord> = (0..20u32)
        .map(|k| EnemyRecord { x_bits: 3 * k, y_bits: 1000 + k, alive: k % 3 != 0 })
        .collect();
    let s = SnapshotPacket {
        players: players.clone(),
        enemies: enemies.clone(),
        weather: Weather::Clear,
        tick: 0x5_0000_0009,
        remaining: 17,
        complete: true,
    };
    match decode_packet(&snapshot_payload(&s)) {
        ServerMessage::Snapshot(r) => {
            assert!(r.players == players);
            assert!(r.enemies == enemies);
            assert!(r.weather == Weather::Clear);
            assert_eq!(r.tick, 9);
            assert_eq!(r.remaining, 17);
            assert!(r.complete);
        }
        _ => panic!("not a snapshot"),
    }
}

#[test]
fn input_is_sent_at_most_every_33_ms_unless_shooting() {
    assert!(!send_due(false, 1000, true));
    assert!(!send_due(true, 0, false));
    assert!(!send_due(true, 32, false));
    assert!(send_due(true, 33, false));
    assert!(send_due(true, 0, true));
}

#[test]
fn frames_come_out_the_same_however_the_stream_is_cut() {
    let payloads: Vec<Vec<u8>> = vec![vec![10, 1, 2], vec![], vec![7; 300], vec![11, 9]];
    let mut stream = Vec::new();
    for p in &payloads {
        stream.extend_from_slice(&encode_packet(p));
    }
    for size in [1usize, 2, 3, 5, 64, 4096] {
        let mut buf = Vec::new();
        let mut got: Vec<Vec<u8>> = Vec::new();
        for chunk in stream.chunks(size) {
            got.extend(receive_chunk(&mut buf, chunk));
        }
        assert_eq!(got, payloads, "chunks of {}", size);
        assert!(buf.is_empty());
    }
    let mut buf = vec![3u8, 0];
    assert!(receive_chunk(&mut buf, &[1, 2]).is_empty());
    assert_eq!(buf, vec![3, 0, 1, 2]);
    assert_eq!(receive_chunk(&mut buf, &[3, 0]), vec![vec![1, 2, 3]]);
    assert_eq!(buf, vec![0]);
}

#[test]
fn host_takes_at_most_eight_clients() {
    assert_eq!(MAX_CLIENTS, 8);
    for held in 0..8 {
        assert!(admit_client(held));
    }
    assert!(!admit_client(8));
    assert!(!admit_client(100));
}

#[test]
fn seats_hold_at_most_eight_and_reuse_freed_room() {
    let mut s = Seats::new();
    for i in 0..8 {
        assert_eq!(s.connect(), Some(i));
    }
    assert_eq!(s.held(), 8);
    assert_eq!(s.connect(), None);
    assert_eq!(s.held(), 8);
    s.disconnect(3);
    s.disconnect(3);
    s.disconnect(99);
    assert_eq!(s.held(), 7);
    assert_eq!(s.connect(), Some(8));
    assert_eq!(s.connect(), None);
    assert_eq!(s.held(), 8);
}
