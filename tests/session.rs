use webxr::graph::{build_graph_from_metadata, MetadataEntry};
use webxr::ingest::is_public_document;
use webxr::session::{
    choose_payload, frame_candidates, parse_node_id, ControlReply, SessionPhase, SocketFlowServer,
};
use webxr::messages::{ControlFields, PingMessage, TimestampField};
use webxr::wire::{decode_node_data, encode_node_data, ProtocolError, Vec3Bits, WireRecord};

fn v(x: f32, y: f32, z: f32) -> Vec3Bits {
    Vec3Bits { x: x.to_bits(), y: y.to_bits(), z: z.to_bits() }
}

fn unbits(b: Vec3Bits) -> (f32, f32, f32) {
    (f32::from_bits(b.x), f32::from_bits(b.y), f32::from_bits(b.z))
}

// The caller-side deadband test: squared distance strictly above the squared deadband.
fn beyond(a: Vec3Bits, b: Vec3Bits, deadband_bits: u32) -> bool {
    let (ax, ay, az) = unbits(a);
    let (bx, by, bz) = unbits(b);
    let (dx, dy, dz) = (ax - bx, ay - by, az - bz);
    let d = f32::from_bits(deadband_bits);
    dx * dx + dy * dy + dz * dz > d * d
}

fn streaming_session() -> SocketFlowServer {
    let mut s = SocketFlowServer::new(30);
    s.started(1);
    let reply = s.handle_text_message(r#"{"type":"requestInitialData"}"#, 2);
    assert!(matches!(reply, ControlReply::UpdatesStarted { timestamp: 2, start_timer: true }));
    s
}

fn tick(s: &mut SocketFlowServer, cands: &Vec<WireRecord>) -> Option<Vec<u8>> {
    let tested: Vec<(WireRecord, bool)> = cands
        .iter()
        .map(|r| {
            let moved = match s.last_sent(r.id) {
                Some((p, q)) => {
                    beyond(r.position, p, s.position_deadband) || beyond(r.velocity, q, s.velocity_deadband)
                }
                None => false,
            };
            (*r, moved)
        })
        .collect();
    s.produce_frame(&tested)
}

fn node7(x: f32) -> Vec<WireRecord> {
    vec![WireRecord { id: 7, position: v(x, 0.0, 0.0), velocity: v(0.0, 0.0, 0.0) }]
}

#[test]
fn deadband_suppresses_small_moves() {
    let mut s = streaming_session();
    assert!(tick(&mut s, &node7(1.0)).is_some());
    let bytes = s.total_bytes_sent;
    assert_eq!(tick(&mut s, &node7(1.003)), None);
    assert_eq!(s.total_bytes_sent, bytes);
    assert_eq!(s.last_sent(7), Some((v(1.0, 0.0, 0.0), v(0.0, 0.0, 0.0))));
}

#[test]
fn deadband_passes_larger_moves() {
    let mut s = streaming_session();
    tick(&mut s, &node7(1.0)).unwrap();
    let frame = tick(&mut s, &node7(1.010)).unwrap();
    let records = decode_node_data(&frame).unwrap();
    assert_eq!(records.len(), 1);
    assert_eq!(records[0].id, 7);
    assert_eq!(records[0].position, v(1.010, 0.0, 0.0));
    assert_eq!(s.last_sent(7).unwrap().0, v(1.010, 0.0, 0.0));
    assert_eq!(s.update_count, 2);
    assert_eq!(s.nodes_sent_count, 2);
}

#[test]
fn frame_counts_the_qualifying_nodes() {
    let mut s = streaming_session();
    let first = vec![
        WireRecord { id: 1, position: v(0.0, 0.0, 0.0), velocity: v(0.0, 0.0, 0.0) },
        WireRecord { id: 2, position: v(0.0, 0.0, 0.0), velocity: v(0.0, 0.0, 0.0) },
    ];
    assert_eq!(decode_node_data(&tick(&mut s, &first).unwrap()).unwrap().len(), 2);
    let second = vec![
        WireRecord { id: 1, position: v(0.0, 0.0, 0.0), velocity: v(0.0, 0.0, 0.0) },
        WireRecord { id: 2, position: v(0.0, 0.0, 0.0), velocity: v(0.0, 0.5, 0.0) },
        WireRecord { id: 3, position: v(9.0, 0.0, 0.0), velocity: v(0.0, 0.0, 0.0) },
    ];
    let ids: Vec<u16> = decode_node_data(&tick(&mut s, &second).unwrap()).unwrap().iter().map(|r| r.id).collect();
    assert_eq!(ids, vec![2, 3]);
}

#[test]
fn change_exactly_at_the_deadband_is_suppressed() {
    let mut s = SocketFlowServer::new(30);
    let r = WireRecord { id: 5, position: v(0.0, 0.0, 0.0), velocity: v(0.0, 0.0, 0.0) };
    assert!(s.has_node_changed_significantly(&r, false));
    let moved = WireRecord { id: 5, position: v(0.5, 0.0, 0.0), velocity: v(0.0, 0.0, 0.0) };
    assert!(!beyond(moved.position, r.position, 0.5f32.to_bits()));
    assert!(!s.has_node_changed_significantly(&moved, false));
    assert!(s.has_node_changed_significantly(&moved, true));
    assert_eq!(s.last_sent(5).unwrap().0, v(0.5, 0.0, 0.0));
}

#[test]
fn no_frames_before_streaming() {
    let mut s = SocketFlowServer::new(30);
    s.started(0);
    assert_eq!(s.phase, SessionPhase::Established);
    assert_eq!(tick(&mut s, &node7(1.0)), None);
    assert_eq!(s.last_sent(7), None);
}

#[test]
fn control_messages_get_their_replies() {
    let mut s = SocketFlowServer::new(60);
    assert_eq!(s.update_interval_ms, 16);
    match s.handle_text_message(r#"{"type":"ping","timestamp":1234}"#, 10) {
        ControlReply::Pong(p) => {
            assert_eq!(p.timestamp, 1234);
            assert_eq!(p.type_, "pong");
        }
        other => panic!("unexpected reply {:?}", other),
    }
    assert_eq!(s.last_ping, Some(1234));
    match s.handle_text_message(r#"{"type":"ping"}"#, 77) {
        ControlReply::Pong(p) => assert_eq!(p.timestamp, 77),
        other => panic!("unexpected reply {:?}", other),
    }
    assert!(matches!(s.handle_text_message(r#"{"type":"ping","timestamp":"x"}"#, 1), ControlReply::Silent));
    assert!(matches!(s.handle_text_message(r#"{"type":"enableRandomization","enabled":true}"#, 1), ControlReply::Silent));
    match s.handle_text_message(r#"{"type":"dance"}"#, 1) {
        ControlReply::UnknownType(Some(t)) => assert_eq!(t, "dance"),
        other => panic!("unexpected reply {:?}", other),
    }
    assert!(matches!(s.handle_text_message("not json", 1), ControlReply::ParseError(_)));
    s.handle_text_message(r#"{"type":"requestInitialData"}"#, 3);
    assert_eq!(s.phase, SessionPhase::Streaming);
    assert!(matches!(
        s.handle_text_message(r#"{"type":"requestInitialData"}"#, 4),
        ControlReply::UpdatesStarted { timestamp: 4, start_timer: false }
    ));
    assert_eq!(s.last_activity_ms, 4);
}

#[test]
fn heartbeat_miss_closes_the_session() {
    let mut s = SocketFlowServer::new(30);
    s.started(1000);
    assert!(!s.check_heartbeat(5000, 10000));
    assert!(s.check_heartbeat(11001, 10000));
    assert_eq!(s.phase, SessionPhase::Closing);
}

#[test]
fn compression_only_when_shorter_and_over_threshold() {
    let mut s = SocketFlowServer::new(30);
    let small = vec![0u8; 100];
    assert_eq!(s.maybe_compress(small.clone()), small);
    let big = vec![0u8; 260];
    let packed = s.maybe_compress(big.clone());
    assert!(packed.len() < big.len());
    assert_eq!(packed[0], 0x78);
    assert_eq!(choose_payload(big.clone(), Some(vec![1, 2, 3])), vec![1, 2, 3]);
    assert_eq!(choose_payload(big.clone(), Some(vec![0u8; 300])), big);
    assert_eq!(choose_payload(small.clone(), Some(vec![1])), small);
    assert_eq!(choose_payload(big.clone(), None), big);
}

#[test]
fn node_ids_read_as_sixteen_bit_numbers() {
    assert_eq!(parse_node_id("42"), Some(42));
    assert_eq!(parse_node_id("+7"), Some(7));
    assert_eq!(parse_node_id("007"), Some(7));
    assert_eq!(parse_node_id("65535"), Some(65535));
    assert_eq!(parse_node_id("65536"), None);
    assert_eq!(parse_node_id("99999999999"), None);
    assert_eq!(parse_node_id(""), None);
    assert_eq!(parse_node_id("+"), None);
    assert_eq!(parse_node_id("a1"), None);
}

#[test]
fn candidates_skip_non_numeric_ids() {
    let entry = |n: &str| MetadataEntry {
        file_name: n.to_string(),
        file_size: 0,
        hyperlink_count: 0,
        sha1: String::new(),
        last_modified: 0,
        topic_counts: vec![],
    };
    let g = build_graph_from_metadata(vec![entry("12.md"), entry("notes.md"), entry("70000.md"), entry("3.md")], &vec![1, 1, 1, 1]);
    let ids: Vec<u16> = frame_candidates(&g.nodes).iter().map(|r| r.id).collect();
    assert_eq!(ids, vec![12, 3]);
}

#[test]
fn only_public_documents_are_admitted() {
    assert!(is_public_document("public:: true\n# Title"));
    assert!(is_public_document("  public:: true \r\nbody"));
    assert!(is_public_document("public:: true"));
    assert!(!is_public_document("public:: false\n"));
    assert!(!is_public_document("# Title\npublic:: true"));
    assert!(!is_public_document(""));
}

#[test]
fn log_sampling_fires_every_tenth_update() {
    let mut s = SocketFlowServer::new(30);
    let fired: Vec<bool> = (0..20).map(|_| s.should_log_update()).collect();
    assert_eq!(fired.iter().filter(|b| **b).count(), 2);
    assert!(fired[9] && fired[19]);
}

#[test]
fn handle_text_on_given_fields() {
    let mut s = SocketFlowServer::new(30);
    let ping = ControlFields { msg_type: Some("ping".to_string()), timestamp: TimestampField::Valid(5) };
    match s.handle_text(Ok(ping), 9) {
        ControlReply::Pong(p) => assert_eq!(p.timestamp, 5),
        other => panic!("unexpected reply {:?}", other),
    }
    let untyped = ControlFields { msg_type: None, timestamp: TimestampField::Missing };
    assert!(matches!(s.handle_text(Ok(untyped), 9), ControlReply::UnknownType(None)));
    match s.handle_text(Err("bad".to_string()), 9) {
        ControlReply::ParseError(m) => assert_eq!(m, "bad"),
        other => panic!("unexpected reply {:?}", other),
    }
    assert_eq!(s.phase, SessionPhase::Opening);
}

#[test]
fn oversize_inbound_leaves_session_untouched() {
    let entry = |n: &str| MetadataEntry {
        file_name: n.to_string(),
        file_size: 0,
        hyperlink_count: 0,
        sha1: String::new(),
        last_modified: 0,
        topic_counts: vec![],
    };
    let mut g = build_graph_from_metadata(vec![entry("7.md")], &vec![3]);
    let mut s = streaming_session();
    assert!(tick(&mut s, &frame_candidates(&g.nodes)).is_some());
    let sent = (s.total_bytes_sent, s.last_sent(7));
    let three_records = encode_node_data(&vec![node7(4.0)[0], node7(5.0)[0], node7(6.0)[0]]);
    assert_eq!(three_records.len(), 78);
    assert_eq!(g.apply_inbound_frame(&three_records), Err(ProtocolError::TooManyRecords(3)));
    assert_eq!(g.nodes[0].data.position, v(0.0, 0.0, 0.0));
    assert_eq!((s.total_bytes_sent, s.last_sent(7)), sent);
}

#[test]
fn handle_ping_echoes_the_timestamp() {
    let mut s = SocketFlowServer::new(30);
    let pong = s.handle_ping(PingMessage { type_: "ping".to_string(), timestamp: 42 });
    assert_eq!(pong.type_, "pong");
    assert_eq!(pong.timestamp, 42);
    assert_eq!(s.last_ping, Some(42));
}

#[test]
fn frame_counts_nodes_sharing_a_wire_id() {
    let mut s = streaming_session();
    let cands = vec![
        WireRecord { id: 7, position: v(1.0, 0.0, 0.0), velocity: v(0.0, 0.0, 0.0) },
        WireRecord { id: 7, position: v(2.0, 0.0, 0.0), velocity: v(0.0, 0.0, 0.0) },
    ];
    let records = decode_node_data(&tick(&mut s, &cands).unwrap()).unwrap();
    assert_eq!(records.len(), 2);
    assert_eq!(s.last_sent(7).unwrap().0, v(2.0, 0.0, 0.0));
}

#[test]
fn compression_keeps_the_stream_when_shorter() {
    let mut s = SocketFlowServer::new(30);
    let frame: Vec<u8> = (0..26u32 * 8).map(|i| (i % 26) as u8).collect();
    let before = s.total_bytes_sent;
    let packed = s.maybe_compress(frame.clone());
    assert!(packed.len() < frame.len());
    assert_eq!(&packed[0..2], &[0x78, 0xda]);
    assert_eq!(s.total_bytes_sent, before);
}
