use webxr::wire::{
    decode_inbound, decode_node_data, encode_node_data, ProtocolError, Vec3Bits, WireRecord,
};

fn v(x: f32, y: f32, z: f32) -> Vec3Bits {
    Vec3Bits { x: x.to_bits(), y: y.to_bits(), z: z.to_bits() }
}

fn rec(id: u16, p: Vec3Bits, q: Vec3Bits) -> WireRecord {
    WireRecord { id, position: p, velocity: q }
}

#[test]
fn encode_then_decode_two_records_is_bit_exact() {
    let records = vec![
        rec(7, v(1.5, -2.25, f32::MIN_POSITIVE), v(0.1, 0.2, -0.3)),
        rec(65535, v(-0.0, f32::MAX, 3.0), v(f32::NAN, 0.0, 1e-30)),
    ];
    let bytes = encode_node_data(&records);
    assert_eq!(bytes.len(), 52);
    let back = decode_inbound(&bytes).unwrap();
    assert_eq!(back, records);
    assert_eq!(back[1].velocity.x, f32::NAN.to_bits());
}

#[test]
fn record_layout_is_little_endian() {
    let bytes = encode_node_data(&vec![rec(0x0102, v(1.0, 0.0, 0.0), v(0.0, 0.0, 5.0))]);
    assert_eq!(bytes.len(), 26);
    assert_eq!(&bytes[0..2], &[0x02, 0x01]);
    assert_eq!(&bytes[2..6], &[0x00, 0x00, 0x80, 0x3f]);
    assert_eq!(&bytes[22..26], &[0x00, 0x00, 0xa0, 0x40]);
}

#[test]
fn encoding_keeps_order() {
    let records: Vec<WireRecord> = (0..5u16).rev().map(|i| rec(i, v(i as f32, 0.0, 0.0), v(0.0, 0.0, 0.0))).collect();
    let back = decode_node_data(&encode_node_data(&records)).unwrap();
    let ids: Vec<u16> = back.iter().map(|r| r.id).collect();
    assert_eq!(ids, vec![4, 3, 2, 1, 0]);
}

#[test]
fn empty_frame_decodes_to_empty_list() {
    assert_eq!(decode_node_data(&[]), Ok(vec![]));
    assert_eq!(decode_inbound(&[]), Ok(vec![]));
}

#[test]
fn frame_of_27_bytes_is_a_protocol_error() {
    let data = vec![0u8; 27];
    assert_eq!(decode_node_data(&data), Err(ProtocolError::MisalignedFrame(27)));
    assert_eq!(decode_inbound(&data), Err(ProtocolError::MisalignedFrame(27)));
}

#[test]
fn inbound_accepts_at_most_two_records() {
    assert!(decode_inbound(&vec![0u8; 26]).is_ok());
    assert!(decode_inbound(&vec![0u8; 52]).is_ok());
    assert_eq!(decode_inbound(&vec![0u8; 78]), Err(ProtocolError::TooManyRecords(3)));
    assert_eq!(decode_inbound(&vec![0u8; 25]), Err(ProtocolError::MisalignedFrame(25)));
    assert_eq!(decode_node_data(&vec![0u8; 78]).map(|r| r.len()), Ok(3));
}
