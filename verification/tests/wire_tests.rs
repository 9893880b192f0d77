use frogma::wire::{Snapshot, WireError, SNAPSHOT_LEN, WIRE_VERSION};

fn sample() -> Snapshot {
    Snapshot {
        peer_id: 0xdead_beef_cafe_babe,
        seq: 0x1234_5678,
        t_send_ms: 1_712_345_678_901,
        pos_bits: [12.5f32.to_bits(), (-3.75f32).to_bits(), 100.0f32.to_bits()],
        yaw_bits: 1.5707f32.to_bits(),
        hp: 847,
        hp_max: 1200,
        vocation: 3,
        pose: 1,
    }
}

#[test]
fn size_is_42() {
    assert_eq!(SNAPSHOT_LEN, 42);
    assert_eq!(sample().encode().len(), 42);
}

#[test]
fn roundtrip() {
    let s = sample();
    let bytes = s.encode();
    let back = Snapshot::decode(&bytes).unwrap();
    assert_eq!(s, back);
}

#[test]
fn short_packet_rejects() {
    let r = Snapshot::decode(&[0u8; 10]);
    assert!(matches!(r, Err(WireError::Short(10))));
}

#[test]
fn field_layout_is_little_endian() {
    let s = Snapshot {
        peer_id: 0x0102_0304_0506_0708,
        ..sample()
    };
    let b = s.encode();
    assert_eq!(&b[0..8], &[0x08, 0x07, 0x06, 0x05, 0x04, 0x03, 0x02, 0x01]);
}

#[test]
fn wire_version_is_zero() {
    assert_eq!(WIRE_VERSION, 0);
}

#[test]
fn every_field_lands_at_its_offset() {
    let s = Snapshot {
        peer_id: 0x0102_0304_0506_0708,
        seq: 0x1112_1314,
        t_send_ms: 0x2122_2324_2526_2728,
        pos_bits: [0x3132_3334, 0x4142_4344, 0x5152_5354],
        yaw_bits: 0x6162_6364,
        hp: 0x7172,
        hp_max: 0x8182,
        vocation: 0x91,
        pose: 0xa1,
    };
    let b = s.encode();
    let expected: [u8; 42] = [
        0x08, 0x07, 0x06, 0x05, 0x04, 0x03, 0x02, 0x01, // peer_id
        0x14, 0x13, 0x12, 0x11, // seq
        0x28, 0x27, 0x26, 0x25, 0x24, 0x23, 0x22, 0x21, // t_send_ms
        0x34, 0x33, 0x32, 0x31, // x
        0x44, 0x43, 0x42, 0x41, // y
        0x54, 0x53, 0x52, 0x51, // z
        0x64, 0x63, 0x62, 0x61, // yaw
        0x72, 0x71, // hp
        0x82, 0x81, // hp_max
        0x91, 0xa1, // vocation, pose
    ];
    assert_eq!(b, expected);
}

#[test]
fn floats_travel_as_their_bit_patterns() {
    let b = sample().encode();
    assert_eq!(&b[20..24], &12.5f32.to_le_bytes());
    assert_eq!(&b[24..28], &(-3.75f32).to_le_bytes());
    assert_eq!(&b[32..36], &1.5707f32.to_le_bytes());
    let back = Snapshot::decode(&b).unwrap();
    assert_eq!(f32::from_bits(back.pos_bits[1]), -3.75);
}

#[test]
fn decode_ignores_trailing_bytes() {
    let s = sample();
    let mut long = s.encode().to_vec();
    long.extend_from_slice(&[0xff; 30]);
    assert_eq!(Snapshot::decode(&long), Ok(s));
}

#[test]
fn decode_of_exactly_41_bytes_is_short() {
    let b = sample().encode();
    assert_eq!(Snapshot::decode(&b[..41]), Err(WireError::Short(41)));
    assert_eq!(Snapshot::decode(&[]), Err(WireError::Short(0)));
}

#[test]
fn decode_then_encode_reproduces_the_first_42_bytes() {
    let bytes: Vec<u8> = (0u8..50).map(|i| i.wrapping_mul(37)).collect();
    let s = Snapshot::decode(&bytes).unwrap();
    assert_eq!(&s.encode()[..], &bytes[..42]);
}

#[test]
fn short_error_message() {
    assert_eq!(
        WireError::Short(10).message(),
        format!("short packet: expected {SNAPSHOT_LEN} bytes, got 10")
    );
    assert_eq!(WireError::Short(0).message(), "short packet: expected 42 bytes, got 0");
    assert_eq!(
        WireError::Short(usize::MAX).message(),
        format!("short packet: expected 42 bytes, got {}", usize::MAX)
    );
}
