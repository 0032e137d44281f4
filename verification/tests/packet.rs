use mesh::mac::packet::{MeshFrame, MeshHeader, BROADCAST, HEADER_LEN, MAX_PAYLOAD};

fn sample_header() -> MeshHeader {
    MeshHeader {
        to: BROADCAST,
        from: 0x1122_3344,
        id: 0xA1B2_C3D4,
        hop_limit: 3,
        want_ack: true,
        via_mqtt: false,
        hop_start: 3,
        channel_hash: 0x1E,
    }
}

#[test]
fn header_encodes_documented_layout() {
    let buf = sample_header().encode();
    assert_eq!(
        buf,
        [
            0xFF, 0xFF, 0xFF, 0xFF, // to
            0x44, 0x33, 0x22, 0x11, // from
            0xD4, 0xC3, 0xB2, 0xA1, // id
            0x6B, // 3 | 0x08 | 3 << 5
            0x1E, 0x00, 0x00,
        ]
    );
    assert_eq!(HEADER_LEN, 16);
    assert_eq!(MAX_PAYLOAD, 237);
}

#[test]
fn header_round_trip() {
    let h = sample_header();
    assert_eq!(MeshHeader::decode(&h.encode()), Some(h));
    let m = MeshHeader { via_mqtt: true, want_ack: false, hop_limit: 7, hop_start: 5, ..h };
    assert_eq!(MeshHeader::decode(&m.encode()), Some(m));
}

#[test]
fn header_masks_hop_fields_to_three_bits() {
    let h = MeshHeader { hop_limit: 9, hop_start: 10, want_ack: false, ..sample_header() };
    let buf = h.encode();
    assert_eq!(buf[12], 0x01 | (0x02 << 5));
    let back = MeshHeader::decode(&buf).unwrap();
    assert_eq!(back.hop_limit, 1);
    assert_eq!(back.hop_start, 2);
}

#[test]
fn header_decode_needs_sixteen_bytes() {
    assert_eq!(MeshHeader::decode(&[0u8; 15]), None);
    let d = MeshHeader::decode(&[0u8; 16]).unwrap();
    assert_eq!(d.to, 0);
    assert!(!d.via_mqtt);
}

#[test]
fn frame_round_trip() {
    let f = MeshFrame { header: sample_header(), payload: vec![1, 2, 3, 4] };
    let raw = f.to_bytes();
    assert_eq!(raw.len(), 20);
    assert_eq!(&raw[16..], &[1, 2, 3, 4]);
    let back = MeshFrame::from_bytes(&raw).unwrap();
    assert_eq!(back.header, f.header);
    assert_eq!(back.payload, f.payload);
}

#[test]
fn frame_from_short_bytes_is_none() {
    assert!(MeshFrame::from_bytes(&[0u8; 10]).is_none());
    let empty_body = MeshFrame::from_bytes(&[0u8; 16]).unwrap();
    assert!(empty_body.payload.is_empty());
}
