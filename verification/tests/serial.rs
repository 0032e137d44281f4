use mesh::serial::{encode, StreamDecoder, MAGIC, MAX_FRAME_PAYLOAD};

#[test]
fn round_trip() {
    let payload = b"hello mesh";
    let frame = encode(payload).unwrap();
    assert_eq!(&frame[..2], &MAGIC);
    assert_eq!(frame[2], 0);
    assert_eq!(frame[3], payload.len() as u8);

    let mut dec = StreamDecoder::new();
    dec.push(&frame);
    let got = dec.next_frame().unwrap();
    assert_eq!(got, payload);
}

#[test]
fn resync_on_garbage() {
    let payload = b"test";
    let frame = encode(payload).unwrap();

    let mut dec = StreamDecoder::new();
    dec.push(b"\xFF\xFF\x00"); // garbage
    dec.push(&frame);
    let got = dec.next_frame().unwrap();
    assert_eq!(got, payload);
}

#[test]
fn split_across_pushes() {
    let payload = b"split";
    let frame = encode(payload).unwrap();

    let mut dec = StreamDecoder::new();
    dec.push(&frame[..3]); // magic + half of length
    assert!(dec.next_frame().is_none());
    dec.push(&frame[3..]); // rest
    let got = dec.next_frame().unwrap();
    assert_eq!(got, payload);
}

#[test]
fn encode_refuses_payload_over_limit() {
    assert!(encode(&vec![0u8; MAX_FRAME_PAYLOAD + 1]).is_none());
    let frame = encode(&vec![7u8; MAX_FRAME_PAYLOAD]).unwrap();
    assert_eq!(frame.len(), MAX_FRAME_PAYLOAD + 4);
    assert_eq!(frame[2], 0x02);
    assert_eq!(frame[3], 0x00);
}

#[test]
fn encode_writes_length_big_endian() {
    let payload = vec![0xABu8; 300];
    let frame = encode(&payload).unwrap();
    assert_eq!(frame[..4], [0x94, 0xC3, 0x01, 0x2C]);
    assert_eq!(&frame[4..], &payload[..]);
}

#[test]
fn encode_empty_payload() {
    assert_eq!(encode(&[]).unwrap(), vec![0x94, 0xC3, 0x00, 0x00]);
}

#[test]
fn zero_length_frame_is_skipped() {
    let mut dec = StreamDecoder::new();
    dec.push(&[0x94, 0xC3, 0x00, 0x00]);
    assert!(dec.next_frame().is_none());
    dec.push(&encode(b"ok").unwrap());
    assert_eq!(dec.next_frame().unwrap(), b"ok");
    assert!(dec.next_frame().is_none());
}

#[test]
fn oversized_length_resyncs() {
    let mut dec = StreamDecoder::new();
    dec.push(&[0x94, 0xC3, 0x02, 0x01]);
    dec.push(&encode(b"next").unwrap());
    assert_eq!(dec.next_frame().unwrap(), b"next");
    assert!(dec.next_frame().is_none());
}

#[test]
fn repeated_first_magic_byte_is_tolerated() {
    let mut dec = StreamDecoder::new();
    dec.push(&[0x94, 0x94, 0x94, 0xC3, 0x00, 0x01, 0x07]);
    assert_eq!(dec.next_frame().unwrap(), vec![0x07]);
}

#[test]
fn frames_come_out_in_order() {
    let mut bytes = encode(b"one").unwrap();
    bytes.extend_from_slice(&[0x00, 0x94, 0x00]);
    bytes.extend_from_slice(&encode(b"two").unwrap());
    let mut dec = StreamDecoder::new();
    for b in &bytes {
        dec.push(&[*b]);
    }
    assert_eq!(dec.next_frame().unwrap(), b"one");
    assert_eq!(dec.next_frame().unwrap(), b"two");
    assert!(dec.next_frame().is_none());
}
