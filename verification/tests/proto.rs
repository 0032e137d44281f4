use mesh::proto::{Data, PortNum, User, NODEINFO_APP, TEXT_MESSAGE_APP};

fn text_data(payload: &[u8]) -> Data {
    Data {
        portnum: TEXT_MESSAGE_APP,
        payload: payload.to_vec(),
        want_response: false,
        dest: 0,
        source: 0,
        request_id: 0,
    }
}

#[test]
fn portnum_numbers() {
    assert_eq!(PortNum::UnknownApp.as_i32(), 0);
    assert_eq!(PortNum::TextMessageApp.as_i32(), 1);
    assert_eq!(PortNum::RemoteHardwareApp.as_i32(), 2);
    assert_eq!(PortNum::PositionApp.as_i32(), 3);
    assert_eq!(PortNum::NodeinfoApp.as_i32(), 4);
    assert_eq!(PortNum::TelemetryApp.as_i32(), 67);
    assert_eq!(TEXT_MESSAGE_APP, 1);
    assert_eq!(NODEINFO_APP, 4);
}

#[test]
fn data_encodes_protobuf_fields() {
    assert_eq!(text_data(b"hi").encode_to_vec(), vec![0x08, 0x01, 0x12, 0x02, b'h', b'i']);
    let d = Data {
        portnum: 67,
        payload: vec![],
        want_response: true,
        dest: 5,
        source: 300,
        request_id: 7,
    };
    assert_eq!(
        d.encode_to_vec(),
        vec![0x08, 0x43, 0x18, 0x01, 0x20, 0x05, 0x28, 0xAC, 0x02, 0x30, 0x07]
    );
    assert!(Data::default().encode_to_vec().is_empty());
}

#[test]
fn data_round_trip() {
    let d = Data {
        portnum: 3,
        payload: (0..50u8).collect(),
        want_response: true,
        dest: 0xFFFF_FFFF,
        source: 12,
        request_id: 1 << 31,
    };
    let back = Data::decode(&d.encode_to_vec()).unwrap();
    assert_eq!(back, d);
}

#[test]
fn data_decode_skips_unknown_fields() {
    let d = Data::decode(&[0x38, 0x05, 0x08, 0x04]).unwrap();
    assert_eq!(d.portnum, 4);
    assert!(d.payload.is_empty());
}

#[test]
fn data_decode_rejects_bad_input() {
    assert!(Data::decode(&[0x08]).is_err());
    assert!(Data::decode(&[0x12, 0x05, 0x01]).is_err());
    assert!(Data::decode(&[0x0A, 0x00]).is_err());
    assert!(Data::decode(&[]).is_ok());
}

#[test]
fn data_text_only_for_text_port() {
    assert_eq!(text_data(b"hello").text(), Some("hello"));
    assert_eq!(text_data(&[0xFF, 0xFE]).text(), None);
    let mut other = text_data(b"hello");
    other.portnum = NODEINFO_APP;
    assert_eq!(other.text(), None);
}

#[test]
fn user_encodes_and_round_trips() {
    let u = User {
        id: "!a".to_owned(),
        long_name: "L".to_owned(),
        short_name: "S".to_owned(),
        macaddr: vec![1],
    };
    let bytes = u.encode_to_vec();
    assert_eq!(bytes, vec![0x0A, 2, b'!', b'a', 0x12, 1, b'L', 0x1A, 1, b'S', 0x22, 1, 1]);
    assert_eq!(User::decode(&bytes).unwrap(), u);
}

#[test]
fn user_travels_in_nodeinfo_data() {
    let u = User {
        id: "!deadbeef".to_owned(),
        long_name: "Long Name".to_owned(),
        short_name: "LN".to_owned(),
        macaddr: vec![],
    };
    let d = u.encode_to_data();
    assert_eq!(d.portnum, NODEINFO_APP);
    assert_eq!(d.payload, u.encode_to_vec());
    assert_eq!(d.decode_user().unwrap(), u);
    assert!(text_data(&[0x0A, 0x05]).decode_user().is_err());
}
