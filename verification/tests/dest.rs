use mesh::dest::{parse_dest_input, parse_neighbour_label};
use mesh::mesh::node::NodeInfo;
use mesh::radio::neighbour_label;

#[test]
fn typed_destination_forms() {
    assert_eq!(parse_dest_input("!a1b2c3d4"), Some(0xA1B2C3D4));
    assert_eq!(parse_dest_input("0xa1b2c3d4"), Some(0xA1B2C3D4));
    assert_eq!(parse_dest_input("a1b2c3d4"), Some(0xA1B2C3D4));
    assert_eq!(parse_dest_input("!!0x0xFF"), Some(0xFF));
    assert_eq!(parse_dest_input("+ff"), Some(0xFF));
    assert_eq!(parse_dest_input("0000000ff"), Some(0xFF));
    assert_eq!(parse_dest_input("ffffffff"), Some(u32::MAX));
    assert_eq!(parse_dest_input("100000000"), None);
    assert_eq!(parse_dest_input("!"), None);
    assert_eq!(parse_dest_input("0x"), None);
    assert_eq!(parse_dest_input("+"), None);
    assert_eq!(parse_dest_input("-1"), None);
    assert_eq!(parse_dest_input("12g4"), None);
    assert_eq!(parse_dest_input(""), None);
    assert_eq!(parse_dest_input("x0ff"), None);
}

#[test]
fn neighbour_line_reads_back() {
    let n = NodeInfo { node_id: 0x00C0FFEE, short_name: "CAFE".to_owned(), long_name: String::new(), last_rssi: None };
    let line = neighbour_label(&n);
    assert_eq!(parse_neighbour_label(&line), Some(("CAFE", 0x00C0FFEE)));
    let spaced = NodeInfo { node_id: 7, short_name: "a b".to_owned(), long_name: String::new(), last_rssi: None };
    assert_eq!(parse_neighbour_label(&neighbour_label(&spaced)), Some(("a b", 7)));
    assert_eq!(parse_neighbour_label("no id here"), None);
    assert_eq!(parse_neighbour_label("X (!zz)"), None);
    assert_eq!(parse_neighbour_label("X (!12"), None);
    assert_eq!(parse_neighbour_label("X(!12)"), Some(("X(!12)", 0x12)));
    assert_eq!(parse_neighbour_label("é (!0a)"), Some(("é", 10)));
}
