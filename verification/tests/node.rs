use mesh::mesh::node::{LocalNode, NeighbourTable, NodeInfo};

fn info(id: u32, short: &str) -> NodeInfo {
    NodeInfo { node_id: id, short_name: short.to_owned(), long_name: format!("{short} long"), last_rssi: None }
}

#[test]
fn local_node_info() {
    let n = LocalNode::with_id(0x42, "AB", "Alpha Beta");
    let i = n.node_info();
    assert_eq!(i.node_id, 0x42);
    assert_eq!(i.short_name, "AB");
    assert_eq!(i.long_name, "Alpha Beta");
    assert_eq!(i.last_rssi, None);
    let r = LocalNode::new("S", "Long");
    assert_eq!(r.short_name, "S");
    assert_eq!(r.long_name, "Long");
}

#[test]
fn neighbour_table_update_get_all() {
    let mut t = NeighbourTable::default();
    assert!(t.all().is_empty());
    assert!(t.get(1).is_none());
    t.update(info(1, "one"));
    t.update(info(2, "two"));
    t.update(NodeInfo { last_rssi: Some(-90), ..info(1, "uno") });
    assert_eq!(t.all().len(), 2);
    let one = t.get(1).unwrap();
    assert_eq!(one.short_name, "uno");
    assert_eq!(one.last_rssi, Some(-90));
    assert_eq!(t.get(2).unwrap().short_name, "two");
    let mut ids: Vec<u32> = t.all().iter().map(|n| n.node_id).collect();
    ids.sort();
    assert_eq!(ids, vec![1, 2]);
}

#[test]
fn node_info_copy_keeps_fields() {
    let i = NodeInfo { last_rssi: Some(-3), ..info(9, "nine") };
    let c = i.copy_info();
    assert_eq!(c.node_id, 9);
    assert_eq!(c.short_name, "nine");
    assert_eq!(c.long_name, "nine long");
    assert_eq!(c.last_rssi, Some(-3));
}

#[test]
fn updates_leave_one_entry_per_id() {
    let mut t = NeighbourTable::default();
    t.update(info(1, "a"));
    t.update(info(2, "b"));
    t.update(info(1, "c"));
    t.update(info(3, "d"));
    t.update(info(2, "e"));
    let all = t.all();
    assert_eq!(all.len(), 3);
    let mut got: Vec<(u32, String)> = all.iter().map(|n| (n.node_id, n.short_name.clone())).collect();
    got.sort();
    assert_eq!(got, vec![(1, "c".to_owned()), (2, "e".to_owned()), (3, "d".to_owned())]);
}
