//! Node identity and neighbour table.
use vstd::prelude::*;
use std::collections::HashMap;
use vstd::std_specs::iter::IteratorSpec;

verus! {

broadcast use vstd::std_specs::hash::group_hash_axioms;

/// A uniformly random `u32` from the thread-local generator.
///
/// Calls `rand::random::<u32>()`; nothing is claimed of the value.
#[verifier::external_body]
pub(crate) fn random_u32() -> u32 {
    rand::random::<u32>()
}

/// Information about a mesh node (mirrors Meshtastic `User` protobuf).
#[derive(Debug, Clone)]
pub struct NodeInfo {
    pub node_id: u32,
    pub short_name: String,
    pub long_name: String,
    /// Last-heard RSSI in dBm, if available.
    pub last_rssi: Option<i16>,
}

impl NodeInfo {
    /// A field-by-field copy.
    pub fn copy_info(&self) -> (r: NodeInfo)
        ensures
            r == *self,
    {
        NodeInfo {
            node_id: self.node_id,
            short_name: self.short_name.clone(),
            long_name: self.long_name.clone(),
            last_rssi: self.last_rssi,
        }
    }
}

/// This node's persistent identity.
pub struct LocalNode {
    pub node_id: u32,
    pub short_name: String,
    pub long_name: String,
}

impl LocalNode {
    /// Generate a new node with a random ID.
    pub fn new(short_name: &str, long_name: &str) -> (n: Self)
        ensures
            n.short_name@ == short_name@,
            n.long_name@ == long_name@,
    {
        let node_id = random_u32();
        LocalNode::with_id(node_id, short_name, long_name)
    }

    /// Reconstruct a node from a previously-persisted ID.
    pub fn with_id(node_id: u32, short_name: &str, long_name: &str) -> (n: Self)
        ensures
            n.node_id == node_id,
            n.short_name@ == short_name@,
            n.long_name@ == long_name@,
    {
        LocalNode {
            node_id,
            short_name: short_name.to_owned(),
            long_name: long_name.to_owned(),
        }
    }

    pub fn node_info(&self) -> (info: NodeInfo)
        ensures
            info.node_id == self.node_id,
            info.short_name == self.short_name,
            info.long_name == self.long_name,
            info.last_rssi is None,
    {
        NodeInfo {
            node_id: self.node_id,
            short_name: self.short_name.clone(),
            long_name: self.long_name.clone(),
            last_rssi: None,
        }
    }
}

/// Live view of neighbouring nodes, keyed by node ID.
pub struct NeighbourTable {
    nodes: HashMap<u32, NodeInfo>,
}

impl View for NeighbourTable {
    type V = Map<u32, NodeInfo>;

    closed spec fn view(&self) -> Map<u32, NodeInfo> {
        self.nodes@
    }
}

/// Every entry is filed under its own node ID.
pub open spec fn keyed_by_id(m: Map<u32, NodeInfo>) -> bool {
    forall|k: u32| #[trigger] m.contains_key(k) ==> m[k].node_id == k
}

/// `r` lists the table `m`: one entry per node, each the table's entry for
/// its node ID, in some order.
pub open spec fn lists_table(m: Map<u32, NodeInfo>, r: Seq<NodeInfo>) -> bool {
    &&& r.len() == m.dom().len()
    &&& forall|i: int| 0 <= i < r.len() ==> m.contains_key(#[trigger] r[i].node_id) && m[r[i].node_id] == r[i]
    &&& forall|i: int, j: int| 0 <= i < j < r.len() ==> #[trigger] r[i].node_id != #[trigger] r[j].node_id
    &&& forall|k: u32| #[trigger] m.contains_key(k) ==> exists|i: int| 0 <= i < r.len() && r[i].node_id == k
}

impl NeighbourTable {
    /// The table's invariant: every entry is filed under its own node ID,
    /// and there are finitely many.
    #[verifier::type_invariant]
    pub open spec fn inv(self) -> bool {
        keyed_by_id(self@) && self@.dom().finite()
    }
}

impl Default for NeighbourTable {
    fn default() -> (t: Self)
        ensures
            t@ == Map::<u32, NodeInfo>::empty(),
            t@.dom().finite(),
            keyed_by_id(t@),
    {
        NeighbourTable { nodes: HashMap::new() }
    }
}

impl NeighbourTable {
    /// Record `info`, replacing any earlier entry for the same node.
    pub fn update(&mut self, info: NodeInfo)
        ensures
            final(self)@ == old(self)@.insert(info.node_id, info),
            final(self)@.dom().finite(),
            keyed_by_id(final(self)@),
    {
        proof {
            use_type_invariant(&*self);
        }
        let mut nodes: HashMap<u32, NodeInfo> = HashMap::new();
        std::mem::swap(&mut nodes, &mut self.nodes);
        let id = info.node_id;
        nodes.insert(id, info);
        self.nodes = nodes;
    }

    /// All known nodes, one per node ID, in no particular order.
    pub fn all(&self) -> (r: Vec<&NodeInfo>)
        ensures
            lists_table(self@, r@.map_values(|p: &NodeInfo| *p)),
            self@.dom().finite(),
            keyed_by_id(self@),
    {
        proof {
            use_type_invariant(self);
        }
        let mut r: Vec<&NodeInfo> = Vec::new();
        let keys = self.nodes.keys();
        let ghost ks = vstd::std_specs::hash::spec_keys_iter(&self.nodes).remaining();
        assert(keys.remaining() == ks);
        for k in it: keys
            invariant
                it.seq() == ks,
                ks.unref().to_set() == self.nodes@.dom(),
                ks.no_duplicates(),
                ks.len() == self.nodes@.dom().len(),
                keyed_by_id(self.nodes@),
                r@.len() == it.index(),
                forall|i: int| 0 <= i < it.index() ==> *r@[i] == self.nodes@[*ks[i]] && r@[i].node_id == *ks[i],
        {
            let ghost i = it.index();
            assert(ks.unref().to_set().contains(*ks[i])) by {
                assert(ks.unref()[i] == *ks[i]);
            }
            let v = self.nodes.get(k).unwrap();
            r.push(v);
        }
        let ghost rv = r@.map_values(|p: &NodeInfo| *p);
        let ghost m = self.nodes@;
        assert forall|i: int| 0 <= i < rv.len() implies m.contains_key(#[trigger] rv[i].node_id) && m[rv[i].node_id] == rv[i] by {
            assert(ks.unref().to_set().contains(*ks[i])) by {
                assert(ks.unref()[i] == *ks[i]);
            }
        }
        assert forall|i: int, j: int| 0 <= i < j < rv.len() implies #[trigger] rv[i].node_id != #[trigger] rv[j].node_id by {
            assert(ks.unref()[i] == *ks[i]);
            assert(ks.unref()[j] == *ks[j]);
        }
        assert forall|k: u32| #[trigger] m.contains_key(k) implies exists|i: int| 0 <= i < rv.len() && rv[i].node_id == k by {
            assert(ks.unref().to_set().contains(k));
            let i = choose|i: int| 0 <= i < ks.len() && ks.unref()[i] == k;
            assert(rv[i].node_id == k);
        }
        r
    }

    pub fn get(&self, node_id: u32) -> (r: Option<&NodeInfo>)
        ensures
            self@.contains_key(node_id) ==> r == Some(&self@[node_id]),
            !self@.contains_key(node_id) ==> r is None,
    {
        self.nodes.get(&node_id)
    }
}

/// Updating with a node's info files it under its own ID, so the table stays
/// keyed by node ID.
pub proof fn lemma_update_keeps_keyed(m: Map<u32, NodeInfo>, info: NodeInfo)
    requires
        keyed_by_id(m),
    ensures
        keyed_by_id(m.insert(info.node_id, info)),
        m.insert(info.node_id, info)[info.node_id] == info,
{
}

/// The table that updating an empty table with each of `us` in turn builds.
pub open spec fn table_after(us: Seq<NodeInfo>) -> Map<u32, NodeInfo>
    decreases us.len(),
{
    if us.len() == 0 {
        Map::empty()
    } else {
        table_after(us.drop_last()).insert(us.last().node_id, us.last())
    }
}

/// A series of updates from an empty table leaves exactly one entry per
/// distinct node ID among them — the last update for that ID — and nothing
/// else.
pub proof fn lemma_updates_one_per_id(us: Seq<NodeInfo>)
    ensures
        table_after(us).dom().finite(),
        keyed_by_id(table_after(us)),
        forall|k: u32|
            #[trigger] table_after(us).contains_key(k) <==> exists|i: int| 0 <= i < us.len() && us[i].node_id == k,
        forall|i: int|
            0 <= i < us.len() && (forall|j: int| i < j < us.len() ==> us[j].node_id != us[i].node_id)
                ==> table_after(us)[#[trigger] us[i].node_id] == us[i],
    decreases us.len(),
{
    if us.len() > 0 {
        let init = us.drop_last();
        let last = us.last();
        lemma_updates_one_per_id(init);
        lemma_update_keeps_keyed(table_after(init), last);
        let m = table_after(us);
        assert forall|k: u32| #[trigger] m.contains_key(k) <==> exists|i: int| 0 <= i < us.len() && us[i].node_id == k by {
            if m.contains_key(k) && k != last.node_id {
                let i = choose|i: int| 0 <= i < init.len() && init[i].node_id == k;
                assert(us[i] == init[i]);
            }
            if exists|i: int| 0 <= i < us.len() && us[i].node_id == k {
                let i = choose|i: int| 0 <= i < us.len() && us[i].node_id == k;
                if i < us.len() - 1 {
                    assert(init[i] == us[i]);
                }
            }
        }
        assert forall|i: int|
            0 <= i < us.len() && (forall|j: int| i < j < us.len() ==> us[j].node_id != us[i].node_id)
                implies m[#[trigger] us[i].node_id] == us[i] by {
            if i < us.len() - 1 {
                assert(us[us.len() - 1].node_id != us[i].node_id);
                assert(init[i] == us[i]);
                assert forall|j: int| i < j < init.len() implies init[j].node_id != init[i].node_id by {
                    assert(init[j] == us[j]);
                }
            }
        }
    }
}

/// The node IDs that `us` updates.
pub open spec fn updated_ids(us: Seq<NodeInfo>) -> Set<u32> {
    us.map_values(|u: NodeInfo| u.node_id).to_set()
}

/// `us[i]` is the last update in `us` for its node ID.
pub open spec fn last_for_id(us: Seq<NodeInfo>, i: int) -> bool {
    &&& 0 <= i < us.len()
    &&& forall|j: int| i < j < us.len() ==> us[j].node_id != us[i].node_id
}

/// One more update extends the series: a table whose entries are those that
/// `us` builds holds, after `update(u)`, those that `us` and then `u` build.
pub proof fn lemma_update_extends(us: Seq<NodeInfo>, u: NodeInfo)
    ensures
        table_after(us).insert(u.node_id, u) == table_after(us.push(u)),
{
    assert(us.push(u).drop_last() =~= us);
}

/// Listing the table that a series of updates builds from an empty table
/// (as `all()` and `neighbours()` do) yields one entry per distinct node ID
/// among the updates, each the last update for its ID, and nothing else: as
/// many entries as distinct IDs, none when there were no updates.
pub proof fn lemma_update_series_listed(us: Seq<NodeInfo>, listed: Seq<NodeInfo>)
    requires
        lists_table(table_after(us), listed),
    ensures
        listed.len() == updated_ids(us).len(),
        us.len() == 0 ==> listed.len() == 0,
        forall|i: int| 0 <= i < listed.len() ==> exists|j: int| last_for_id(us, j) && #[trigger] listed[i] == us[j],
        forall|j: int| #[trigger] last_for_id(us, j) ==> exists|i: int| 0 <= i < listed.len() && listed[i] == us[j],
        forall|i: int, k: int| 0 <= i < k < listed.len() ==> #[trigger] listed[i].node_id != #[trigger] listed[k].node_id,
{
    let m = table_after(us);
    lemma_updates_one_per_id(us);
    let ids = us.map_values(|u: NodeInfo| u.node_id);
    assert(m.dom() =~= updated_ids(us)) by {
        assert forall|k: u32| m.dom().contains(k) <==> ids.to_set().contains(k) by {
            if m.contains_key(k) {
                let i = choose|i: int| 0 <= i < us.len() && us[i].node_id == k;
                assert(ids[i] == k);
            }
            if ids.to_set().contains(k) {
                assert(ids.contains(k));
                let i = choose|i: int| 0 <= i < ids.len() && ids[i] == k;
                assert(us[i].node_id == k);
            }
        }
    }
    assert forall|i: int| 0 <= i < listed.len() implies exists|j: int| last_for_id(us, j) && #[trigger] listed[i] == us[j] by {
        let k = listed[i].node_id;
        assert(m.contains_key(k));
        let j0 = choose|j: int| 0 <= j < us.len() && us[j].node_id == k;
        let j = last_index_of_id(us, k, j0);
        assert(m[us[j].node_id] == us[j]);
    }
    assert forall|j: int| #[trigger] last_for_id(us, j) implies exists|i: int| 0 <= i < listed.len() && listed[i] == us[j] by {
        let k = us[j].node_id;
        assert(m.contains_key(k));
        let i = choose|i: int| 0 <= i < listed.len() && listed[i].node_id == k;
        assert(m[listed[i].node_id] == listed[i]);
    }
}

/// Some update at or after `j` is the last one for the node ID `k` that
/// `us[j]` updates.
proof fn last_index_of_id(us: Seq<NodeInfo>, k: u32, j: int) -> (l: int)
    requires
        0 <= j < us.len(),
        us[j].node_id == k,
    ensures
        last_for_id(us, l),
        us[l].node_id == k,
    decreases us.len() - j,
{
    if exists|m: int| j < m < us.len() && us[m].node_id == k {
        let m = choose|m: int| j < m < us.len() && us[m].node_id == k;
        last_index_of_id(us, k, m)
    } else {
        j
    }
}

} // verus!
