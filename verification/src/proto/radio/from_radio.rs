//! The payload of a [`FromRadio`](super::FromRadio).
use vstd::prelude::*;
use crate::proto::radio::{MeshPacket, MyNodeInfo, NodeInfoProto};

verus! {

/// What a `FromRadio` message carries.
pub enum PayloadVariant {
    /// A received (or echoed TX) mesh packet.
    Packet(MeshPacket),
    /// Our own node info (sent once during the config handshake).
    MyInfo(MyNodeInfo),
    /// A known node (sent during the config dump).
    NodeInfo(NodeInfoProto),
    /// Signals the end of the config dump (value = the `want_config_id` received).
    ConfigCompleteId(u32),
}

} // verus!
