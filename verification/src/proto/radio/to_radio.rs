//! The payload of a [`ToRadio`](super::ToRadio).
use vstd::prelude::*;
use crate::proto::radio::MeshPacket;

verus! {

/// What a `ToRadio` message carries.
pub enum PayloadVariant {
    /// Packet to transmit.
    Packet(MeshPacket),
    /// Request a config dump; the value is a nonce echoed in `config_complete_id`.
    WantConfigId(u32),
}

} // verus!
