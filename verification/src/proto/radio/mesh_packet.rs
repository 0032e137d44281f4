//! The payload of a [`MeshPacket`](super::MeshPacket).
use vstd::prelude::*;
use crate::proto::Data;

verus! {

/// Decoded Data (cleartext) or raw encrypted bytes.
pub enum PayloadVariant {
    /// Decoded application-layer payload.
    Decoded(Data),
    /// Raw encrypted bytes (as received over the air).
    Encrypted(Vec<u8>),
}

} // verus!
