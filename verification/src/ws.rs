//! WebSocket command and event types for external tool integration.
//!
//! Inbound (tool to node): `{ "type": "send_text", "to": 4294967295, "text": "hello" }`
//! with `to` optional (broadcast by default).  Outbound (node to tool):
//! `rx`, `tx` and `node_info` events.
use vstd::prelude::*;
use crate::mac::packet::BROADCAST;

verus! {

/// A command received from a WebSocket client.
#[derive(Debug, Clone)]
pub enum WsCommand {
    /// Send a text message.
    SendText {
        /// Destination node ID (default: broadcast).
        to: u32,
        text: String,
    },
}

/// The destination of a `send_text` command that names none: broadcast.
pub fn default_broadcast() -> (to: u32)
    ensures
        to == BROADCAST,
{
    0xFFFF_FFFF
}

/// An event sent to WebSocket clients.
#[derive(Debug, Clone)]
pub enum WsEvent {
    /// A mesh message was received.
    Rx { from: u32, to: u32, portnum: i32, text: Option<String>, payload_len: usize, hops: u8 },
    /// A text message was transmitted.
    Tx { text: String },
    /// Node info update.
    NodeInfo { id: u32, short_name: String, long_name: String },
}

} // verus!
