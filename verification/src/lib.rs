//! Meshtastic-compatible mesh networking stack.
//!
//! Layers:
//! - `app`    — the node API (`MeshNode`), channel configuration
//! - `mesh`   — flood router, dedup cache, node identity and neighbour table
//! - `mac`    — over-the-air packet framing, AES-256-CTR, the airtime ledger
//! - `proto`  — protobuf messages and their wire format
//! - `serial` — the serial framing protocol
//! - `mqtt`   — MQTT topic layout and packet conversion
//! - `ws`     — WebSocket command and event types
//! - `host`   — what a headless node tells its host (`FromRadio`, text lines)
//! - `text`   — hex and decimal number text
//! - `presets` — LoRa modem presets and regional frequency plans
//! - `model`  — the radio loop's mode, message log and defaults
//! - `radio`  — the radio loop's decisions: commands, tick plan, received
//!              frames, schedule, log, labels
//! - `dest`   — destination node IDs as typed and as listed
pub mod mac;
pub mod serial;
pub mod mesh;
pub mod proto;
pub mod text;
pub mod app;
pub mod mqtt;
pub mod ws;
pub mod host;
pub mod presets;
pub mod model;
pub mod radio;
pub mod dest;
