# mesh

A Meshtastic-compatible mesh networking stack — packet framing, AES-256-CTR,
flood routing with a dedup cache, the protobuf messages, the serial framing
protocol, the serial host API, MQTT topic layout and duty-cycle accounting —
written in Verus, with its behaviour stated as contracts and proved.

Layout:

- `src/` — the verified library (`mesh`):
  - `mac/` — over-the-air header and frame (`packet`), AES-256-CTR
    (`crypto`), airtime ledger (`duty_cycle`)
  - `mesh/` — node identity and neighbour table (`node`), dedup cache and
    router (`router`)
  - `proto/` — `Data`, `User`, `PortNum`, the serial-protocol messages and
    `ServiceEnvelope`, with the protobuf wire format (`wire`)
  - `app` — `MeshNode`: building frames and processing received ones
  - `serial` — serial frame encoder and streaming decoder
  - `host` — what a headless node tells its host: `FromRadio` / `ToRadio`
    handling and the text-mode lines
  - `model`, `radio` — the radio loop's shared types and its decisions
    (commands, per-tick plan, Listen-mode gating, what a received frame
    leads to, schedule, log, neighbour list, start-up commands)
  - `dest` — destination node IDs as typed and as listed
  - `mqtt`, `ws` — MQTT and WebSocket message handling
  - `presets` — modem presets and regional frequency plans
  - `text` — hex and decimal number text
- `tests/` — tests of the library on concrete values.
- `app/` — the I/O around it: serde (JSON) encodings of the library's
  types, the serial host link, the MQTT bridge, the WebSocket server, and
  the wall-clock and floating-point parts of duty-cycle and frequency
  handling.
