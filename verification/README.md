# bt_file_transfer

Verified core of the Windows side of a Bluetooth (RFCOMM/SPP) file transfer:
the Android client sends a file, this server receives it, checks its SHA-256
and saves it.

- `src/protocol.rs` — packet types, frame encoding/decoding
  (`type | u32 length | payload | CRC-32`, little-endian), payload builders and
  parsers, each with an exact contract over spec functions.
- `src/crc.rs` — table-driven CRC-32 proved equal to the bitwise definition,
  with proofs that it detects every error within four consecutive bytes.
- `src/receiver.rs` — the receiving connection as a state machine: a frame or
  the outcome of a write in, the ordered actions (packets to send, file
  operations) and the outcome out; laws over whole runs of events.
- `src/laws.rs` — encode/decode round-trip laws.
- `src/digest.rs` — SHA-256 through the `sha2` crate (trusted wrappers).
- `src/text.rs` — UTF-8 decoding of names, the file-name sanitiser and the
  digit writers used by `ProtocolError::describe`.
- `app/` — the WinRT server loop (I/O only, Windows only).
