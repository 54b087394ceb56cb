//! Framing of the binary packet protocol used to move a file over an RFCOMM
//! link, the CRC-32 that protects each frame, and the receiving side's
//! transfer state machine.

pub mod crc;
pub mod protocol;
pub mod receiver;
pub mod digest;
pub mod laws;
pub mod text;
