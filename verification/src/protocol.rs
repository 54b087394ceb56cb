//! Packet types and the binary frame format shared with the Android client:
//! `type (1) | payload length (u32 LE) | payload | CRC-32 (u32 LE)`, with the
//! builders and parsers of each packet's payload.

use vstd::prelude::*;
use vstd::bytes::*;
use vstd::slice::slice_to_vec;
use vstd::string::{StringExecFns, StringSliceAdditionalSpecFns};

use vstd::utf8::{decode_utf8, valid_utf8};

pub use crate::crc::crc32;
use crate::crc::spec_crc32;
use crate::text::{decimal_digits, hex_digits, push_decimal, push_hex, string_from_utf8};

verus! {

/// Largest payload a frame may declare (1 MiB).
pub const MAX_PAYLOAD_LEN: usize = 1024 * 1024;

/// Size of each file chunk sent in a CHUNK packet.
pub const CHUNK_SIZE: usize = 4096;

/// Fixed header: one type byte and a little-endian `u32` payload length.
pub const HEADER_LEN: usize = 1 + 4;

/// Trailing little-endian CRC-32.
pub const CRC_LEN: usize = 4;

/// Protocol version carried in the HELLO payload.
pub const PROTOCOL_VERSION: u8 = 1;

/// The six kinds of packet.
#[derive(Debug, Clone, Copy, PartialEq, Eq, Hash, Structural)]
pub enum PacketType {
    /// First packet of a connection, exchanged in both directions.
    Hello,
    /// File metadata: name, size and SHA-256.
    Meta,
    /// One piece of the file's content.
    Chunk,
    /// Positive acknowledgement.
    Ack,
    /// Negative acknowledgement.
    Nack,
    /// End of the transfer with the integrity verdict.
    Done,
}

/// The wire byte of each packet type.
pub open spec fn packet_type_code(t: PacketType) -> u8 {
    match t {
        PacketType::Hello => 1,
        PacketType::Meta => 2,
        PacketType::Chunk => 3,
        PacketType::Ack => 4,
        PacketType::Nack => 5,
        PacketType::Done => 6,
    }
}

/// The packet type whose wire byte is `b`, if any.
pub open spec fn packet_type_of_code(b: u8) -> Option<PacketType> {
    if b == 1 {
        Some(PacketType::Hello)
    } else if b == 2 {
        Some(PacketType::Meta)
    } else if b == 3 {
        Some(PacketType::Chunk)
    } else if b == 4 {
        Some(PacketType::Ack)
    } else if b == 5 {
        Some(PacketType::Nack)
    } else if b == 6 {
        Some(PacketType::Done)
    } else {
        None
    }
}

impl PacketType {
    /// The packet type of a wire byte, if it names one.
    pub fn from_u8(value: u8) -> (r: Option<Self>)
        ensures
            r == packet_type_of_code(value),
    {
        match value {
            1 => Some(PacketType::Hello),
            2 => Some(PacketType::Meta),
            3 => Some(PacketType::Chunk),
            4 => Some(PacketType::Ack),
            5 => Some(PacketType::Nack),
            6 => Some(PacketType::Done),
            _ => None,
        }
    }

    /// The wire byte of this packet type.
    pub fn as_u8(self) -> (r: u8)
        ensures
            r == packet_type_code(self),
    {
        match self {
            PacketType::Hello => 1,
            PacketType::Meta => 2,
            PacketType::Chunk => 3,
            PacketType::Ack => 4,
            PacketType::Nack => 5,
            PacketType::Done => 6,
        }
    }
}


/// Why a frame or a payload was refused.
#[derive(Debug, Clone, PartialEq, Eq)]
#[allow(inconsistent_fields)]
pub enum ProtocolError {
    /// The buffer is shorter than the frame it starts.
    Truncated,
    /// Unknown packet type byte.
    InvalidType(u8),
    /// The CRC-32 carried by the frame differs from the one computed over it.
    CrcMismatch { expected: u32, actual: u32 },
    /// The declared payload length exceeds `MAX_PAYLOAD_LEN`.
    PayloadTooLarge(usize),
    /// The payload does not have the layout its packet type requires.
    MalformedPayload(&'static str),
    /// A packet of another type than the one expected here.
    UnexpectedType { expected: PacketType, actual: PacketType },
}

/// The name of a packet type as the server's messages print it.
pub open spec fn packet_type_name(t: PacketType) -> Seq<char> {
    match t {
        PacketType::Hello => "Hello"@,
        PacketType::Meta => "Meta"@,
        PacketType::Chunk => "Chunk"@,
        PacketType::Ack => "Ack"@,
        PacketType::Nack => "Nack"@,
        PacketType::Done => "Done"@,
    }
}

/// The message that tells what went wrong.
pub open spec fn spec_describe(e: ProtocolError) -> Seq<char> {
    match e {
        ProtocolError::Truncated => "frame incompleto"@,
        ProtocolError::InvalidType(b) => "tipo de pacote invalido: 0x"@ + hex_digits(b as nat, 2),
        ProtocolError::CrcMismatch { expected, actual } => "crc32 invalido: esperado 0x"@
            + hex_digits(expected as nat, 8) + ", recebido 0x"@ + hex_digits(actual as nat, 8),
        ProtocolError::PayloadTooLarge(n) => "payload muito grande: "@ + decimal_digits(n as nat)
            + " bytes"@,
        ProtocolError::MalformedPayload(msg) => "payload malformado: "@ + msg@,
        ProtocolError::UnexpectedType { expected, actual } => "esperava pacote "@
            + packet_type_name(expected) + ", recebeu "@ + packet_type_name(actual),
    }
}

impl PacketType {
    /// The name of this packet type.
    pub fn name(self) -> (r: &'static str)
        ensures
            r@ == packet_type_name(self),
    {
        match self {
            PacketType::Hello => "Hello",
            PacketType::Meta => "Meta",
            PacketType::Chunk => "Chunk",
            PacketType::Ack => "Ack",
            PacketType::Nack => "Nack",
            PacketType::Done => "Done",
        }
    }
}

impl ProtocolError {
    /// The message that tells what went wrong: the byte in two hexadecimal
    /// digits, CRC values in eight, the length in decimal.
    pub fn describe(&self) -> (r: String)
        ensures
            r@ == spec_describe(*self),
    {
        match self {
            ProtocolError::Truncated => String::from_str("frame incompleto"),
            ProtocolError::InvalidType(b) => {
                let mut s = String::from_str("tipo de pacote invalido: 0x");
                push_hex(&mut s, *b as u64, 2);
                s
            },
            ProtocolError::CrcMismatch { expected, actual } => {
                let mut s = String::from_str("crc32 invalido: esperado 0x");
                push_hex(&mut s, *expected as u64, 8);
                s.append(", recebido 0x");
                push_hex(&mut s, *actual as u64, 8);
                s
            },
            ProtocolError::PayloadTooLarge(n) => {
                let mut s = String::from_str("payload muito grande: ");
                push_decimal(&mut s, *n as u64);
                s.append(" bytes");
                s
            },
            ProtocolError::MalformedPayload(msg) => {
                let mut s = String::from_str("payload malformado: ");
                s.append(msg);
                s
            },
            ProtocolError::UnexpectedType { expected, actual } => {
                let mut s = String::from_str("esperava pacote ");
                s.append(expected.name());
                s.append(", recebeu ");
                s.append(actual.name());
                s
            },
        }
    }
}

/// A decoded packet: its type and its payload, without the framing.
#[derive(Debug, Clone, PartialEq, Eq)]
pub struct Packet {
    pub packet_type: PacketType,
    pub payload: Vec<u8>,
}

/// Reason carried by a NACK, as the byte after the index.
#[derive(Debug, Clone, Copy, PartialEq, Eq, Structural)]
pub enum NackReason {
    CrcMismatch,
    IoError,
    OutOfOrder,
    Other,
}

/// The wire byte of each NACK reason.
pub open spec fn nack_reason_code(r: NackReason) -> u8 {
    match r {
        NackReason::CrcMismatch => 0,
        NackReason::IoError => 1,
        NackReason::OutOfOrder => 2,
        NackReason::Other => 255,
    }
}

/// The NACK reason a wire byte stands for: every unknown byte is `Other`.
pub open spec fn nack_reason_of_code(v: u8) -> NackReason {
    if v == 0 {
        NackReason::CrcMismatch
    } else if v == 1 {
        NackReason::IoError
    } else if v == 2 {
        NackReason::OutOfOrder
    } else {
        NackReason::Other
    }
}

impl NackReason {
    /// The reason a wire byte stands for; unknown bytes read as `Other`.
    pub fn from_u8(v: u8) -> (r: NackReason)
        ensures
            r == nack_reason_of_code(v),
    {
        match v {
            0 => NackReason::CrcMismatch,
            1 => NackReason::IoError,
            2 => NackReason::OutOfOrder,
            _ => NackReason::Other,
        }
    }

    /// The byte that stands for this reason on the wire.
    pub fn as_u8(self) -> (r: u8)
        ensures
            r == nack_reason_code(self),
    {
        match self {
            NackReason::CrcMismatch => 0,
            NackReason::IoError => 1,
            NackReason::OutOfOrder => 2,
            NackReason::Other => 255,
        }
    }
}

/// File metadata carried by a META packet.
#[derive(Debug, Clone, PartialEq, Eq)]
pub struct MetaPayload {
    pub file_name: String,
    pub file_size: u64,
    pub sha256: [u8; 32],
}

/// The metadata of a META packet as plain values.
pub struct MetaView {
    pub file_name: Seq<char>,
    pub file_size: u64,
    pub sha256: Seq<u8>,
}

impl MetaPayload {
    pub open spec fn view_meta(&self) -> MetaView {
        MetaView { file_name: self.file_name@, file_size: self.file_size, sha256: self.sha256@ }
    }
}

/// A META parse result as plain values.
pub open spec fn meta_result(r: Result<MetaPayload, ProtocolError>) -> Result<MetaView, ProtocolError> {
    match r {
        Ok(m) => Ok(m.view_meta()),
        Err(e) => Err(e),
    }
}

/// HELLO payload: the protocol version.
pub open spec fn spec_hello_payload() -> Seq<u8> {
    seq![PROTOCOL_VERSION]
}

/// META payload: little-endian `u16` name length, the name's bytes, the
/// little-endian `u64` file size and the 32 hash bytes. The length field keeps
/// the low 16 bits of the name's length.
pub open spec fn spec_meta_payload(name_bytes: Seq<u8>, file_size: u64, sha256: Seq<u8>) -> Seq<u8> {
    spec_u16_to_le_bytes(name_bytes.len() as u16) + name_bytes + spec_u64_to_le_bytes(file_size)
        + sha256
}

/// CHUNK payload: little-endian index, then the data.
pub open spec fn spec_chunk_payload(index: u32, data: Seq<u8>) -> Seq<u8> {
    spec_u32_to_le_bytes(index) + data
}

/// ACK payload: the little-endian index.
pub open spec fn spec_ack_payload(index: u32) -> Seq<u8> {
    spec_u32_to_le_bytes(index)
}

/// NACK payload: the little-endian index, then the reason byte.
pub open spec fn spec_nack_payload(index: u32, reason: NackReason) -> Seq<u8> {
    spec_u32_to_le_bytes(index).push(nack_reason_code(reason))
}

/// DONE payload: one byte, 1 for success and 0 for failure.
pub open spec fn spec_done_payload(success: bool) -> Seq<u8> {
    seq![if success { 1u8 } else { 0u8 }]
}

/// The outcome of checking that a packet has the expected type.
pub open spec fn spec_expect_type(actual: PacketType, expected: PacketType) -> Result<(), ProtocolError> {
    if actual != expected {
        Err(ProtocolError::UnexpectedType { expected, actual })
    } else {
        Ok(())
    }
}

pub open spec fn spec_parse_hello(t: PacketType, p: Seq<u8>) -> Result<u8, ProtocolError> {
    if t != PacketType::Hello {
        Err(ProtocolError::UnexpectedType { expected: PacketType::Hello, actual: t })
    } else if p.len() == 0 {
        Err(ProtocolError::MalformedPayload("HELLO vazio"))
    } else {
        Ok(p[0])
    }
}

pub open spec fn spec_parse_meta(t: PacketType, p: Seq<u8>) -> Result<MetaView, ProtocolError> {
    if t != PacketType::Meta {
        Err(ProtocolError::UnexpectedType { expected: PacketType::Meta, actual: t })
    } else if p.len() < 2 {
        Err(ProtocolError::MalformedPayload("META menor que o cabecalho de nome"))
    } else {
        let name_end = 2 + spec_u16_from_le_bytes(p.take(2));
        let size_end = name_end + 8;
        let hash_end = size_end + 32;
        if p.len() < hash_end {
            Err(ProtocolError::MalformedPayload("META truncado"))
        } else if !valid_utf8(p.subrange(2, name_end)) {
            Err(ProtocolError::MalformedPayload("nome de arquivo nao e UTF-8 valido"))
        } else {
            Ok(
                MetaView {
                    file_name: decode_utf8(p.subrange(2, name_end)),
                    file_size: spec_u64_from_le_bytes(p.subrange(name_end, size_end)),
                    sha256: p.subrange(size_end, hash_end),
                },
            )
        }
    }
}

pub open spec fn spec_parse_chunk(t: PacketType, p: Seq<u8>) -> Result<(u32, Seq<u8>), ProtocolError> {
    if t != PacketType::Chunk {
        Err(ProtocolError::UnexpectedType { expected: PacketType::Chunk, actual: t })
    } else if p.len() < 4 {
        Err(ProtocolError::MalformedPayload("CHUNK menor que o indice"))
    } else {
        Ok((spec_u32_from_le_bytes(p.take(4)), p.skip(4)))
    }
}

pub open spec fn spec_parse_ack(t: PacketType, p: Seq<u8>) -> Result<u32, ProtocolError> {
    if t != PacketType::Ack {
        Err(ProtocolError::UnexpectedType { expected: PacketType::Ack, actual: t })
    } else if p.len() < 4 {
        Err(ProtocolError::MalformedPayload("ACK menor que o indice"))
    } else {
        Ok(spec_u32_from_le_bytes(p.take(4)))
    }
}

pub open spec fn spec_parse_nack(t: PacketType, p: Seq<u8>) -> Result<(u32, NackReason), ProtocolError> {
    if t != PacketType::Nack {
        Err(ProtocolError::UnexpectedType { expected: PacketType::Nack, actual: t })
    } else if p.len() < 5 {
        Err(ProtocolError::MalformedPayload("NACK menor que indice+motivo"))
    } else {
        Ok((spec_u32_from_le_bytes(p.take(4)), nack_reason_of_code(p[4])))
    }
}

pub open spec fn spec_parse_done(t: PacketType, p: Seq<u8>) -> Result<bool, ProtocolError> {
    if t != PacketType::Done {
        Err(ProtocolError::UnexpectedType { expected: PacketType::Done, actual: t })
    } else if p.len() == 0 {
        Err(ProtocolError::MalformedPayload("DONE vazio"))
    } else {
        Ok(p[0] != 0)
    }
}

/// The frame of a packet: type byte, little-endian payload length, payload,
/// and the little-endian CRC-32 of everything before it.
pub open spec fn spec_frame(t: PacketType, payload: Seq<u8>) -> Seq<u8> {
    let body = seq![packet_type_code(t)] + spec_u32_to_le_bytes(payload.len() as u32) + payload;
    body + spec_u32_to_le_bytes(spec_crc32(body))
}

/// What the fixed header `h` announces: the packet type and payload length.
pub open spec fn spec_decode_header(h: Seq<u8>) -> Result<(PacketType, u32), ProtocolError> {
    if h.len() < HEADER_LEN {
        Err(ProtocolError::Truncated)
    } else {
        match packet_type_of_code(h[0]) {
            None => Err(ProtocolError::InvalidType(h[0])),
            Some(t) => {
                let len = spec_u32_from_le_bytes(h.subrange(1, 5));
                if len > MAX_PAYLOAD_LEN {
                    Err(ProtocolError::PayloadTooLarge(len as usize))
                } else {
                    Ok((t, len))
                }
            },
        }
    }
}

/// The packet that a complete frame at the start of `buf` holds, or why there is none.
pub open spec fn spec_decode_frame(buf: Seq<u8>) -> Result<(PacketType, Seq<u8>), ProtocolError> {
    if buf.len() < HEADER_LEN + CRC_LEN {
        Err(ProtocolError::Truncated)
    } else {
        match spec_decode_header(buf.take(HEADER_LEN as int)) {
            Err(e) => Err(e),
            Ok((t, len)) => {
                let payload_end = HEADER_LEN + len;
                let frame_end = payload_end + CRC_LEN;
                if buf.len() < frame_end {
                    Err(ProtocolError::Truncated)
                } else {
                    let expected = spec_u32_from_le_bytes(buf.subrange(payload_end, frame_end));
                    let actual = spec_crc32(buf.take(payload_end));
                    if expected != actual {
                        Err(ProtocolError::CrcMismatch { expected, actual })
                    } else {
                        Ok((t, buf.subrange(HEADER_LEN as int, payload_end)))
                    }
                }
            },
        }
    }
}

/// A decoding result seen as plain values.
pub open spec fn packet_result(
    r: Result<Packet, ProtocolError>,
) -> Result<(PacketType, Seq<u8>), ProtocolError> {
    match r {
        Ok(p) => Ok((p.packet_type, p.payload@)),
        Err(e) => Err(e),
    }
}

impl Packet {
    /// A packet of the given type and payload.
    pub fn new(packet_type: PacketType, payload: Vec<u8>) -> (r: Self)
        ensures
            r.packet_type == packet_type,
            r.payload@ == payload@,
    {
        Packet { packet_type, payload }
    }

    /// Serialises the whole frame (header, payload, CRC-32).
    pub fn to_bytes(&self) -> (r: Vec<u8>)
        ensures
            r@ == spec_frame(self.packet_type, self.payload@),
    {
        let mut buf: Vec<u8> = Vec::new();
        buf.push(self.packet_type.as_u8());
        let len_bytes = u32_to_le_bytes(self.payload.len() as u32);
        buf.extend_from_slice(len_bytes.as_slice());
        buf.extend_from_slice(self.payload.as_slice());
        let ghost body = buf@;
        assert(body =~= seq![packet_type_code(self.packet_type)] + spec_u32_to_le_bytes(
            self.payload@.len() as u32,
        ) + self.payload@);
        let crc = crc32(buf.as_slice());
        let crc_bytes = u32_to_le_bytes(crc);
        buf.extend_from_slice(crc_bytes.as_slice());
        assert(buf@ =~= body + spec_u32_to_le_bytes(spec_crc32(body)));
        buf
    }

    /// Reads only the fixed header to learn the packet type and how many
    /// payload bytes follow.
    pub fn decode_header(header: &[u8]) -> (r: Result<(PacketType, u32), ProtocolError>)
        ensures
            r == spec_decode_header(header@),
    {
        if header.len() < HEADER_LEN {
            return Err(ProtocolError::Truncated);
        }
        let packet_type = match PacketType::from_u8(header[0]) {
            Some(t) => t,
            None => {
                return Err(ProtocolError::InvalidType(header[0]));
            },
        };
        let len = u32_from_le_bytes(&header[1..5]);
        if len as usize > MAX_PAYLOAD_LEN {
            return Err(ProtocolError::PayloadTooLarge(len as usize));
        }
        Ok((packet_type, len))
    }

    /// How many bytes of the frame still follow its fixed header: the payload
    /// announced by the header and the CRC-32.
    pub fn frame_remainder_len(header: &[u8]) -> (r: Result<u32, ProtocolError>)
        ensures
            r == match spec_decode_header(header@) {
                Ok((_, len)) => Ok::<u32, ProtocolError>((len + CRC_LEN) as u32),
                Err(e) => Err::<u32, ProtocolError>(e),
            },
    {
        let (_, payload_len) = Self::decode_header(header)?;
        Ok(payload_len + CRC_LEN as u32)
    }

    /// Decodes a complete frame held in memory, checking its CRC-32.
    pub fn from_bytes(buf: &[u8]) -> (r: Result<Packet, ProtocolError>)
        ensures
            packet_result(r) == spec_decode_frame(buf@),
    {
        if buf.len() < HEADER_LEN + CRC_LEN {
            return Err(ProtocolError::Truncated);
        }
        let (packet_type, len) = match Self::decode_header(&buf[0..HEADER_LEN]) {
            Ok(h) => h,
            Err(e) => {
                return Err(e);
            },
        };
        let len = len as usize;
        let payload_end = HEADER_LEN + len;
        let frame_end = payload_end + CRC_LEN;
        if buf.len() < frame_end {
            return Err(ProtocolError::Truncated);
        }
        let payload = &buf[HEADER_LEN..payload_end];
        let expected_crc = u32_from_le_bytes(&buf[payload_end..frame_end]);
        let actual_crc = crc32(&buf[0..payload_end]);
        if expected_crc != actual_crc {
            return Err(ProtocolError::CrcMismatch { expected: expected_crc, actual: actual_crc });
        }
        Ok(Packet { packet_type, payload: slice_to_vec(payload) })
    }
    /// HELLO carrying `PROTOCOL_VERSION`.
    pub fn hello() -> (r: Packet)
        ensures
            r.packet_type == PacketType::Hello,
            r.payload@ == spec_hello_payload(),
    {
        Packet::new(PacketType::Hello, vec![PROTOCOL_VERSION])
    }

    /// META for a file: name (as UTF-8, its length as a little-endian `u16`),
    /// size and SHA-256.
    pub fn meta(file_name: &str, file_size: u64, sha256: [u8; 32]) -> (r: Packet)
        ensures
            r.packet_type == PacketType::Meta,
            r.payload@ == spec_meta_payload(file_name.spec_bytes(), file_size, sha256@),
    {
        let name_bytes = file_name.as_bytes();
        let mut payload: Vec<u8> = Vec::new();
        let len_bytes = u16_to_le_bytes(name_bytes.len() as u16);
        payload.extend_from_slice(len_bytes.as_slice());
        payload.extend_from_slice(name_bytes);
        let size_bytes = u64_to_le_bytes(file_size);
        payload.extend_from_slice(size_bytes.as_slice());
        payload.extend_from_slice(sha256.as_slice());
        assert(payload@ =~= spec_meta_payload(file_name.spec_bytes(), file_size, sha256@));
        Packet::new(PacketType::Meta, payload)
    }

    /// CHUNK number `index` carrying `data`.
    pub fn chunk(index: u32, data: &[u8]) -> (r: Packet)
        ensures
            r.packet_type == PacketType::Chunk,
            r.payload@ == spec_chunk_payload(index, data@),
    {
        let mut payload = u32_to_le_bytes(index);
        payload.extend_from_slice(data);
        assert(payload@ =~= spec_chunk_payload(index, data@));
        Packet::new(PacketType::Chunk, payload)
    }

    /// ACK of packet `index` (0 for META).
    pub fn ack(index: u32) -> (r: Packet)
        ensures
            r.packet_type == PacketType::Ack,
            r.payload@ == spec_ack_payload(index),
    {
        Packet::new(PacketType::Ack, u32_to_le_bytes(index))
    }

    /// NACK of chunk `index` for `reason`.
    pub fn nack(index: u32, reason: NackReason) -> (r: Packet)
        ensures
            r.packet_type == PacketType::Nack,
            r.payload@ == spec_nack_payload(index, reason),
    {
        let mut payload = u32_to_le_bytes(index);
        payload.push(reason.as_u8());
        Packet::new(PacketType::Nack, payload)
    }

    /// DONE with the integrity verdict.
    pub fn done(success: bool) -> (r: Packet)
        ensures
            r.packet_type == PacketType::Done,
            r.payload@ == spec_done_payload(success),
    {
        let b: u8 = if success { 1 } else { 0 };
        Packet::new(PacketType::Done, vec![b])
    }

    /// The protocol version carried by a HELLO.
    pub fn parse_hello(&self) -> (r: Result<u8, ProtocolError>)
        ensures
            r == spec_parse_hello(self.packet_type, self.payload@),
    {
        self.expect_type(PacketType::Hello)?;
        if self.payload.len() == 0 {
            return Err(ProtocolError::MalformedPayload("HELLO vazio"));
        }
        Ok(self.payload[0])
    }

    /// The file metadata carried by a META; bytes after the hash are ignored.
    pub fn parse_meta(&self) -> (r: Result<MetaPayload, ProtocolError>)
        ensures
            meta_result(r) == spec_parse_meta(self.packet_type, self.payload@),
    {
        self.expect_type(PacketType::Meta)?;
        let p = self.payload.as_slice();
        if p.len() < 2 {
            return Err(ProtocolError::MalformedPayload("META menor que o cabecalho de nome"));
        }
        let name_len = u16_from_le_bytes(&p[0..2]) as usize;
        let name_start: usize = 2;
        let name_end = name_start + name_len;
        let size_end = name_end + 8;
        let hash_end = size_end + 32;
        if p.len() < hash_end {
            return Err(ProtocolError::MalformedPayload("META truncado"));
        }
        let file_name = match string_from_utf8(slice_to_vec(&p[name_start..name_end])) {
            Ok(s) => s,
            Err(_) => {
                return Err(ProtocolError::MalformedPayload("nome de arquivo nao e UTF-8 valido"));
            },
        };
        let file_size = u64_from_le_bytes(&p[name_end..size_end]);
        let mut sha256 = [0u8; 32];
        let mut k: usize = 0;
        while k < 32
            invariant
                k <= 32,
                p@ == self.payload@,
                size_end + 32 == hash_end,
                hash_end <= p@.len(),
                forall|i: int| 0 <= i < k ==> sha256@[i] == p@[size_end + i],
            decreases 32 - k,
        {
            sha256[k] = p[size_end + k];
            k += 1;
        }
        assert(sha256@ =~= p@.subrange(size_end as int, hash_end as int));
        Ok(MetaPayload { file_name, file_size, sha256 })
    }

    /// The index and data carried by a CHUNK.
    pub fn parse_chunk(&self) -> (r: Result<(u32, &[u8]), ProtocolError>)
        ensures
            match r {
                Ok((i, d)) => spec_parse_chunk(self.packet_type, self.payload@) == Ok::<
                    (u32, Seq<u8>),
                    ProtocolError,
                >((i, d@)),
                Err(e) => spec_parse_chunk(self.packet_type, self.payload@) == Err::<
                    (u32, Seq<u8>),
                    ProtocolError,
                >(e),
            },
    {
        self.expect_type(PacketType::Chunk)?;
        if self.payload.len() < 4 {
            return Err(ProtocolError::MalformedPayload("CHUNK menor que o indice"));
        }
        let p = self.payload.as_slice();
        let index = u32_from_le_bytes(&p[0..4]);
        Ok((index, &p[4..p.len()]))
    }

    /// The index carried by an ACK; bytes after it are ignored.
    pub fn parse_ack(&self) -> (r: Result<u32, ProtocolError>)
        ensures
            r == spec_parse_ack(self.packet_type, self.payload@),
    {
        self.expect_type(PacketType::Ack)?;
        if self.payload.len() < 4 {
            return Err(ProtocolError::MalformedPayload("ACK menor que o indice"));
        }
        Ok(u32_from_le_bytes(&self.payload.as_slice()[0..4]))
    }

    /// The index and reason carried by a NACK.
    pub fn parse_nack(&self) -> (r: Result<(u32, NackReason), ProtocolError>)
        ensures
            r == spec_parse_nack(self.packet_type, self.payload@),
    {
        self.expect_type(PacketType::Nack)?;
        if self.payload.len() < 5 {
            return Err(ProtocolError::MalformedPayload("NACK menor que indice+motivo"));
        }
        let index = u32_from_le_bytes(&self.payload.as_slice()[0..4]);
        Ok((index, NackReason::from_u8(self.payload[4])))
    }

    /// The verdict carried by a DONE: any non-zero byte means success.
    pub fn parse_done(&self) -> (r: Result<bool, ProtocolError>)
        ensures
            r == spec_parse_done(self.packet_type, self.payload@),
    {
        self.expect_type(PacketType::Done)?;
        if self.payload.len() == 0 {
            return Err(ProtocolError::MalformedPayload("DONE vazio"));
        }
        Ok(self.payload[0] != 0)
    }

    /// Refuses a packet of another type than `expected`.
    fn expect_type(&self, expected: PacketType) -> (r: Result<(), ProtocolError>)
        ensures
            r == spec_expect_type(self.packet_type, expected),
    {
        if self.packet_type != expected {
            return Err(ProtocolError::UnexpectedType { expected, actual: self.packet_type });
        }
        Ok(())
    }
}

} // verus!
