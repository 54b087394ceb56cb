//! Properties that relate the encoders and decoders of the protocol.

use vstd::prelude::*;
use vstd::bytes::*;

use crate::crc::{lemma_crc32_detects_byte_change, spec_crc32};
use vstd::utf8::{encode_utf8, encode_utf8_decode_utf8, encode_utf8_valid_utf8};

use crate::protocol::{
    nack_reason_code, nack_reason_of_code, packet_type_code, packet_type_of_code,
    spec_ack_payload, spec_chunk_payload, spec_decode_frame, spec_decode_header,
    spec_done_payload, spec_frame, spec_hello_payload, spec_meta_payload, spec_nack_payload,
    spec_parse_ack, spec_parse_chunk, spec_parse_done, spec_parse_hello, spec_parse_meta,
    spec_parse_nack, MetaView, NackReason, PacketType, ProtocolError, CRC_LEN, HEADER_LEN,
    MAX_PAYLOAD_LEN, PROTOCOL_VERSION,
};

verus! {

/// The wire byte of a packet type decodes back to that type.
pub proof fn lemma_packet_type_code_roundtrip(t: PacketType)
    ensures
        packet_type_of_code(packet_type_code(t)) == Some(t),
{
}

/// A byte decodes to a packet type exactly when it is that type's wire byte.
pub proof fn lemma_packet_type_of_code_inverse(b: u8)
    ensures
        packet_type_of_code(b) matches Some(t) ==> packet_type_code(t) == b,
        packet_type_of_code(b) is Some <==> 1 <= b <= 6,
{
}

/// The header of a frame announces the packet's type and payload length.
pub proof fn lemma_frame_header(t: PacketType, payload: Seq<u8>, rest: Seq<u8>)
    requires
        payload.len() <= MAX_PAYLOAD_LEN,
    ensures
        spec_decode_header((spec_frame(t, payload) + rest).take(HEADER_LEN as int)) == Ok::<
            (PacketType, u32),
            ProtocolError,
        >((t, payload.len() as u32)),
{
    lemma_auto_spec_u32_to_from_le_bytes();
    let len = payload.len() as u32;
    let body = seq![packet_type_code(t)] + spec_u32_to_le_bytes(len) + payload;
    let f = spec_frame(t, payload) + rest;
    let h = f.take(HEADER_LEN as int);
    assert(h[0] == packet_type_code(t));
    assert(h.subrange(1, 5) =~= spec_u32_to_le_bytes(len));
}

/// Decoding the frame of a packet whose payload fits gives that packet back,
/// whatever bytes follow the frame.
pub proof fn lemma_frame_roundtrip(t: PacketType, payload: Seq<u8>, rest: Seq<u8>)
    requires
        payload.len() <= MAX_PAYLOAD_LEN,
    ensures
        spec_decode_frame(spec_frame(t, payload) + rest) == Ok::<
            (PacketType, Seq<u8>),
            ProtocolError,
        >((t, payload)),
{
    lemma_auto_spec_u32_to_from_le_bytes();
    lemma_frame_header(t, payload, rest);
    let len = payload.len() as u32;
    let body = seq![packet_type_code(t)] + spec_u32_to_le_bytes(len) + payload;
    let f = spec_frame(t, payload) + rest;
    let payload_end = HEADER_LEN + len;
    let frame_end = payload_end + CRC_LEN;
    assert(f.take(payload_end) =~= body);
    assert(f.subrange(payload_end, frame_end) =~= spec_u32_to_le_bytes(spec_crc32(body)));
    assert(f.subrange(HEADER_LEN as int, payload_end) =~= payload);
}


/// The wire byte of a NACK reason decodes back to that reason.
pub proof fn lemma_nack_reason_roundtrip(r: NackReason)
    ensures
        nack_reason_of_code(nack_reason_code(r)) == r,
{
}

/// A HELLO built by the library parses to the protocol version.
pub proof fn lemma_hello_roundtrip()
    ensures
        spec_parse_hello(PacketType::Hello, spec_hello_payload()) == Ok::<u8, ProtocolError>(
            PROTOCOL_VERSION,
        ),
{
}

/// A META payload parses back to the name, size and hash it was built from,
/// when the name's UTF-8 encoding fits the 16-bit length field.
pub proof fn lemma_meta_roundtrip(file_name: Seq<char>, file_size: u64, sha256: Seq<u8>)
    requires
        encode_utf8(file_name).len() <= u16::MAX,
        sha256.len() == 32,
    ensures
        spec_parse_meta(
            PacketType::Meta,
            spec_meta_payload(encode_utf8(file_name), file_size, sha256),
        ) == Ok::<MetaView, ProtocolError>(MetaView { file_name, file_size, sha256 }),
{
    lemma_auto_spec_u16_to_from_le_bytes();
    lemma_auto_spec_u64_to_from_le_bytes();
    encode_utf8_valid_utf8(file_name);
    encode_utf8_decode_utf8(file_name);
    let nb = encode_utf8(file_name);
    let p = spec_meta_payload(nb, file_size, sha256);
    let name_end: int = 2 + nb.len() as int;
    assert(p.take(2) =~= spec_u16_to_le_bytes(nb.len() as u16));
    assert(p.subrange(2, name_end) =~= nb);
    assert(p.subrange(name_end, name_end + 8) =~= spec_u64_to_le_bytes(file_size));
    assert(p.subrange(name_end + 8, name_end + 40) =~= sha256);
}

/// A CHUNK payload parses back to its index and data.
pub proof fn lemma_chunk_roundtrip(index: u32, data: Seq<u8>)
    ensures
        spec_parse_chunk(PacketType::Chunk, spec_chunk_payload(index, data)) == Ok::<
            (u32, Seq<u8>),
            ProtocolError,
        >((index, data)),
{
    lemma_auto_spec_u32_to_from_le_bytes();
    let p = spec_chunk_payload(index, data);
    assert(p.take(4) =~= spec_u32_to_le_bytes(index));
    assert(p.skip(4) =~= data);
}

/// An ACK payload parses back to its index.
pub proof fn lemma_ack_roundtrip(index: u32)
    ensures
        spec_parse_ack(PacketType::Ack, spec_ack_payload(index)) == Ok::<u32, ProtocolError>(
            index,
        ),
{
    lemma_auto_spec_u32_to_from_le_bytes();
    assert(spec_ack_payload(index).take(4) =~= spec_u32_to_le_bytes(index));
}

/// A NACK payload parses back to its index and reason.
pub proof fn lemma_nack_roundtrip(index: u32, reason: NackReason)
    ensures
        spec_parse_nack(PacketType::Nack, spec_nack_payload(index, reason)) == Ok::<
            (u32, NackReason),
            ProtocolError,
        >((index, reason)),
{
    lemma_auto_spec_u32_to_from_le_bytes();
    assert(spec_nack_payload(index, reason).take(4) =~= spec_u32_to_le_bytes(index));
}

/// A DONE payload parses back to its verdict.
pub proof fn lemma_done_roundtrip(success: bool)
    ensures
        spec_parse_done(PacketType::Done, spec_done_payload(success)) == Ok::<bool, ProtocolError>(
            success,
        ),
{
}

/// Corrupting any one byte of a frame, other than its length field, makes the
/// frame refused: a change to the type or the payload fails the CRC-32 check
/// (or names no packet type), and a change to the CRC-32 no longer matches.
pub proof fn lemma_frame_detects_byte_change(t: PacketType, payload: Seq<u8>, k: int, v: u8)
    requires
        payload.len() <= MAX_PAYLOAD_LEN,
        k == 0 || HEADER_LEN <= k < spec_frame(t, payload).len(),
        spec_frame(t, payload)[k] != v,
    ensures
        spec_decode_frame(spec_frame(t, payload).update(k, v)) is Err,
{
    lemma_auto_spec_u32_to_from_le_bytes();
    let len = payload.len() as u32;
    let body = seq![packet_type_code(t)] + spec_u32_to_le_bytes(len) + payload;
    let crc_bytes = spec_u32_to_le_bytes(spec_crc32(body));
    let f = spec_frame(t, payload);
    let g = f.update(k, v);
    let payload_end = HEADER_LEN + len;
    let frame_end = payload_end + CRC_LEN;
    assert(f =~= body + crc_bytes);
    assert(g.len() == f.len());
    assert(g.subrange(1, 5) =~= f.subrange(1, 5));
    assert(f.subrange(1, 5) =~= spec_u32_to_le_bytes(len));
    if k < payload_end {
        assert(g.take(payload_end) =~= body.update(k, v));
        assert(g.subrange(payload_end, frame_end) =~= crc_bytes);
        lemma_crc32_detects_byte_change(body, k, v);
        if k == 0 {
            assert(g.take(HEADER_LEN as int)[0] == v);
            assert(g.take(HEADER_LEN as int).subrange(1, 5) =~= spec_u32_to_le_bytes(len));
        } else {
            assert(g.take(HEADER_LEN as int) =~= f.take(HEADER_LEN as int));
            lemma_frame_header(t, payload, Seq::empty());
            assert(f + Seq::<u8>::empty() =~= f);
        }
    } else {
        assert(g.take(payload_end) =~= body);
        assert(g.take(HEADER_LEN as int) =~= f.take(HEADER_LEN as int));
        lemma_frame_header(t, payload, Seq::empty());
        assert(f + Seq::<u8>::empty() =~= f);
        let stored = g.subrange(payload_end, frame_end);
        assert(stored =~= crc_bytes.update(k - payload_end, v));
        assert(stored != crc_bytes);
        assert(stored.len() == 4);
        assert(spec_u32_to_le_bytes(spec_u32_from_le_bytes(stored)) == stored);
    }
}

/// A complete frame with a valid header whose stored CRC-32 differs from the
/// CRC-32 of its type, length and payload is refused as a CRC mismatch that
/// reports both values, whatever the payload's length and whatever follows.
pub proof fn lemma_crc_mismatch_reported(
    t: PacketType,
    payload: Seq<u8>,
    stored: Seq<u8>,
    rest: Seq<u8>,
)
    requires
        payload.len() <= MAX_PAYLOAD_LEN,
        stored.len() == 4,
        spec_u32_from_le_bytes(stored) != spec_crc32(
            seq![packet_type_code(t)] + spec_u32_to_le_bytes(payload.len() as u32) + payload,
        ),
    ensures
        ({
            let body = seq![packet_type_code(t)] + spec_u32_to_le_bytes(payload.len() as u32)
                + payload;
            spec_decode_frame(body + stored + rest) == Err::<(PacketType, Seq<u8>), ProtocolError>(
                ProtocolError::CrcMismatch {
                    expected: spec_u32_from_le_bytes(stored),
                    actual: spec_crc32(body),
                },
            )
        }),
{
    lemma_auto_spec_u32_to_from_le_bytes();
    let len = payload.len() as u32;
    let body = seq![packet_type_code(t)] + spec_u32_to_le_bytes(len) + payload;
    let f = body + stored + rest;
    let h = f.take(HEADER_LEN as int);
    assert(h[0] == packet_type_code(t));
    assert(h.subrange(1, 5) =~= spec_u32_to_le_bytes(len));
    let payload_end = HEADER_LEN + len;
    assert(f.take(payload_end) =~= body);
    assert(f.subrange(payload_end, payload_end + CRC_LEN) =~= stored);
}

} // verus!
