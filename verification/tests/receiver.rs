use bt_file_transfer::protocol::{NackReason, Packet, PacketType, ProtocolError};
use bt_file_transfer::receiver::{Action, Phase, Receiver, TransferError};
use bt_file_transfer::text::sanitize_file_name;

fn hex32(s: &str) -> [u8; 32] {
    let mut out = [0u8; 32];
    for i in 0..32 {
        out[i] = u8::from_str_radix(&s[2 * i..2 * i + 2], 16).unwrap();
    }
    out
}

const SHA256_ABC: &str = "ba7816bf8f01cfea414140de5dae2223b00361a396177a9cb410ff61f20015ad";
const SHA256_EMPTY: &str = "e3b0c44298fc1c149afbf4c8996fb92427ae41e4649b934ca495991b7852b855";

fn sent(action: &Action) -> &Packet {
    match action {
        Action::Send(p) => p,
        other => panic!("expected a packet to send, got {:?}", other),
    }
}

fn open(receiver: &mut Receiver, name: &str, size: u64, hash: [u8; 32]) -> Vec<Action> {
    let step = receiver.on_frame(&Packet::hello().to_bytes());
    assert!(step.outcome.is_none());
    assert_eq!(step.actions.len(), 1);
    assert_eq!(sent(&step.actions[0]), &Packet::hello());
    let step = receiver.on_frame(&Packet::meta(name, size, hash).to_bytes());
    step.actions
}

#[test]
fn full_transfer_is_committed_when_hash_matches() {
    let mut r = Receiver::new();
    let actions = open(&mut r, "dir/abc.txt", 3, hex32(SHA256_ABC));
    assert_eq!(actions.len(), 2);
    assert_eq!(sent(&actions[0]), &Packet::ack(0));
    match &actions[1] {
        Action::CreateFile { part_name, final_name } => {
            assert_eq!(part_name, "dir_abc.txt.part");
            assert_eq!(final_name, "dir_abc.txt");
        }
        other => panic!("unexpected {:?}", other),
    }
    assert_eq!(r.phase(), Phase::Receiving);

    let step = r.on_frame(&Packet::chunk(0, b"ab").to_bytes());
    assert!(step.outcome.is_none());
    assert_eq!(step.actions.len(), 1);
    assert!(matches!(&step.actions[0], Action::Write(d) if d == b"ab"));
    assert_eq!(r.phase(), Phase::AwaitWrite);
    let step = r.on_written(true);
    assert!(step.outcome.is_none());
    assert_eq!(step.actions.len(), 1);
    assert_eq!(sent(&step.actions[0]), &Packet::ack(0));
    assert_eq!(r.phase(), Phase::Receiving);

    let step = r.on_frame(&Packet::chunk(1, b"c").to_bytes());
    assert!(step.outcome.is_none());
    assert!(matches!(&step.actions[0], Action::Write(d) if d == b"c"));
    let step = r.on_written(true);
    assert_eq!(step.outcome, Some(Ok("dir/abc.txt".to_string())));
    assert_eq!(step.actions.len(), 4);
    assert_eq!(sent(&step.actions[0]), &Packet::ack(1));
    assert!(matches!(step.actions[1], Action::CloseFile));
    assert_eq!(sent(&step.actions[2]), &Packet::done(true));
    assert!(matches!(step.actions[3], Action::Commit));
    assert_eq!(r.phase(), Phase::Finished);

    // Nothing happens after the end.
    let step = r.on_frame(&Packet::chunk(2, b"d").to_bytes());
    assert!(step.actions.is_empty());
    assert!(step.outcome.is_none());
}

#[test]
fn wrong_hash_discards_the_file() {
    let mut r = Receiver::new();
    open(&mut r, "x", 3, [0u8; 32]);
    r.on_frame(&Packet::chunk(0, b"abc").to_bytes());
    let step = r.on_written(true);
    assert_eq!(step.outcome, Some(Err(TransferError::IntegrityCheckFailed)));
    assert_eq!(step.actions.len(), 4);
    assert_eq!(sent(&step.actions[2]), &Packet::done(false));
    assert!(matches!(step.actions[3], Action::Discard));
}

#[test]
fn empty_file_finishes_right_after_meta() {
    let mut r = Receiver::new();
    let actions = open(&mut r, "empty", 0, hex32(SHA256_EMPTY));
    assert_eq!(actions.len(), 5);
    assert_eq!(sent(&actions[0]), &Packet::ack(0));
    assert!(matches!(actions[2], Action::CloseFile));
    assert_eq!(sent(&actions[3]), &Packet::done(true));
    assert!(matches!(actions[4], Action::Commit));
    assert_eq!(r.phase(), Phase::Finished);
}

#[test]
fn out_of_order_chunk_is_nacked() {
    let mut r = Receiver::new();
    open(&mut r, "f", 10, [0u8; 32]);
    let step = r.on_frame(&Packet::chunk(3, b"zz").to_bytes());
    assert!(step.outcome.is_none());
    assert_eq!(step.actions.len(), 1);
    assert_eq!(sent(&step.actions[0]), &Packet::nack(3, NackReason::OutOfOrder));
    assert_eq!(r.phase(), Phase::Receiving);
    // The expected chunk is still accepted afterwards.
    let step = r.on_frame(&Packet::chunk(0, b"zz").to_bytes());
    assert!(matches!(&step.actions[0], Action::Write(d) if d == b"zz"));
    let step = r.on_written(true);
    assert_eq!(sent(&step.actions[0]), &Packet::ack(0));
}

#[test]
fn corrupted_chunk_is_nacked_with_crc_reason() {
    let mut r = Receiver::new();
    open(&mut r, "f", 10, [0u8; 32]);
    r.on_frame(&Packet::chunk(0, b"12345").to_bytes());
    r.on_written(true);
    let mut bytes = Packet::chunk(1, b"678").to_bytes();
    bytes[9] ^= 0xFF;
    let step = r.on_frame(&bytes);
    assert!(step.outcome.is_none());
    assert_eq!(step.actions.len(), 1);
    assert_eq!(sent(&step.actions[0]), &Packet::nack(1, NackReason::CrcMismatch));
    assert_eq!(r.phase(), Phase::Receiving);
}

#[test]
fn unexpected_packet_while_receiving_ends_the_transfer() {
    let mut r = Receiver::new();
    open(&mut r, "f", 10, [0u8; 32]);
    let step = r.on_frame(&Packet::ack(0).to_bytes());
    assert!(step.actions.is_empty());
    assert_eq!(
        step.outcome,
        Some(Err(TransferError::Protocol(ProtocolError::UnexpectedType {
            expected: PacketType::Chunk,
            actual: PacketType::Ack,
        })))
    );
    assert_eq!(r.phase(), Phase::Finished);
}

#[test]
fn bad_handshake_ends_the_transfer() {
    let mut r = Receiver::new();
    let step = r.on_frame(&Packet::meta("a", 1, [0u8; 32]).to_bytes());
    assert!(step.actions.is_empty());
    assert_eq!(
        step.outcome,
        Some(Err(TransferError::Protocol(ProtocolError::UnexpectedType {
            expected: PacketType::Hello,
            actual: PacketType::Meta,
        })))
    );
    let mut r = Receiver::new();
    let mut bytes = Packet::hello().to_bytes();
    bytes[5] ^= 1;
    let step = r.on_frame(&bytes);
    assert!(matches!(step.outcome, Some(Err(TransferError::Protocol(ProtocolError::CrcMismatch { .. })))));
}

#[test]
fn sanitizer_replaces_forbidden_characters() {
    assert_eq!(sanitize_file_name("a/b\\c:d*e?f\"g<h>i|j"), "a_b_c_d_e_f_g_h_i_j");
    assert_eq!(sanitize_file_name("relatório_ç.pdf"), "relatório_ç.pdf");
    assert_eq!(sanitize_file_name("../../etc/passwd"), ".._.._etc_passwd");
    assert_eq!(sanitize_file_name(""), "");
}

#[test]
fn failed_write_is_nacked_and_the_chunk_retried() {
    let mut r = Receiver::new();
    open(&mut r, "f", 5, hex32(SHA256_ABC));
    r.on_frame(&Packet::chunk(0, b"ab").to_bytes());
    r.on_written(true);
    r.on_frame(&Packet::chunk(1, b"c").to_bytes());
    let step = r.on_written(false);
    assert!(step.outcome.is_none());
    assert_eq!(step.actions.len(), 2);
    assert!(matches!(step.actions[0], Action::Truncate(2)));
    assert_eq!(sent(&step.actions[1]), &Packet::nack(1, NackReason::IoError));
    assert_eq!(r.phase(), Phase::Receiving);
    // Frames other than the resent chunk are still handled as before.
    let step = r.on_frame(&Packet::chunk(2, b"x").to_bytes());
    assert_eq!(sent(&step.actions[0]), &Packet::nack(2, NackReason::OutOfOrder));
    let step = r.on_frame(&Packet::chunk(1, b"c").to_bytes());
    assert!(matches!(&step.actions[0], Action::Write(d) if d == b"c"));
    let step = r.on_written(true);
    assert_eq!(sent(&step.actions[0]), &Packet::ack(1));
    assert!(step.outcome.is_none());
}

#[test]
fn write_outcome_outside_a_pending_write_does_nothing() {
    let mut r = Receiver::new();
    let step = r.on_written(true);
    assert!(step.actions.is_empty());
    assert!(step.outcome.is_none());
    assert_eq!(r.phase(), Phase::AwaitHello);
    open(&mut r, "f", 5, [0u8; 32]);
    r.on_frame(&Packet::chunk(0, b"ab").to_bytes());
    // While a write is awaited, frames are not taken.
    let step = r.on_frame(&Packet::chunk(1, b"cd").to_bytes());
    assert!(step.actions.is_empty());
    assert_eq!(r.phase(), Phase::AwaitWrite);
}
