use bt_file_transfer::crc::crc32;
use bt_file_transfer::protocol::{
    NackReason, Packet, PacketType, ProtocolError, CHUNK_SIZE, CRC_LEN, HEADER_LEN,
    MAX_PAYLOAD_LEN, PROTOCOL_VERSION,
};

#[test]
fn crc32_matches_known_vector() {
    // Standard check value: CRC32("123456789") = 0xCBF43926.
    assert_eq!(crc32(b"123456789"), 0xCBF4_3926);
}

#[test]
fn hello_roundtrip() {
    let packet = Packet::hello();
    let bytes = packet.to_bytes();
    let decoded = Packet::from_bytes(&bytes).expect("deve decodificar");
    assert_eq!(decoded.packet_type, PacketType::Hello);
    assert_eq!(decoded.parse_hello().unwrap(), PROTOCOL_VERSION);
}

#[test]
fn meta_roundtrip() {
    let hash = [7u8; 32];
    let packet = Packet::meta("arquivo de teste.txt", 123_456, hash);
    let bytes = packet.to_bytes();
    let decoded = Packet::from_bytes(&bytes).expect("deve decodificar");
    let meta = decoded.parse_meta().expect("deve parsear META");
    assert_eq!(meta.file_name, "arquivo de teste.txt");
    assert_eq!(meta.file_size, 123_456);
    assert_eq!(meta.sha256, hash);
}

#[test]
fn meta_roundtrip_with_unicode_name() {
    let hash = [1u8; 32];
    let packet = Packet::meta("relatório_ç.pdf", 42, hash);
    let bytes = packet.to_bytes();
    let decoded = Packet::from_bytes(&bytes).unwrap();
    let meta = decoded.parse_meta().unwrap();
    assert_eq!(meta.file_name, "relatório_ç.pdf");
}

#[test]
fn chunk_roundtrip() {
    let data = vec![0xAAu8; CHUNK_SIZE];
    let packet = Packet::chunk(42, &data);
    let bytes = packet.to_bytes();
    let decoded = Packet::from_bytes(&bytes).unwrap();
    let (index, chunk_data) = decoded.parse_chunk().unwrap();
    assert_eq!(index, 42);
    assert_eq!(chunk_data, data.as_slice());
}

#[test]
fn chunk_roundtrip_partial_final_chunk() {
    let data = vec![0x01u8; 17];
    let packet = Packet::chunk(9, &data);
    let decoded = Packet::from_bytes(&packet.to_bytes()).unwrap();
    let (index, chunk_data) = decoded.parse_chunk().unwrap();
    assert_eq!(index, 9);
    assert_eq!(chunk_data, data.as_slice());
}

#[test]
fn ack_roundtrip() {
    let packet = Packet::ack(7);
    let decoded = Packet::from_bytes(&packet.to_bytes()).unwrap();
    assert_eq!(decoded.parse_ack().unwrap(), 7);
}

#[test]
fn nack_roundtrip() {
    let packet = Packet::nack(3, NackReason::CrcMismatch);
    let decoded = Packet::from_bytes(&packet.to_bytes()).unwrap();
    let (index, reason) = decoded.parse_nack().unwrap();
    assert_eq!(index, 3);
    assert_eq!(reason, NackReason::CrcMismatch);
}

#[test]
fn done_roundtrip_success_and_failure() {
    let ok = Packet::done(true);
    assert!(Packet::from_bytes(&ok.to_bytes()).unwrap().parse_done().unwrap());

    let fail = Packet::done(false);
    assert!(!Packet::from_bytes(&fail.to_bytes()).unwrap().parse_done().unwrap());
}

#[test]
fn detects_corrupted_payload_via_crc() {
    let packet = Packet::ack(1);
    let mut bytes = packet.to_bytes();
    // Corrupt one payload byte without touching the CRC.
    let payload_index = HEADER_LEN;
    bytes[payload_index] ^= 0xFF;
    let err = Packet::from_bytes(&bytes).unwrap_err();
    assert!(matches!(err, ProtocolError::CrcMismatch { .. }));
}

#[test]
fn rejects_unknown_packet_type() {
    let mut bytes = Packet::hello().to_bytes();
    bytes[0] = 0x99;
    // Recompute the CRC so that only the type is wrong.
    let crc = crc32(&bytes[..bytes.len() - CRC_LEN]);
    let crc_start = bytes.len() - CRC_LEN;
    bytes[crc_start..].copy_from_slice(&crc.to_le_bytes());
    let err = Packet::from_bytes(&bytes).unwrap_err();
    assert_eq!(err, ProtocolError::InvalidType(0x99));
}

#[test]
fn rejects_truncated_frame() {
    let bytes = Packet::meta("a.txt", 10, [0u8; 32]).to_bytes();
    let truncated = &bytes[..bytes.len() - 5];
    assert_eq!(Packet::from_bytes(truncated).unwrap_err(), ProtocolError::Truncated);
}

#[test]
fn decode_header_reports_payload_length() {
    let packet = Packet::chunk(1, &[0u8; 100]);
    let bytes = packet.to_bytes();
    let (packet_type, len) = Packet::decode_header(&bytes[..HEADER_LEN]).unwrap();
    assert_eq!(packet_type, PacketType::Chunk);
    assert_eq!(len as usize, 4 + 100);
}

#[test]
fn expect_type_mismatch_is_reported() {
    let packet = Packet::ack(1);
    let err = packet.parse_meta().unwrap_err();
    assert_eq!(
        err,
        ProtocolError::UnexpectedType { expected: PacketType::Meta, actual: PacketType::Ack }
    );
}

// ---------------------------------------------------------------------
// Further cases
// ---------------------------------------------------------------------

#[test]
fn crc32_of_empty_and_single_byte() {
    assert_eq!(crc32(b""), 0);
    assert_eq!(crc32(b"a"), 0xE8B7_BE43);
    assert_eq!(crc32(b"The quick brown fox jumps over the lazy dog"), 0x414F_A339);
}

#[test]
fn packet_type_codes_roundtrip() {
    let all = [
        PacketType::Hello,
        PacketType::Meta,
        PacketType::Chunk,
        PacketType::Ack,
        PacketType::Nack,
        PacketType::Done,
    ];
    for (i, t) in all.iter().enumerate() {
        assert_eq!(t.as_u8() as usize, i + 1);
        assert_eq!(PacketType::from_u8(t.as_u8()), Some(*t));
    }
    for b in 0u8..=255 {
        assert_eq!(PacketType::from_u8(b).is_some(), (1..=6).contains(&b));
    }
}

#[test]
fn nack_reason_codes() {
    for r in [NackReason::CrcMismatch, NackReason::IoError, NackReason::OutOfOrder, NackReason::Other] {
        assert_eq!(NackReason::from_u8(r.as_u8()), r);
    }
    assert_eq!(NackReason::Other.as_u8(), 255);
    assert_eq!(NackReason::from_u8(7), NackReason::Other);
    assert_eq!(NackReason::from_u8(1), NackReason::IoError);
}

#[test]
fn exact_frame_layout() {
    let bytes = Packet::ack(0x0102_0304).to_bytes();
    assert_eq!(&bytes[..HEADER_LEN], &[4, 4, 0, 0, 0]);
    assert_eq!(&bytes[HEADER_LEN..HEADER_LEN + 4], &[4, 3, 2, 1]);
    let crc = crc32(&bytes[..HEADER_LEN + 4]);
    assert_eq!(&bytes[HEADER_LEN + 4..], &crc.to_le_bytes());
    assert_eq!(Packet::done(true).payload, vec![1]);
    assert_eq!(Packet::done(false).payload, vec![0]);
    assert_eq!(Packet::nack(2, NackReason::OutOfOrder).payload, vec![2, 0, 0, 0, 2]);
    let meta = Packet::meta("ab", 0x0102, [9u8; 32]);
    let mut expected = vec![2, 0, b'a', b'b', 2, 1, 0, 0, 0, 0, 0, 0];
    expected.extend_from_slice(&[9u8; 32]);
    assert_eq!(meta.payload, expected);
}

#[test]
fn frame_decodes_with_trailing_bytes() {
    let mut bytes = Packet::chunk(5, b"xyz").to_bytes();
    bytes.extend_from_slice(b"trailing");
    let decoded = Packet::from_bytes(&bytes).unwrap();
    assert_eq!(decoded, Packet::new(PacketType::Chunk, vec![5, 0, 0, 0, b'x', b'y', b'z']));
}

#[test]
fn header_errors() {
    assert_eq!(Packet::decode_header(&[1, 0, 0, 0]).unwrap_err(), ProtocolError::Truncated);
    assert_eq!(Packet::decode_header(&[0, 0, 0, 0, 0]).unwrap_err(), ProtocolError::InvalidType(0));
    let too_big = (MAX_PAYLOAD_LEN as u32 + 1).to_le_bytes();
    let header = [3, too_big[0], too_big[1], too_big[2], too_big[3]];
    assert_eq!(
        Packet::decode_header(&header).unwrap_err(),
        ProtocolError::PayloadTooLarge(MAX_PAYLOAD_LEN + 1)
    );
    let max = (MAX_PAYLOAD_LEN as u32).to_le_bytes();
    let header = [3, max[0], max[1], max[2], max[3]];
    assert_eq!(Packet::decode_header(&header).unwrap(), (PacketType::Chunk, MAX_PAYLOAD_LEN as u32));
    assert_eq!(Packet::frame_remainder_len(&header).unwrap(), MAX_PAYLOAD_LEN as u32 + 4);
    assert_eq!(Packet::frame_remainder_len(&[9, 0, 0, 0, 0]).unwrap_err(), ProtocolError::InvalidType(9));
}

#[test]
fn from_bytes_errors() {
    assert_eq!(Packet::from_bytes(&[1, 0, 0, 0]).unwrap_err(), ProtocolError::Truncated);
    // Header announces 3 payload bytes but only the header and 4 more bytes are there.
    assert_eq!(Packet::from_bytes(&[1, 3, 0, 0, 0, 1, 2, 3, 4]).unwrap_err(), ProtocolError::Truncated);
    let mut bytes = Packet::hello().to_bytes();
    let n = bytes.len();
    bytes[n - 1] ^= 0x01;
    let actual = crc32(&bytes[..n - CRC_LEN]);
    let expected = u32::from_le_bytes([bytes[n - 4], bytes[n - 3], bytes[n - 2], bytes[n - 1]]);
    assert_eq!(Packet::from_bytes(&bytes).unwrap_err(), ProtocolError::CrcMismatch { expected, actual });
}

#[test]
fn malformed_payloads() {
    let empty_hello = Packet::new(PacketType::Hello, vec![]);
    assert_eq!(empty_hello.parse_hello().unwrap_err(), ProtocolError::MalformedPayload("HELLO vazio"));
    let short_meta = Packet::new(PacketType::Meta, vec![1]);
    assert_eq!(
        short_meta.parse_meta().unwrap_err(),
        ProtocolError::MalformedPayload("META menor que o cabecalho de nome")
    );
    let cut_meta = Packet::new(PacketType::Meta, vec![1, 0, b'a', 0, 0]);
    assert_eq!(cut_meta.parse_meta().unwrap_err(), ProtocolError::MalformedPayload("META truncado"));
    let mut bad_name = vec![1, 0, 0xFF];
    bad_name.extend_from_slice(&[0u8; 40]);
    assert_eq!(
        Packet::new(PacketType::Meta, bad_name).parse_meta().unwrap_err(),
        ProtocolError::MalformedPayload("nome de arquivo nao e UTF-8 valido")
    );
    assert_eq!(
        Packet::new(PacketType::Chunk, vec![1, 2, 3]).parse_chunk().unwrap_err(),
        ProtocolError::MalformedPayload("CHUNK menor que o indice")
    );
    assert_eq!(
        Packet::new(PacketType::Ack, vec![1, 2, 3]).parse_ack().unwrap_err(),
        ProtocolError::MalformedPayload("ACK menor que o indice")
    );
    assert_eq!(
        Packet::new(PacketType::Nack, vec![1, 2, 3, 4]).parse_nack().unwrap_err(),
        ProtocolError::MalformedPayload("NACK menor que indice+motivo")
    );
    assert_eq!(
        Packet::new(PacketType::Done, vec![]).parse_done().unwrap_err(),
        ProtocolError::MalformedPayload("DONE vazio")
    );
    assert!(Packet::new(PacketType::Done, vec![7]).parse_done().unwrap());
}

#[test]
fn wrong_type_for_each_parser() {
    let p = Packet::done(true);
    let unexpected = |expected| ProtocolError::UnexpectedType { expected, actual: PacketType::Done };
    assert_eq!(p.parse_hello().unwrap_err(), unexpected(PacketType::Hello));
    assert_eq!(p.parse_chunk().unwrap_err(), unexpected(PacketType::Chunk));
    assert_eq!(p.parse_ack().unwrap_err(), unexpected(PacketType::Ack));
    assert_eq!(p.parse_nack().unwrap_err(), unexpected(PacketType::Nack));
    assert_eq!(Packet::ack(0).parse_done().unwrap_err(), ProtocolError::UnexpectedType {
        expected: PacketType::Done,
        actual: PacketType::Ack,
    });
}

#[test]
fn meta_with_trailing_payload_bytes_and_empty_name() {
    let mut payload = Packet::meta("", 5, [3u8; 32]).payload;
    payload.extend_from_slice(b"extra");
    let meta = Packet::new(PacketType::Meta, payload).parse_meta().unwrap();
    assert_eq!(meta.file_name, "");
    assert_eq!(meta.file_size, 5);
    assert_eq!(meta.sha256, [3u8; 32]);
}

#[test]
fn every_single_byte_corruption_outside_the_length_is_refused() {
    let frame = Packet::chunk(3, b"payload bytes").to_bytes();
    for k in (0..frame.len()).filter(|k| *k == 0 || *k >= HEADER_LEN) {
        for flip in [0x01u8, 0x80, 0xFF] {
            let mut bad = frame.clone();
            bad[k] ^= flip;
            assert!(Packet::from_bytes(&bad).is_err(), "byte {k} flipped by {flip:#x} was accepted");
        }
    }
}

#[test]
fn error_descriptions() {
    let cases = [
        ProtocolError::Truncated,
        ProtocolError::InvalidType(0x09),
        ProtocolError::InvalidType(0xAB),
        ProtocolError::CrcMismatch { expected: 0xCBF4_3926, actual: 0x0000_00FF },
        ProtocolError::PayloadTooLarge(1_048_577),
        ProtocolError::PayloadTooLarge(0),
        ProtocolError::MalformedPayload("META truncado"),
        ProtocolError::UnexpectedType { expected: PacketType::Chunk, actual: PacketType::Ack },
    ];
    let expected = [
        "frame incompleto".to_string(),
        "tipo de pacote invalido: 0x09".to_string(),
        "tipo de pacote invalido: 0xab".to_string(),
        "crc32 invalido: esperado 0xcbf43926, recebido 0x000000ff".to_string(),
        "payload muito grande: 1048577 bytes".to_string(),
        "payload muito grande: 0 bytes".to_string(),
        "payload malformado: META truncado".to_string(),
        format!("esperava pacote {:?}, recebeu {:?}", PacketType::Chunk, PacketType::Ack),
    ];
    for (e, text) in cases.iter().zip(expected.iter()) {
        assert_eq!(&e.describe(), text);
    }
    for t in [PacketType::Hello, PacketType::Meta, PacketType::Nack, PacketType::Done] {
        assert_eq!(t.name(), format!("{:?}", t));
    }
}

#[test]
fn every_error_within_four_consecutive_bytes_changes_the_crc() {
    let data: Vec<u8> = (0u8..40).map(|i| i.wrapping_mul(37).wrapping_add(11)).collect();
    let base = crc32(&data);
    let patterns: [[u8; 4]; 5] =
        [[1, 0, 0, 0], [0, 0, 0, 0x80], [0xFF, 0xFF, 0xFF, 0xFF], [0x12, 0, 0x34, 0], [0, 0xA5, 0x5A, 0]];
    for start in 0..data.len() {
        for pattern in patterns.iter() {
            let mut bad = data.clone();
            let mut changed = false;
            for (k, flip) in pattern.iter().enumerate() {
                if start + k < bad.len() && *flip != 0 {
                    bad[start + k] ^= flip;
                    changed = true;
                }
            }
            if changed {
                assert_ne!(crc32(&bad), base, "window at {start} with {pattern:?} went undetected");
            }
        }
    }
}
