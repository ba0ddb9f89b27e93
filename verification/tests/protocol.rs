use pyroxene::network::protocol::{PacketType, ProtocolError, ProtocolPacket};
use rkyv::rancor::Source;

fn some_block_bytes(len: usize, seed: u8) -> Vec<u8> {
    (0..len).map(|i| (i as u8).wrapping_mul(31).wrapping_add(seed)).collect()
}

#[test]
fn test_size() {
    let packet1 = ProtocolPacket {
        sender_ip: [0, 0, 0, 0],
        payload: PacketType::ChainLengthRequest,
    };

    let packet2 = ProtocolPacket {
        sender_ip: [0, 0, 0, 0],
        payload: PacketType::BlockRangeRequest {
            start_height: 0,
            end_height: 0,
        },
    };

    let bytes1 = packet1.to_bytes();
    let bytes2 = packet2.to_bytes();

    assert_ne!(bytes1.len(), bytes2.len())
}

#[test]
fn test_chain_length_req() {
    let packet = ProtocolPacket::chain_length_request([10, 0, 0, 1]);

    let bytes = packet.to_bytes();
    let deserialized = ProtocolPacket::from_bytes(&bytes).unwrap();

    assert_eq!(deserialized.packet_type_id(), 0x02);
    assert!(deserialized.is_broadcast());
    assert!(!deserialized.is_response());
}

#[test]
fn test_block_range_req() {
    let packet = ProtocolPacket::block_range_request([172, 16, 0, 1], 10, 20);

    let bytes = packet.to_bytes();
    let deserialized = ProtocolPacket::from_bytes(&bytes).unwrap();

    assert_eq!(deserialized.packet_type_id(), 0x03);

    match deserialized.payload {
        PacketType::BlockRangeRequest {
            start_height,
            end_height,
        } => {
            assert_eq!(start_height, 10);
            assert_eq!(end_height, 20);
        }
        _ => panic!("Expected BlockRangeRequest"),
    }
}

#[test]
fn test_chain_length_response() {
    let packet = ProtocolPacket::chain_length_response([10, 0, 0, 1], 42);

    let bytes = packet.to_bytes();
    let deserialized = ProtocolPacket::from_bytes(&bytes).unwrap();

    assert_eq!(deserialized.packet_type_id(), 0x04);
    assert!(deserialized.is_response());
    assert!(!deserialized.is_broadcast());

    match deserialized.payload {
        PacketType::ChainLengthResponse { chain_length } => {
            assert_eq!(chain_length, 42);
        }
        _ => panic!("Expected ChainLengthResponse"),
    }
}

#[test]
fn test_byte_layout() {
    let ip = [192, 168, 1, 100];

    let packets: Vec<(ProtocolPacket, u8)> = vec![
        (ProtocolPacket::new_block(ip, some_block_bytes(80, 0)), 0x01),
        (ProtocolPacket::chain_length_request(ip), 0x02),
        (ProtocolPacket::block_range_request(ip, 0, 10), 0x03),
        (ProtocolPacket::chain_length_response(ip, 100), 0x04),
        (ProtocolPacket::block_range_response(ip, vec![]), 0x05),
    ];

    for (packet, expected_id) in &packets {
        let bytes = packet.to_bytes();

        assert_eq!(bytes[0], *expected_id);

        assert_eq!(&bytes[1..5], &[192, 168, 1, 100]);
    }
}

#[test]
fn new_block_roundtrip_keeps_block_bytes() {
    let block = some_block_bytes(120, 7);
    let packet = ProtocolPacket::new_block([192, 168, 1, 100], block.clone());
    let bytes = packet.to_bytes();
    assert_eq!(bytes.len(), 5 + 120);
    let back = ProtocolPacket::from_bytes(&bytes).unwrap();
    assert_eq!(back, packet);
    assert_eq!(back.sender(), [192, 168, 1, 100]);
    assert_eq!(back.packet_type_id(), 0x01);
    assert!(back.is_broadcast());
    match back.payload {
        PacketType::NewBlock { block: b } => assert_eq!(b, block),
        _ => panic!("Expected NewBlock packet type"),
    }
}

#[test]
fn block_range_response_roundtrip_keeps_each_block() {
    let b1 = some_block_bytes(40, 1);
    let b2 = some_block_bytes(0, 2);
    let b3 = some_block_bytes(300, 3);
    let packet = ProtocolPacket::block_range_response([172, 16, 0, 1], vec![b1.clone(), b2.clone(), b3.clone()]);
    let bytes = packet.to_bytes();
    // header, count, then a 4-byte length before each block
    assert_eq!(bytes.len(), 5 + 4 + (4 + 40) + (4 + 0) + (4 + 300));
    assert_eq!(&bytes[5..9], &[3, 0, 0, 0]);
    assert_eq!(&bytes[9..13], &[40, 0, 0, 0]);
    let back = ProtocolPacket::from_bytes(&bytes).unwrap();
    assert_eq!(back.packet_type_id(), 0x05);
    assert!(back.is_response());
    match back.payload {
        PacketType::BlockRangeResponse { blocks } => {
            assert_eq!(blocks.len(), 3);
            assert_eq!(blocks[0], b1);
            assert_eq!(blocks[1], b2);
            assert_eq!(blocks[2], b3);
        }
        _ => panic!("Expected BlockRangeResponse"),
    }
}

#[test]
fn fixed_packet_sizes() {
    let ip = [192, 168, 1, 1];
    let chain_len_req = ProtocolPacket::chain_length_request(ip).to_bytes();
    let block_range_req = ProtocolPacket::block_range_request(ip, 0, 100).to_bytes();
    let chain_len_resp = ProtocolPacket::chain_length_response(ip, 7).to_bytes();
    let empty_range_resp = ProtocolPacket::block_range_response(ip, vec![]).to_bytes();
    assert_eq!(chain_len_req.len(), 5);
    assert_eq!(block_range_req.len(), 21);
    assert_eq!(chain_len_resp.len(), 13);
    assert_eq!(empty_range_resp.len(), 9);
    assert_eq!(ProtocolPacket::from_bytes(&chain_len_req).unwrap(), ProtocolPacket::chain_length_request(ip));
    assert_eq!(ProtocolPacket::from_bytes(&block_range_req).unwrap(), ProtocolPacket::block_range_request(ip, 0, 100));
}

#[test]
fn little_endian_integers() {
    let bytes = ProtocolPacket::chain_length_response([1, 2, 3, 4], 0x0102_0304_0506_0708).to_bytes();
    assert_eq!(bytes, vec![4, 1, 2, 3, 4, 8, 7, 6, 5, 4, 3, 2, 1]);
    let bytes = ProtocolPacket::block_range_request([0, 0, 0, 0], 1, u64::MAX).to_bytes();
    assert_eq!(&bytes[5..13], &[1, 0, 0, 0, 0, 0, 0, 0]);
    assert_eq!(&bytes[13..21], &[255; 8]);
}

#[test]
fn all_fixed_sizes_differ() {
    let ip = [0, 0, 0, 0];
    let sizes: Vec<usize> = vec![
        ProtocolPacket::new_block(ip, some_block_bytes(64, 0)).to_bytes().len(),
        ProtocolPacket::chain_length_request(ip).to_bytes().len(),
        ProtocolPacket::block_range_request(ip, 0, 0).to_bytes().len(),
        ProtocolPacket::chain_length_response(ip, 0).to_bytes().len(),
        ProtocolPacket::block_range_response(ip, vec![]).to_bytes().len(),
    ];
    for i in 0..sizes.len() {
        for j in (i + 1)..sizes.len() {
            assert_ne!(sizes[i], sizes[j], "packet {} and {} have the same byte length: {}", i, j, sizes[i]);
        }
    }
}

#[test]
fn too_short_packet() {
    match ProtocolPacket::from_bytes(&[2, 1, 2, 3]) {
        Err(ProtocolError::PacketTooShort { expected, actual }) => {
            assert_eq!(expected, 5);
            assert_eq!(actual, 4);
        }
        other => panic!("unexpected {:?}", other),
    }
}

#[test]
fn unknown_packet_id() {
    match ProtocolPacket::from_bytes(&[9, 1, 2, 3, 4]) {
        Err(ProtocolError::UnknownPacketId(id)) => assert_eq!(id, 9),
        other => panic!("unexpected {:?}", other),
    }
}

#[test]
fn short_payloads() {
    let cases: Vec<(Vec<u8>, &str, usize, usize)> = vec![
        (vec![3, 0, 0, 0, 0, 1, 2, 3], "BlockRangeRequest", 16, 3),
        (vec![4, 0, 0, 0, 0, 1, 2, 3, 4, 5, 6, 7], "ChainLengthResponse", 8, 7),
        (vec![5, 0, 0, 0, 0, 1, 0], "BlockRangeResponse", 4, 2),
        (vec![5, 0, 0, 0, 0, 1, 0, 0, 0, 2, 0], "BlockRangeResponse block length", 8, 6),
        (vec![5, 0, 0, 0, 0, 1, 0, 0, 0, 3, 0, 0, 0, 9, 9], "BlockRangeResponse block data", 11, 10),
    ];
    for (data, name, exp, act) in cases {
        match ProtocolPacket::from_bytes(&data) {
            Err(ProtocolError::PayloadTooShort { packet_type, expected, actual }) => {
                assert_eq!(packet_type, name);
                assert_eq!(expected, exp);
                assert_eq!(actual, act);
            }
            other => panic!("unexpected {:?}", other),
        }
    }
}

#[test]
fn trailing_bytes_are_ignored() {
    let mut bytes = ProtocolPacket::chain_length_response([5, 6, 7, 8], 3).to_bytes();
    bytes.extend_from_slice(&[0xaa, 0xbb]);
    assert_eq!(ProtocolPacket::from_bytes(&bytes).unwrap(), ProtocolPacket::chain_length_response([5, 6, 7, 8], 3));
}

#[test]
fn archive_error_converts() {
    let e: ProtocolError = rkyv::rancor::Error::new(std::fmt::Error).into();
    assert!(matches!(e, ProtocolError::RkyvError(_)));
}

#[test]
fn error_messages() {
    let e = ProtocolPacket::from_bytes(&[2, 1, 2, 3]).unwrap_err();
    assert_eq!(e.to_string(), "Packet too short: expected at least 5 bytes, got 4");
    let e = ProtocolPacket::from_bytes(&[0xab, 1, 2, 3, 4]).unwrap_err();
    assert_eq!(e.to_string(), "Unknown packet ID: 0xab");
    let e = ProtocolPacket::from_bytes(&[9, 1, 2, 3, 4]).unwrap_err();
    assert_eq!(e.to_string(), "Unknown packet ID: 0x09");
    let e = ProtocolPacket::from_bytes(&[3, 0, 0, 0, 0, 1, 2, 3]).unwrap_err();
    assert_eq!(e.to_string(), "BlockRangeRequest: expected 16 bytes, got 3");
    let e = ProtocolError::PacketTooShort { expected: 1234567890, actual: 0 };
    assert_eq!(e.to_string(), "Packet too short: expected at least 1234567890 bytes, got 0");
    let e: ProtocolError = rkyv::rancor::Error::new(std::fmt::Error).into();
    assert!(e.to_string().starts_with("rkyv error: "));
}
