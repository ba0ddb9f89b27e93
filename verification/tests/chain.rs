use pyroxene::block::block::{Block, BlockHeader, COINBASE_REWARD};
use pyroxene::block::transaction::Transaction;
use pyroxene::network::protocol::ProtocolPacket;
use pyroxene::network::{classify_datagram, Datagram, UdpBroadcast, PORT};
use pyroxene::verify::{hash_block, verify_chain_link};

fn block_at(height: u64) -> Block {
    Block {
        block_header: BlockHeader {
            prev_hash: [0u8; 32],
            height,
            nonce: 0,
            merkle_root: [0u8; 32],
            difficulty_bits: 1.0f32.to_bits(),
            timestamp: 1000,
        },
        txs: vec![],
    }
}

#[test]
fn new_node_targets_broadcast_address() {
    let node = UdpBroadcast::new();
    assert_eq!(node.bind_port, PORT);
    assert_eq!(node.target_ip, [255, 255, 255, 255]);
    assert_eq!(node.target_port, 1200);
    assert!(node.chain.is_empty());
    let other = UdpBroadcast::with_port(1201, 1300);
    assert_eq!(other.bind_port, 1300);
    assert_eq!(other.target_port, 1201);
    assert!(other.is_self([255, 255, 255, 255], 1201));
    assert!(!other.is_self([255, 255, 255, 255], 1300));
    assert!(!other.is_self([192, 168, 0, 1], 1201));
}

#[test]
fn accept_only_next_height() {
    let mut node = UdpBroadcast::new();
    assert!(!node.accept_block(block_at(1)));
    assert!(node.accept_block(block_at(0)));
    assert!(!node.accept_block(block_at(0)));
    assert!(node.accept_block(block_at(1)));
    assert_eq!(node.chain.len(), 2);
    for (i, b) in node.chain.iter().enumerate() {
        assert_eq!(b.block_header.height, i as u64);
    }
}

#[test]
fn known_blocks_are_not_rebroadcast() {
    let mut node = UdpBroadcast::new();
    assert!(!node.is_known(&block_at(0)));
    assert!(node.receive_and_rebroadcast(block_at(0)));
    assert!(node.is_known(&block_at(0)));
    assert!(!node.receive_and_rebroadcast(block_at(0)));
    assert_eq!(node.chain.len(), 1);
    node.mark_known(block_at(1));
    assert!(node.is_known(&block_at(1)));
}

#[test]
fn announcing_appends_and_frames() {
    let mut node = UdpBroadcast::new();
    let encoded = vec![9u8, 8, 7];
    let bytes = node.announce_block(block_at(0), encoded.clone());
    assert_eq!(node.chain.len(), 1);
    assert_eq!(bytes, vec![1, 0, 0, 0, 0, 9, 8, 7]);
}

#[test]
fn datagrams_are_sorted() {
    let nb = ProtocolPacket::new_block([1, 2, 3, 4], vec![5, 6]).to_bytes();
    match classify_datagram(&nb) {
        Datagram::NewBlock(b) => assert_eq!(b, vec![5, 6]),
        _ => panic!("expected a new block"),
    }
    let req = ProtocolPacket::chain_length_request([1, 2, 3, 4]).to_bytes();
    assert!(matches!(classify_datagram(&req), Datagram::OtherPacket(2)));
    assert!(matches!(classify_datagram(&[0x42, 1]), Datagram::Unframed));
}

#[test]
fn coinbase_pays_reward() {
    let mut block = block_at(3);
    block.coinbase([7u8; 32]);
    assert_eq!(block.txs.len(), 1);
    assert_eq!(block.txs[0].to, [7u8; 32]);
    assert_eq!(block.txs[0].from, [0u8; 32]);
    assert_eq!(block.txs[0].value, COINBASE_REWARD);
    assert_eq!(block.txs[0].value, 120);
    assert_eq!(block.txs[0].nonce, 0);
}

#[test]
fn transaction_new_sets_fields() {
    let tx = Transaction::new([1u8; 32], [2u8; 32], 100);
    assert_eq!(tx.to, [1u8; 32]);
    assert_eq!(tx.from, [2u8; 32]);
    assert_eq!(tx.value, 100);
    assert_eq!(tx.nonce, 0);
    assert!(tx.timestamp > 1_600_000_000);
}

#[test]
fn sha256_of_known_input() {
    let h = hash_block(b"abc");
    let expected: [u8; 32] = [
        0xba, 0x78, 0x16, 0xbf, 0x8f, 0x01, 0xcf, 0xea, 0x41, 0x41, 0x40, 0xde, 0x5d, 0xae, 0x22, 0x23,
        0xb0, 0x03, 0x61, 0xa3, 0x96, 0x17, 0x7a, 0x9c, 0xb4, 0x10, 0xff, 0x61, 0xf2, 0x00, 0x15, 0xad,
    ];
    assert_eq!(h, expected);
}

#[test]
fn chain_link_checks_previous_hash() {
    let tip = vec![1u8, 2, 3, 4];
    let mut received = block_at(1);
    assert!(!verify_chain_link(&received, &tip));
    received.block_header.prev_hash = hash_block(&tip);
    assert!(verify_chain_link(&received, &tip));
}

#[test]
fn transaction_with_timestamp() {
    let tx = Transaction::with_timestamp([1u8; 32], [2u8; 32], 5, 1234);
    assert_eq!(tx, Transaction { to: [1u8; 32], from: [2u8; 32], value: 5, nonce: 0, timestamp: 1234 });
}

#[test]
fn headers_compare_difficulty_as_a_value() {
    let mut a = block_at(1).block_header;
    let mut b = a;
    assert_eq!(a, b);
    a.difficulty_bits = 0.0f32.to_bits();
    b.difficulty_bits = (-0.0f32).to_bits();
    assert_eq!(a, b);
    a.difficulty_bits = f32::NAN.to_bits();
    b.difficulty_bits = f32::NAN.to_bits();
    assert_ne!(a, b);
    a.difficulty_bits = 2.0f32.to_bits();
    b.difficulty_bits = 2.0f32.to_bits();
    b.nonce = 9;
    assert_ne!(a, b);
}
