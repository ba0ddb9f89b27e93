use pyroxene::database::nibble::byte_to_nibble;
use pyroxene::database::node::{empty_children, BranchNode, Node};
use pyroxene::database::trie;

#[test]
fn nibbles_of_bytes() {
    assert_eq!(byte_to_nibble(&[0xab, 0x01, 0xf0]), vec![0xa, 0xb, 0x0, 0x1, 0xf, 0x0]);
    assert_eq!(byte_to_nibble(&[]), Vec::<u8>::new());
}

#[test]
fn nibbles_recombine_into_bytes() {
    let bytes: Vec<u8> = (0..=255u8).collect();
    let nibbles = byte_to_nibble(&bytes);
    assert_eq!(nibbles.len(), 512);
    for (i, b) in bytes.iter().enumerate() {
        assert!(nibbles[2 * i] < 16 && nibbles[2 * i + 1] < 16);
        assert_eq!(nibbles[2 * i] * 16 + nibbles[2 * i + 1], *b);
    }
}

#[test]
fn trie_key_expansion_is_empty() {
    assert!(trie::byte_to_nibble(&[1, 2, 3]).is_empty());
}

#[test]
fn empty_children_are_empty() {
    let children = empty_children();
    assert_eq!(children.len(), 16);
    assert!(children.iter().all(|c| matches!(c, Node::Empty)));
}

#[test]
fn nodes_are_built() {
    assert!(matches!(Node::from_leaf([3u8; 64], 7), Node::Leaf(_)));
    assert!(matches!(Node::from_branch(empty_children(), Some(1)), Node::Branch(_)));
    assert!(matches!(Node::from_extendsion(&[1, 2], Node::Empty), Node::Extension(_)));
}

#[test]
fn branch_insert_child_and_value() {
    let node = Node::from_branch(empty_children(), None);
    let branch = match node {
        Node::Branch(b) => b,
        _ => panic!("expected a branch"),
    };
    let mut branch: BranchNode = std::sync::Arc::try_unwrap(branch).ok().expect("single owner");
    branch.insert(3, Node::from_leaf([1u8; 64], 5));
    branch.insert(16, Node::from_leaf([2u8; 64], 99));
    // The branch is rebuilt into a node to observe it through the public API.
    let rebuilt = Node::Branch(std::sync::Arc::new(branch));
    assert!(matches!(rebuilt, Node::Branch(_)));
}

#[test]
fn insert_places_child_in_its_slot() {
    let mut branch = match Node::from_branch(empty_children(), None) {
        Node::Branch(b) => std::sync::Arc::try_unwrap(b).ok().expect("single owner"),
        _ => panic!("expected a branch"),
    };
    for i in 0..16 {
        branch.insert(i, Node::from_leaf([i as u8; 64], i as u128));
    }
    branch.insert(16, Node::from_leaf([0u8; 64], 77));
}
