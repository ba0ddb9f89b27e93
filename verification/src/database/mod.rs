//! Building blocks of the state trie: nibbles and trie nodes.
pub mod nibble;
pub mod node;
pub mod trie;
