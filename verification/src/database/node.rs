//! Shared, immutable trie nodes.
use std::sync::Arc;
use vstd::prelude::*;

use crate::database::nibble::Nibble;
use vstd::slice::slice_to_vec;

verus! {

/// A trie node; the non-empty kinds are shared behind reference counts.
pub enum Node {
    Empty,
    Extension(Arc<ExtensionNode>),
    Branch(Arc<BranchNode>),
    Leaf(Arc<LeafNode>),
}

/// One child per nibble, and the value of a key that ends here.
pub struct BranchNode {
    children: [Node; 16],
    value: Option<u128>,
}

/// A full key of 64 nibbles and its value.
pub struct LeafNode {
    key: [Nibble; 64],
    value: u128,
}

/// A run of nibbles shared by every key below `child`.
pub struct ExtensionNode {
    nibbles: Vec<Nibble>,
    child: Node,
}

impl BranchNode {
    /// The children, one per nibble.
    pub closed spec fn spec_children(self) -> Seq<Node> {
        self.children@
    }

    /// The value of the key that ends at this branch.
    pub closed spec fn spec_value(self) -> Option<u128> {
        self.value
    }
}

/// Every branch has 16 children, one per nibble.
pub proof fn lemma_branch_width(b: BranchNode)
    ensures
        b.spec_children().len() == 16,
{
}

impl LeafNode {
    /// The 64 nibbles of the key.
    pub closed spec fn spec_key(self) -> Seq<Nibble> {
        self.key@
    }

    /// The value stored under the key.
    pub closed spec fn spec_value(self) -> u128 {
        self.value
    }
}

impl ExtensionNode {
    /// The shared nibbles.
    pub closed spec fn spec_nibbles(self) -> Seq<Nibble> {
        self.nibbles@
    }

    /// The node below the shared nibbles.
    pub closed spec fn spec_child(self) -> Node {
        self.child
    }
}

impl Node {
    /// A leaf holding `value` under `key`.
    pub fn from_leaf(key: [Nibble; 64], value: u128) -> (r: Self)
        ensures
            r matches Node::Leaf(l) && l.spec_key() == key@ && l.spec_value() == value,
    {
        let leaf = Arc::new(LeafNode { key: key, value: value });
        Node::Leaf(leaf)
    }

    /// A branch with the given children and value.
    pub fn from_branch(children: [Node; 16], value: Option<u128>) -> (r: Self)
        ensures
            r matches Node::Branch(b) && b.spec_children() == children@
                && b.spec_children().len() == 16 && b.spec_value() == value,
    {
        let branch = Arc::new(BranchNode { children: children, value: value });
        Node::Branch(branch)
    }

    /// An extension over a copy of `nibbles` leading to `child`.
    pub fn from_extendsion(nibbles: &[Nibble], child: Node) -> (r: Self)
        ensures
            r matches Node::Extension(e) && e.spec_nibbles() == nibbles@ && e.spec_child()
                == child,
    {
        let extension = Arc::new(ExtensionNode { nibbles: slice_to_vec(nibbles), child });
        Node::Extension(extension)
    }
}

impl BranchNode {
    /// Puts `n` under nibble `i`; slot 16 is the branch's own value, which
    /// takes the value of the leaf `n`. Other slots stay as they were.
    pub fn insert(&mut self, i: usize, n: Node)
        requires
            i <= 16,
            i == 16 ==> n is Leaf,
        ensures
            final(self).spec_children().len() == 16,
            i < 16 ==> final(self).spec_children() == old(self).spec_children().update(i as int, n)
                && final(self).spec_children()[i as int] == n && final(self).spec_value() == old(
                self,
            ).spec_value(),
            i == 16 ==> final(self).spec_children() == old(self).spec_children() && (
            n matches Node::Leaf(l) && final(self).spec_value() == Some(l.spec_value())),
    {
        if i == 16 {
            match n {
                Node::Leaf(leaf) => {
                    self.value = Some(leaf.value);
                },
                _ => {},
            }
        } else {
            self.children[i] = n;
        }
    }
}

/// Sixteen empty children, for a fresh branch.
pub fn empty_children() -> (r: [Node; 16])
    ensures
        forall|i: int| 0 <= i < 16 ==> #[trigger] r@[i] is Empty,
{
    [
        Node::Empty,
        Node::Empty,
        Node::Empty,
        Node::Empty,
        Node::Empty,
        Node::Empty,
        Node::Empty,
        Node::Empty,
        Node::Empty,
        Node::Empty,
        Node::Empty,
        Node::Empty,
        Node::Empty,
        Node::Empty,
        Node::Empty,
        Node::Empty,
    ]
}

} // verus!
