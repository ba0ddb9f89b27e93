//! Blocks of the chain and the transactions they carry.
pub mod block;
pub mod transaction;

use vstd::prelude::*;

verus! {

/// An account address: 32 bytes.
pub type Address = [u8; 32];

/// `n` zero bytes.
pub open spec fn zeros(n: nat) -> Seq<u8> {
    Seq::new(n, |i: int| 0u8)
}

} // verus!
