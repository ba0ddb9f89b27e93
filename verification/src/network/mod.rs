//! What a broadcasting node decides: where it listens and sends, which
//! blocks it already holds, which received blocks extend its chain, and what
//! a received datagram carries. The socket itself belongs to the caller.
pub mod layout;
pub mod protocol;

use vstd::prelude::*;

use crate::block::block::Block;
use crate::network::protocol::{
    encode_packet, parse_packet, type_id, PacketType, PacketView, ProtocolPacket,
    ProtocolPacketView,
};

verus! {

/// The port that nodes listen and broadcast on by default.
pub const PORT: u16 = 1200;

/// Every block's height is its position in the chain.
pub open spec fn heights_match(chain: Seq<Block>) -> bool {
    forall|i: int| 0 <= i < chain.len() ==> #[trigger] chain[i].block_header.height == i
}

/// The state of a broadcasting node: the port it listens on (on every
/// interface), the broadcast address it sends to, and its chain.
pub struct UdpBroadcast {
    pub bind_port: u16,
    pub target_ip: [u8; 4],
    pub target_port: u16,
    pub chain: Vec<Block>,
}

impl UdpBroadcast {
    /// A node that listens and broadcasts on [`PORT`], with an empty chain.
    pub fn new() -> (r: Self)
        ensures
            r.bind_port == PORT,
            r.target_ip@ == seq![255u8, 255u8, 255u8, 255u8],
            r.target_port == PORT,
            r.chain@.len() == 0,
    {
        Self::with_port(PORT, PORT)
    }

    /// A node that broadcasts to 255.255.255.255 on port `send` and listens
    /// on port `receive`, with an empty chain.
    pub fn with_port(send: u16, receive: u16) -> (r: Self)
        ensures
            r.bind_port == receive,
            r.target_ip@ == seq![255u8, 255u8, 255u8, 255u8],
            r.target_port == send,
            r.chain@.len() == 0,
    {
        let r = UdpBroadcast {
            bind_port: receive,
            target_ip: [255u8, 255u8, 255u8, 255u8],
            target_port: send,
            chain: Vec::new(),
        };
        assert(r.target_ip@ =~= seq![255u8, 255u8, 255u8, 255u8]);
        r
    }

    /// Whether a datagram's source is the node's own broadcast address.
    pub fn is_self(&self, ip: [u8; 4], port: u16) -> (r: bool)
        ensures
            r == (ip@ == self.target_ip@ && port == self.target_port),
    {
        let same_ip = ip[0] == self.target_ip[0] && ip[1] == self.target_ip[1] && ip[2]
            == self.target_ip[2] && ip[3] == self.target_ip[3];
        if same_ip {
            assert(ip@ =~= self.target_ip@);
        }
        same_ip && port == self.target_port
    }

    /// Whether the chain already has a block at `block`'s height.
    pub fn is_known(&self, block: &Block) -> (r: bool)
        ensures
            r == (block.block_header.height < self.chain@.len()),
    {
        block.block_header.height < self.chain.len() as u64
    }

    /// Appends `block` to the chain.
    pub fn mark_known(&mut self, block: Block)
        ensures
            final(self).chain@ == old(self).chain@.push(block),
            final(self).bind_port == old(self).bind_port,
            final(self).target_ip == old(self).target_ip,
            final(self).target_port == old(self).target_port,
    {
        self.chain.push(block);
    }

    /// A block read from a datagram: if the chain has none at its height,
    /// it is appended and the datagram is to be sent on (`true`); otherwise
    /// nothing changes (`false`).
    pub fn receive_and_rebroadcast(&mut self, block: Block) -> (r: bool)
        ensures
            r == !(block.block_header.height < old(self).chain@.len()),
            r ==> final(self).chain@ == old(self).chain@.push(block),
            !r ==> final(self).chain@ == old(self).chain@,
            final(self).bind_port == old(self).bind_port,
            final(self).target_ip == old(self).target_ip,
            final(self).target_port == old(self).target_port,
    {
        if self.is_known(&block) {
            return false;
        }
        self.mark_known(block);
        true
    }

    /// A block mined here: appends it to the chain and returns the packet
    /// that announces it, sent from 0.0.0.0 with the block's archived bytes.
    pub fn announce_block(&mut self, block: Block, encoded: Vec<u8>) -> (r: Vec<u8>)
        ensures
            final(self).chain@ == old(self).chain@.push(block),
            final(self).bind_port == old(self).bind_port,
            final(self).target_ip == old(self).target_ip,
            final(self).target_port == old(self).target_port,
            r@ == encode_packet(
                ProtocolPacketView {
                    sender_ip: seq![0u8, 0u8, 0u8, 0u8],
                    payload: PacketView::NewBlock { block: encoded@ },
                },
            ),
    {
        let packet = ProtocolPacket {
            sender_ip: [0u8, 0u8, 0u8, 0u8],
            payload: PacketType::NewBlock { block: encoded },
        };
        assert(packet.sender_ip@ =~= seq![0u8, 0u8, 0u8, 0u8]);
        let bytes = packet.to_bytes();
        self.chain.push(block);
        bytes
    }

    /// A block received from a peer: appended, and `true` returned, exactly
    /// when its height is the chain's length. Appending this way keeps every
    /// block's height equal to its position.
    pub fn accept_block(&mut self, block: Block) -> (r: bool)
        ensures
            r == (block.block_header.height == old(self).chain@.len()),
            r ==> final(self).chain@ == old(self).chain@.push(block),
            !r ==> final(self).chain@ == old(self).chain@,
            heights_match(old(self).chain@) ==> heights_match(final(self).chain@),
            final(self).bind_port == old(self).bind_port,
            final(self).target_ip == old(self).target_ip,
            final(self).target_port == old(self).target_port,
    {
        if self.chain.len() as u64 == block.block_header.height {
            self.chain.push(block);
            true
        } else {
            false
        }
    }
}

/// What a received datagram carries.
pub enum Datagram {
    /// A new-block packet, with the block's archived bytes.
    NewBlock(Vec<u8>),
    /// A well-formed packet of another type, with its type byte.
    OtherPacket(u8),
    /// Bytes that are not a packet; they may be a bare archived block.
    Unframed,
}

/// Sorts a received datagram by what it carries.
pub fn classify_datagram(data: &[u8]) -> (r: Datagram)
    ensures
        match parse_packet(data@) {
            Ok(v) => match v.payload {
                PacketView::NewBlock { block } => r matches Datagram::NewBlock(b) && b@ == block,
                _ => r == Datagram::OtherPacket(type_id(v.payload)),
            },
            Err(_) => r is Unframed,
        },
{
    match ProtocolPacket::from_bytes(data) {
        Ok(packet) => {
            let id = packet.packet_type_id();
            match packet.payload {
                PacketType::NewBlock { block } => Datagram::NewBlock(block),
                _ => Datagram::OtherPacket(id),
            }
        },
        Err(_) => Datagram::Unframed,
    }
}

/// Law: a received block whose height is the chain's length is sent on
/// once. It is not known before it is taken in, and it is known after, so
/// the same datagram received again is not sent again.
pub proof fn lemma_rebroadcast_once(chain: Seq<Block>, block: Block)
    requires
        block.block_header.height == chain.len(),
    ensures
        !(block.block_header.height < chain.len()),
        block.block_header.height < chain.push(block).len(),
{
}

} // verus!
