//! Wire format of the peer-to-peer protocol.
//!
//! A packet is one type byte, the four octets of the sender's IPv4 address,
//! then a payload whose layout depends on the type. Integers are little
//! endian. Blocks travel as their archived encoding, which this module frames
//! and checks for length but does not interpret.
use vstd::prelude::*;
use vstd::slice::{slice_subrange, slice_to_vec};
use vstd::string::StringExecFns;

verus! {

broadcast use vstd::seq_lib::group_seq_properties;

/// The error type of the archive format that blocks are encoded with.
#[verifier::external_type_specification]
#[verifier::external_body]
pub struct ExArchiveError(rkyv::rancor::Error);

/// Why a byte string is not a packet.
#[derive(Debug)]
pub enum ProtocolError {
    PacketTooShort { expected: usize, actual: usize },
    UnknownPacketId(u8),
    PayloadTooShort { packet_type: &'static str, expected: usize, actual: usize },
    /// A block's archived encoding could not be written or read.
    RkyvError(rkyv::rancor::Error),
}

impl From<rkyv::rancor::Error> for ProtocolError {
    fn from(e: rkyv::rancor::Error) -> (r: Self) {
        ProtocolError::RkyvError(e)
    }
}

impl vstd::std_specs::convert::FromSpecImpl<rkyv::rancor::Error> for ProtocolError {
    open spec fn obeys_from_spec() -> bool {
        true
    }

    open spec fn from_spec(e: rkyv::rancor::Error) -> ProtocolError {
        ProtocolError::RkyvError(e)
    }
}

/// The payload of a packet. Blocks are carried as their archived bytes.
#[derive(Debug, Clone, PartialEq)]
pub enum PacketType {
    NewBlock { block: Vec<u8> },
    ChainLengthRequest,
    BlockRangeRequest { start_height: u64, end_height: u64 },
    ChainLengthResponse { chain_length: u64 },
    BlockRangeResponse { blocks: Vec<Vec<u8>> },
}

/// A packet as sent on the wire: who sent it, and what it carries.
#[derive(Debug, Clone, PartialEq)]
pub struct ProtocolPacket {
    pub sender_ip: [u8; 4],
    pub payload: PacketType,
}

// ---------------------------------------------------------------------------
// Mathematical model
// ---------------------------------------------------------------------------
/// The payload as mathematical values.
pub enum PacketView {
    NewBlock { block: Seq<u8> },
    ChainLengthRequest,
    BlockRangeRequest { start_height: u64, end_height: u64 },
    ChainLengthResponse { chain_length: u64 },
    BlockRangeResponse { blocks: Seq<Seq<u8>> },
}

/// A packet as mathematical values.
pub struct ProtocolPacketView {
    pub sender_ip: Seq<u8>,
    pub payload: PacketView,
}

impl View for PacketType {
    type V = PacketView;

    open spec fn view(&self) -> PacketView {
        match self {
            PacketType::NewBlock { block } => PacketView::NewBlock { block: block@ },
            PacketType::ChainLengthRequest => PacketView::ChainLengthRequest,
            PacketType::BlockRangeRequest { start_height, end_height } => PacketView::BlockRangeRequest {
                start_height: *start_height,
                end_height: *end_height,
            },
            PacketType::ChainLengthResponse { chain_length } => PacketView::ChainLengthResponse {
                chain_length: *chain_length,
            },
            PacketType::BlockRangeResponse { blocks } => PacketView::BlockRangeResponse {
                blocks: blocks_view(blocks@),
            },
        }
    }
}

impl View for ProtocolPacket {
    type V = ProtocolPacketView;

    open spec fn view(&self) -> ProtocolPacketView {
        ProtocolPacketView { sender_ip: self.sender_ip@, payload: self.payload@ }
    }
}

/// The contents of a list of encoded blocks.
pub open spec fn blocks_view(blocks: Seq<Vec<u8>>) -> Seq<Seq<u8>> {
    blocks.map_values(|b: Vec<u8>| b@)
}

/// Little-endian bytes of a 32-bit integer.
pub open spec fn le_u32(v: u32) -> Seq<u8> {
    seq![v as u8, (v >> 8u32) as u8, (v >> 16u32) as u8, (v >> 24u32) as u8]
}

/// Little-endian bytes of a 64-bit integer.
pub open spec fn le_u64(v: u64) -> Seq<u8> {
    seq![
        v as u8,
        (v >> 8u64) as u8,
        (v >> 16u64) as u8,
        (v >> 24u64) as u8,
        (v >> 32u64) as u8,
        (v >> 40u64) as u8,
        (v >> 48u64) as u8,
        (v >> 56u64) as u8,
    ]
}

/// The 32-bit integer whose little-endian bytes start `s`.
pub open spec fn u32_from_le(s: Seq<u8>) -> u32 {
    (s[0] as u32) | ((s[1] as u32) << 8u32) | ((s[2] as u32) << 16u32) | ((s[3] as u32) << 24u32)
}

/// The 64-bit integer whose little-endian bytes start `s`.
pub open spec fn u64_from_le(s: Seq<u8>) -> u64 {
    (s[0] as u64) | ((s[1] as u64) << 8u64) | ((s[2] as u64) << 16u64) | ((s[3] as u64) << 24u64)
        | ((s[4] as u64) << 32u64) | ((s[5] as u64) << 40u64) | ((s[6] as u64) << 48u64) | ((
    s[7] as u64) << 56u64)
}

/// The type byte of each kind of payload.
pub open spec fn type_id(p: PacketView) -> u8 {
    match p {
        PacketView::NewBlock { .. } => 1,
        PacketView::ChainLengthRequest => 2,
        PacketView::BlockRangeRequest { .. } => 3,
        PacketView::ChainLengthResponse { .. } => 4,
        PacketView::BlockRangeResponse { .. } => 5,
    }
}

/// Packets that are sent to every peer.
pub open spec fn spec_is_broadcast(p: PacketView) -> bool {
    p is NewBlock || p is ChainLengthRequest || p is BlockRangeRequest
}

/// Packets that answer a request.
pub open spec fn spec_is_response(p: PacketView) -> bool {
    p is ChainLengthResponse || p is BlockRangeResponse
}

/// One block in a block list: its length as a 32-bit integer, then its bytes.
pub open spec fn frame_block(b: Seq<u8>) -> Seq<u8> {
    le_u32(b.len() as u32) + b
}

/// A list of blocks, each framed by its length.
pub open spec fn encode_blocks(bs: Seq<Seq<u8>>) -> Seq<u8>
    decreases bs.len(),
{
    if bs.len() == 0 {
        Seq::empty()
    } else {
        frame_block(bs[0]) + encode_blocks(bs.drop_first())
    }
}

/// The bytes that follow the packet header.
pub open spec fn encode_payload(p: PacketView) -> Seq<u8> {
    match p {
        PacketView::NewBlock { block } => block,
        PacketView::ChainLengthRequest => Seq::empty(),
        PacketView::BlockRangeRequest { start_height, end_height } => le_u64(start_height) + le_u64(
            end_height,
        ),
        PacketView::ChainLengthResponse { chain_length } => le_u64(chain_length),
        PacketView::BlockRangeResponse { blocks } => le_u32(blocks.len() as u32) + encode_blocks(
            blocks,
        ),
    }
}

/// The bytes of a packet: type byte, sender address, payload.
pub open spec fn encode_packet(v: ProtocolPacketView) -> Seq<u8> {
    seq![type_id(v.payload)] + v.sender_ip + encode_payload(v.payload)
}

/// Which part of a payload was cut short.
pub enum PayloadKind {
    BlockRangeRequest,
    ChainLengthResponse,
    BlockRangeResponse,
    BlockLength,
    BlockData,
}

/// The name that an error reports for each kind of short payload.
pub open spec fn kind_name(k: PayloadKind) -> Seq<char> {
    match k {
        PayloadKind::BlockRangeRequest => "BlockRangeRequest"@,
        PayloadKind::ChainLengthResponse => "ChainLengthResponse"@,
        PayloadKind::BlockRangeResponse => "BlockRangeResponse"@,
        PayloadKind::BlockLength => "BlockRangeResponse block length"@,
        PayloadKind::BlockData => "BlockRangeResponse block data"@,
    }
}

/// Why parsing fails, as mathematical values.
pub enum ParseFailure {
    PacketTooShort { expected: int, actual: int },
    UnknownPacketId(u8),
    PayloadTooShort { kind: PayloadKind, expected: int, actual: int },
}

/// `n` length-framed blocks read from `p` starting at `offset`.
pub open spec fn parse_blocks(p: Seq<u8>, offset: int, n: nat) -> Result<
    Seq<Seq<u8>>,
    ParseFailure,
>
    decreases n,
{
    if n == 0 {
        Ok(Seq::empty())
    } else if p.len() < offset + 4 {
        Err(
            ParseFailure::PayloadTooShort {
                kind: PayloadKind::BlockLength,
                expected: offset + 4,
                actual: p.len() as int,
            },
        )
    } else {
        let len = u32_from_le(p.subrange(offset, offset + 4)) as int;
        let start = offset + 4;
        if p.len() < start + len {
            Err(
                ParseFailure::PayloadTooShort {
                    kind: PayloadKind::BlockData,
                    expected: start + len,
                    actual: p.len() as int,
                },
            )
        } else {
            match parse_blocks(p, start + len, (n - 1) as nat) {
                Ok(rest) => Ok(seq![p.subrange(start, start + len)] + rest),
                Err(e) => Err(e),
            }
        }
    }
}

/// The payload of a packet of type `id` whose bytes after the header are `p`.
pub open spec fn parse_payload(id: u8, p: Seq<u8>) -> Result<PacketView, ParseFailure> {
    if id == 1 {
        Ok(PacketView::NewBlock { block: p })
    } else if id == 2 {
        Ok(PacketView::ChainLengthRequest)
    } else if id == 3 {
        if p.len() < 16 {
            Err(
                ParseFailure::PayloadTooShort {
                    kind: PayloadKind::BlockRangeRequest,
                    expected: 16,
                    actual: p.len() as int,
                },
            )
        } else {
            Ok(
                PacketView::BlockRangeRequest {
                    start_height: u64_from_le(p.subrange(0, 8)),
                    end_height: u64_from_le(p.subrange(8, 16)),
                },
            )
        }
    } else if id == 4 {
        if p.len() < 8 {
            Err(
                ParseFailure::PayloadTooShort {
                    kind: PayloadKind::ChainLengthResponse,
                    expected: 8,
                    actual: p.len() as int,
                },
            )
        } else {
            Ok(PacketView::ChainLengthResponse { chain_length: u64_from_le(p.subrange(0, 8)) })
        }
    } else if id == 5 {
        if p.len() < 4 {
            Err(
                ParseFailure::PayloadTooShort {
                    kind: PayloadKind::BlockRangeResponse,
                    expected: 4,
                    actual: p.len() as int,
                },
            )
        } else {
            match parse_blocks(p, 4, u32_from_le(p.subrange(0, 4)) as nat) {
                Ok(blocks) => Ok(PacketView::BlockRangeResponse { blocks }),
                Err(e) => Err(e),
            }
        }
    } else {
        Err(ParseFailure::UnknownPacketId(id))
    }
}

/// The packet that `data` holds, or why it holds none.
pub open spec fn parse_packet(data: Seq<u8>) -> Result<ProtocolPacketView, ParseFailure> {
    if data.len() < 5 {
        Err(ParseFailure::PacketTooShort { expected: 5, actual: data.len() as int })
    } else {
        match parse_payload(data[0], data.subrange(5, data.len() as int)) {
            Ok(payload) => Ok(ProtocolPacketView { sender_ip: data.subrange(1, 5), payload }),
            Err(e) => Err(e),
        }
    }
}

/// An error value reports the failure `f`.
pub open spec fn reports(e: ProtocolError, f: ParseFailure) -> bool {
    match f {
        ParseFailure::PacketTooShort { expected, actual } => e matches ProtocolError::PacketTooShort {
            expected: x,
            actual: y,
        } && x == expected && y == actual,
        ParseFailure::UnknownPacketId(id) => e == ProtocolError::UnknownPacketId(id),
        ParseFailure::PayloadTooShort { kind, expected, actual } => e matches ProtocolError::PayloadTooShort {
            packet_type: t,
            expected: x,
            actual: y,
        } && t@ == kind_name(kind) && x == fit_usize(expected) && y == actual,
    }
}

/// A length as a `usize` reports it: itself, or the largest `usize` where it
/// does not fit.
pub open spec fn fit_usize(n: int) -> int {
    if n <= usize::MAX {
        n
    } else {
        usize::MAX as int
    }
}

// ---------------------------------------------------------------------------
// Byte-level helpers
// ---------------------------------------------------------------------------
fn push_u32_le(bytes: &mut Vec<u8>, v: u32)
    ensures
        final(bytes)@ == old(bytes)@ + le_u32(v),
{
    bytes.push(v as u8);
    bytes.push((v >> 8u32) as u8);
    bytes.push((v >> 16u32) as u8);
    bytes.push((v >> 24u32) as u8);
    assert(final(bytes)@ =~= old(bytes)@ + le_u32(v));
}

fn push_u64_le(bytes: &mut Vec<u8>, v: u64)
    ensures
        final(bytes)@ == old(bytes)@ + le_u64(v),
{
    bytes.push(v as u8);
    bytes.push((v >> 8u64) as u8);
    bytes.push((v >> 16u64) as u8);
    bytes.push((v >> 24u64) as u8);
    bytes.push((v >> 32u64) as u8);
    bytes.push((v >> 40u64) as u8);
    bytes.push((v >> 48u64) as u8);
    bytes.push((v >> 56u64) as u8);
    assert(final(bytes)@ =~= old(bytes)@ + le_u64(v));
}

fn push_all(bytes: &mut Vec<u8>, more: &[u8])
    ensures
        final(bytes)@ == old(bytes)@ + more@,
{
    let mut i: usize = 0;
    while i < more.len()
        invariant
            i <= more@.len(),
            bytes@ == old(bytes)@ + more@.subrange(0, i as int),
        decreases more@.len() - i,
    {
        bytes.push(more[i]);
        i = i + 1;
        assert(bytes@ =~= old(bytes)@ + more@.subrange(0, i as int));
    }
    assert(more@.subrange(0, more@.len() as int) =~= more@);
}

fn read_u32_le(data: &[u8], at: usize) -> (r: u32)
    requires
        at + 4 <= data@.len(),
    ensures
        r == u32_from_le(data@.subrange(at as int, at + 4)),
{
    let s = Ghost(data@.subrange(at as int, at + 4));
    assert(s@[0] == data@[at as int] && s@[1] == data@[at + 1] && s@[2] == data@[at + 2] && s@[3]
        == data@[at + 3]);
    (data[at] as u32) | ((data[at + 1] as u32) << 8u32) | ((data[at + 2] as u32) << 16u32) | ((
    data[at + 3] as u32) << 24u32)
}

fn read_u64_le(data: &[u8], at: usize) -> (r: u64)
    requires
        at + 8 <= data@.len(),
    ensures
        r == u64_from_le(data@.subrange(at as int, at + 8)),
{
    let s = Ghost(data@.subrange(at as int, at + 8));
    assert(s@[0] == data@[at as int] && s@[1] == data@[at + 1] && s@[2] == data@[at + 2] && s@[3]
        == data@[at + 3] && s@[4] == data@[at + 4] && s@[5] == data@[at + 5] && s@[6] == data@[at
        + 6] && s@[7] == data@[at + 7]);
    (data[at] as u64) | ((data[at + 1] as u64) << 8u64) | ((data[at + 2] as u64) << 16u64) | ((
    data[at + 3] as u64) << 24u64) | ((data[at + 4] as u64) << 32u64) | ((data[at + 5] as u64)
        << 40u64) | ((data[at + 6] as u64) << 48u64) | ((data[at + 7] as u64) << 56u64)
}


// ---------------------------------------------------------------------------
// Lemmas on the encoding
// ---------------------------------------------------------------------------
/// Framing one more block appends its frame to the encoding.
pub proof fn lemma_encode_blocks_push(bs: Seq<Seq<u8>>, b: Seq<u8>)
    ensures
        encode_blocks(bs.push(b)) == encode_blocks(bs) + frame_block(b),
    decreases bs.len(),
{
    if bs.len() == 0 {
        assert(bs.push(b).drop_first() =~= Seq::<Seq<u8>>::empty());
        assert(encode_blocks(bs.push(b)) =~= encode_blocks(bs) + frame_block(b));
    } else {
        lemma_encode_blocks_push(bs.drop_first(), b);
        assert(bs.push(b).drop_first() =~= bs.drop_first().push(b));
        assert(encode_blocks(bs.push(b)) =~= encode_blocks(bs) + frame_block(b));
    }
}

/// Blocks already read, followed by what reading the rest gives.
pub open spec fn prepend(acc: Seq<Seq<u8>>, r: Result<Seq<Seq<u8>>, ParseFailure>) -> Result<
    Seq<Seq<u8>>,
    ParseFailure,
> {
    match r {
        Ok(rest) => Ok(acc + rest),
        Err(e) => Err(e),
    }
}

proof fn lemma_prepend_step(acc: Seq<Seq<u8>>, blk: Seq<u8>, r: Result<Seq<Seq<u8>>, ParseFailure>)
    ensures
        prepend(
            acc,
            match r {
                Ok(rest) => Ok(seq![blk] + rest),
                Err(e) => Err(e),
            },
        ) == prepend(acc.push(blk), r),
{
    if let Ok(rest) = r {
        assert(acc + (seq![blk] + rest) =~= acc.push(blk) + rest);
    }
}

// ---------------------------------------------------------------------------
// Packets
// ---------------------------------------------------------------------------
impl ProtocolPacket {
    /// A packet from `sender` carrying `payload`.
    pub fn new(sender: [u8; 4], payload: PacketType) -> (r: Self)
        ensures
            r.sender_ip == sender,
            r.payload == payload,
    {
        ProtocolPacket { sender_ip: sender, payload }
    }

    /// The sender's IPv4 address as four octets.
    pub fn sender(&self) -> (r: [u8; 4])
        ensures
            r == self.sender_ip,
    {
        self.sender_ip
    }

    /// The type byte of the packet.
    pub fn packet_type_id(&self) -> (r: u8)
        ensures
            r == type_id(self.payload@),
    {
        match &self.payload {
            PacketType::NewBlock { .. } => 0x01,
            PacketType::ChainLengthRequest => 0x02,
            PacketType::BlockRangeRequest { .. } => 0x03,
            PacketType::ChainLengthResponse { .. } => 0x04,
            PacketType::BlockRangeResponse { .. } => 0x05,
        }
    }

    /// Whether the packet goes to every peer (a new block or a request).
    pub fn is_broadcast(&self) -> (r: bool)
        ensures
            r == spec_is_broadcast(self.payload@),
    {
        match &self.payload {
            PacketType::NewBlock { .. } => true,
            PacketType::ChainLengthRequest => true,
            PacketType::BlockRangeRequest { .. } => true,
            _ => false,
        }
    }

    /// Whether the packet answers a request.
    pub fn is_response(&self) -> (r: bool)
        ensures
            r == spec_is_response(self.payload@),
    {
        match &self.payload {
            PacketType::ChainLengthResponse { .. } => true,
            PacketType::BlockRangeResponse { .. } => true,
            _ => false,
        }
    }

    /// Announces a block, given as its archived bytes.
    pub fn new_block(sender: [u8; 4], block: Vec<u8>) -> (r: Self)
        ensures
            r.sender_ip == sender,
            r.payload@ == (PacketView::NewBlock { block: block@ }),
    {
        Self::new(sender, PacketType::NewBlock { block })
    }

    /// Asks peers for the length of their chain.
    pub fn chain_length_request(sender: [u8; 4]) -> (r: Self)
        ensures
            r.sender_ip == sender,
            r.payload@ == PacketView::ChainLengthRequest,
    {
        Self::new(sender, PacketType::ChainLengthRequest)
    }

    /// Asks peers for the blocks from `start_height` to `end_height`.
    pub fn block_range_request(sender: [u8; 4], start_height: u64, end_height: u64) -> (r: Self)
        ensures
            r.sender_ip == sender,
            r.payload@ == (PacketView::BlockRangeRequest { start_height, end_height }),
    {
        Self::new(sender, PacketType::BlockRangeRequest { start_height, end_height })
    }

    /// Answers with the length of the sender's chain.
    pub fn chain_length_response(sender: [u8; 4], chain_length: u64) -> (r: Self)
        ensures
            r.sender_ip == sender,
            r.payload@ == (PacketView::ChainLengthResponse { chain_length }),
    {
        Self::new(sender, PacketType::ChainLengthResponse { chain_length })
    }

    /// Answers with a run of blocks, each given as its archived bytes.
    pub fn block_range_response(sender: [u8; 4], blocks: Vec<Vec<u8>>) -> (r: Self)
        ensures
            r.sender_ip == sender,
            r.payload@ == (PacketView::BlockRangeResponse { blocks: blocks_view(blocks@) }),
    {
        Self::new(sender, PacketType::BlockRangeResponse { blocks })
    }

    /// The bytes of the packet. Counts and lengths are written as 32-bit
    /// integers, cut to their low 32 bits.
    pub fn to_bytes(&self) -> (r: Vec<u8>)
        ensures
            r@ == encode_packet(self@),
    {
        let mut bytes: Vec<u8> = Vec::new();
        bytes.push(self.packet_type_id());
        push_all(&mut bytes, self.sender_ip.as_slice());
        let ghost header = bytes@;
        assert(header =~= seq![type_id(self.payload@)] + self.sender_ip@);
        match &self.payload {
            PacketType::NewBlock { block } => {
                push_all(&mut bytes, block.as_slice());
            },
            PacketType::ChainLengthRequest => {
                assert(bytes@ =~= header + Seq::<u8>::empty());
            },
            PacketType::BlockRangeRequest { start_height, end_height } => {
                push_u64_le(&mut bytes, *start_height);
                push_u64_le(&mut bytes, *end_height);
                assert(bytes@ =~= header + (le_u64(*start_height) + le_u64(*end_height)));
            },
            PacketType::ChainLengthResponse { chain_length } => {
                push_u64_le(&mut bytes, *chain_length);
            },
            PacketType::BlockRangeResponse { blocks } => {
                push_u32_le(&mut bytes, blocks.len() as u32);
                let ghost counted = bytes@;
                let ghost bs = blocks_view(blocks@);
                assert(bs.take(0) =~= Seq::<Seq<u8>>::empty());
                assert(counted =~= counted + encode_blocks(bs.take(0)));
                let mut i: usize = 0;
                while i < blocks.len()
                    invariant
                        i <= blocks@.len(),
                        bs == blocks_view(blocks@),
                        bytes@ == counted + encode_blocks(bs.take(i as int)),
                    decreases blocks@.len() - i,
                {
                    let block = &blocks[i];
                    proof {
                        lemma_encode_blocks_push(bs.take(i as int), bs[i as int]);
                        assert(bs.take(i as int).push(bs[i as int]) =~= bs.take(i + 1));
                    }
                    push_u32_le(&mut bytes, block.len() as u32);
                    push_all(&mut bytes, block.as_slice());
                    i = i + 1;
                    assert(bytes@ =~= counted + encode_blocks(bs.take(i as int)));
                }
                assert(bs.take(blocks@.len() as int) =~= bs);
                assert(bytes@ =~= header + (le_u32(blocks.len() as u32) + encode_blocks(bs)));
            },
        }
        bytes
    }
}

/// Reads `count` length-framed blocks from the payload of `data`, starting
/// right after the block count.
fn parse_block_list(data: &[u8], count: u32) -> (r: Result<Vec<Vec<u8>>, ProtocolError>)
    requires
        9 <= data@.len(),
    ensures
        match parse_blocks(data@.subrange(5, data@.len() as int), 4, count as nat) {
            Ok(bs) => r matches Ok(v) && blocks_view(v@) == bs,
            Err(f) => r matches Err(e) && reports(e, f),
        },
{
    let ghost p = data@.subrange(5, data@.len() as int);
    let plen = data.len() - 5;
    let mut blocks: Vec<Vec<u8>> = Vec::new();
    let mut offset: usize = 4;
    let mut i: u32 = 0;
    assert(blocks_view(blocks@) =~= Seq::<Seq<u8>>::empty());
    assert(Seq::<Seq<u8>>::empty() + Seq::<Seq<u8>>::empty() =~= Seq::<Seq<u8>>::empty());
    while i < count
        invariant
            p == data@.subrange(5, data@.len() as int),
            plen == p.len(),
            plen + 5 == data@.len(),
            data@.len() <= usize::MAX,
            4 <= offset <= plen,
            i <= count,
            parse_blocks(p, 4, count as nat) == prepend(
                blocks_view(blocks@),
                parse_blocks(p, offset as int, (count - i) as nat),
            ),
        decreases count - i,
    {
        let ghost k = (count - i) as nat;
        if plen - offset < 4 {
            return Err(
                ProtocolError::PayloadTooShort {
                    packet_type: "BlockRangeResponse block length",
                    expected: offset + 4,
                    actual: plen,
                },
            );
        }
        let block_len = read_u32_le(data, 5 + offset) as usize;
        assert(data@.subrange(5 + offset, 5 + offset + 4) =~= p.subrange(
            offset as int,
            offset + 4,
        ));
        let start = offset + 4;
        if plen - start < block_len {
            return Err(
                ProtocolError::PayloadTooShort {
                    packet_type: "BlockRangeResponse block data",
                    expected: start.saturating_add(block_len),
                    actual: plen,
                },
            );
        }
        let block = slice_to_vec(slice_subrange(data, 5 + start, 5 + start + block_len));
        assert(block@ =~= p.subrange(start as int, start + block_len));
        proof {
            lemma_prepend_step(
                blocks_view(blocks@),
                block@,
                parse_blocks(p, start + block_len, (k - 1) as nat),
            );
        }
        let ghost before = blocks_view(blocks@);
        blocks.push(block);
        assert(blocks_view(blocks@) =~= before.push(block@));
        offset = start + block_len;
        i = i + 1;
    }
    assert(blocks_view(blocks@) + Seq::<Seq<u8>>::empty() =~= blocks_view(blocks@));
    Ok(blocks)
}

impl ProtocolPacket {
    /// Reads a packet from `data`. Bytes after a complete payload are
    /// ignored; a new block's payload is everything after the header.
    pub fn from_bytes(data: &[u8]) -> (r: Result<Self, ProtocolError>)
        ensures
            match parse_packet(data@) {
                Ok(v) => r matches Ok(p) && p@ == v,
                Err(f) => r matches Err(e) && reports(e, f),
            },
    {
        if data.len() < 5 {
            return Err(ProtocolError::PacketTooShort { expected: 5, actual: data.len() });
        }
        let packet_id = data[0];
        let sender_ip: [u8; 4] = [data[1], data[2], data[3], data[4]];
        assert(sender_ip@ =~= data@.subrange(1, 5));
        let ghost p = data@.subrange(5, data@.len() as int);
        let plen = data.len() - 5;
        let payload = match packet_id {
            0x01 => {
                let block = slice_to_vec(slice_subrange(data, 5, data.len()));
                PacketType::NewBlock { block }
            },
            0x02 => PacketType::ChainLengthRequest,
            0x03 => {
                if plen < 16 {
                    return Err(
                        ProtocolError::PayloadTooShort {
                            packet_type: "BlockRangeRequest",
                            expected: 16,
                            actual: plen,
                        },
                    );
                }
                let start_height = read_u64_le(data, 5);
                let end_height = read_u64_le(data, 13);
                assert(data@.subrange(5, 13) =~= p.subrange(0, 8));
                assert(data@.subrange(13, 21) =~= p.subrange(8, 16));
                PacketType::BlockRangeRequest { start_height, end_height }
            },
            0x04 => {
                if plen < 8 {
                    return Err(
                        ProtocolError::PayloadTooShort {
                            packet_type: "ChainLengthResponse",
                            expected: 8,
                            actual: plen,
                        },
                    );
                }
                let chain_length = read_u64_le(data, 5);
                assert(data@.subrange(5, 13) =~= p.subrange(0, 8));
                PacketType::ChainLengthResponse { chain_length }
            },
            0x05 => {
                if plen < 4 {
                    return Err(
                        ProtocolError::PayloadTooShort {
                            packet_type: "BlockRangeResponse",
                            expected: 4,
                            actual: plen,
                        },
                    );
                }
                let count = read_u32_le(data, 5);
                assert(data@.subrange(5, 9) =~= p.subrange(0, 4));
                let blocks = parse_block_list(data, count)?;
                PacketType::BlockRangeResponse { blocks }
            },
            _ => {
                return Err(ProtocolError::UnknownPacketId(packet_id));
            },
        };
        Ok(ProtocolPacket { sender_ip, payload })
    }
}

// ---------------------------------------------------------------------------
// Laws of the wire format
// ---------------------------------------------------------------------------
/// A packet whose block count and block lengths fit the 32-bit fields that
/// carry them, with a four-octet sender address.
pub open spec fn well_sized(v: ProtocolPacketView) -> bool {
    &&& v.sender_ip.len() == 4
    &&& match v.payload {
        PacketView::BlockRangeResponse { blocks } => blocks_fit(blocks),
        _ => true,
    }
}

/// Every block's length, and their number, fit in 32 bits.
pub open spec fn blocks_fit(bs: Seq<Seq<u8>>) -> bool {
    &&& bs.len() <= u32::MAX
    &&& forall|i: int| 0 <= i < bs.len() ==> #[trigger] bs[i].len() <= u32::MAX
}

/// Reading a little-endian 32-bit integer back gives the integer.
pub proof fn lemma_u32_le_roundtrip(x: u32)
    ensures
        le_u32(x).len() == 4,
        u32_from_le(le_u32(x)) == x,
{
    let s = le_u32(x);
    assert(s[0] == x as u8 && s[1] == (x >> 8u32) as u8 && s[2] == (x >> 16u32) as u8 && s[3] == (x
        >> 24u32) as u8);
    assert(((x as u8) as u32) | ((((x >> 8u32) as u8) as u32) << 8u32) | ((((x >> 16u32) as u8)
        as u32) << 16u32) | ((((x >> 24u32) as u8) as u32) << 24u32) == x) by (bit_vector);
}

/// Reading a little-endian 64-bit integer back gives the integer.
pub proof fn lemma_u64_le_roundtrip(x: u64)
    ensures
        le_u64(x).len() == 8,
        u64_from_le(le_u64(x)) == x,
{
    let s = le_u64(x);
    assert(s[0] == x as u8 && s[1] == (x >> 8u64) as u8 && s[2] == (x >> 16u64) as u8 && s[3] == (x
        >> 24u64) as u8 && s[4] == (x >> 32u64) as u8 && s[5] == (x >> 40u64) as u8 && s[6] == (x
        >> 48u64) as u8 && s[7] == (x >> 56u64) as u8);
    assert(((x as u8) as u64) | ((((x >> 8u64) as u8) as u64) << 8u64) | ((((x >> 16u64) as u8)
        as u64) << 16u64) | ((((x >> 24u64) as u8) as u64) << 24u64) | ((((x >> 32u64) as u8)
        as u64) << 32u64) | ((((x >> 40u64) as u8) as u64) << 40u64) | ((((x >> 48u64) as u8)
        as u64) << 48u64) | ((((x >> 56u64) as u8) as u64) << 56u64) == x) by (bit_vector);
}

/// Reading framed blocks from bytes that hold their encoding gives the blocks.
pub proof fn lemma_parse_encoded_blocks(p: Seq<u8>, offset: int, bs: Seq<Seq<u8>>)
    requires
        0 <= offset,
        offset + encode_blocks(bs).len() <= p.len(),
        p.subrange(offset, offset + encode_blocks(bs).len()) == encode_blocks(bs),
        forall|i: int| 0 <= i < bs.len() ==> #[trigger] bs[i].len() <= u32::MAX,
    ensures
        parse_blocks(p, offset, bs.len()) == Ok::<Seq<Seq<u8>>, ParseFailure>(bs),
    decreases bs.len(),
{
    if bs.len() == 0 {
        assert(bs =~= Seq::<Seq<u8>>::empty());
    } else {
        let b = bs[0];
        let enc = encode_blocks(bs);
        let rest = encode_blocks(bs.drop_first());
        let len = b.len();
        lemma_u32_le_roundtrip(len as u32);
        assert(enc == le_u32(len as u32) + b + rest);
        assert(p.subrange(offset, offset + 4) =~= le_u32(len as u32)) by {
            assert forall|j: int| 0 <= j < 4 implies #[trigger] p.subrange(offset, offset + 4)[j]
                == le_u32(len as u32)[j] by {
                assert(p.subrange(offset, offset + enc.len())[j] == enc[j]);
            }
        }
        let start = offset + 4;
        assert(p.subrange(start, start + len) =~= b) by {
            assert forall|j: int| 0 <= j < len implies #[trigger] p.subrange(start, start + len)[j]
                == b[j] by {
                assert(p.subrange(offset, offset + enc.len())[4 + j] == enc[4 + j]);
            }
        }
        assert(p.subrange(start + len, start + len + rest.len()) =~= rest) by {
            assert forall|j: int| 0 <= j < rest.len() implies #[trigger] p.subrange(
                start + len,
                start + len + rest.len(),
            )[j] == rest[j] by {
                assert(p.subrange(offset, offset + enc.len())[4 + len + j] == enc[4 + len + j]);
            }
        }
        assert forall|i: int| 0 <= i < bs.drop_first().len() implies #[trigger] bs.drop_first()[i].len()
            <= u32::MAX by {
            assert(bs.drop_first()[i] == bs[i + 1]);
        }
        lemma_parse_encoded_blocks(p, start + len, bs.drop_first());
        assert(seq![b] + bs.drop_first() =~= bs);
    }
}

/// Law: reading back the bytes of a packet gives the packet, whenever its
/// block count and block lengths fit their 32-bit fields.
pub proof fn lemma_packet_roundtrip(v: ProtocolPacketView)
    requires
        well_sized(v),
    ensures
        parse_packet(encode_packet(v)) == Ok::<ProtocolPacketView, ParseFailure>(v),
{
    let data = encode_packet(v);
    let pl = encode_payload(v.payload);
    assert(data.subrange(1, 5) =~= v.sender_ip);
    assert(data.subrange(5, data.len() as int) =~= pl);
    match v.payload {
        PacketView::NewBlock { block } => {},
        PacketView::ChainLengthRequest => {},
        PacketView::BlockRangeRequest { start_height, end_height } => {
            lemma_u64_le_roundtrip(start_height);
            lemma_u64_le_roundtrip(end_height);
            assert(pl.subrange(0, 8) =~= le_u64(start_height));
            assert(pl.subrange(8, 16) =~= le_u64(end_height));
        },
        PacketView::ChainLengthResponse { chain_length } => {
            lemma_u64_le_roundtrip(chain_length);
            assert(pl.subrange(0, 8) =~= le_u64(chain_length));
        },
        PacketView::BlockRangeResponse { blocks } => {
            lemma_u32_le_roundtrip(blocks.len() as u32);
            assert(pl.subrange(0, 4) =~= le_u32(blocks.len() as u32));
            assert(pl.subrange(4, 4 + encode_blocks(blocks).len() as int) =~= encode_blocks(blocks));
            lemma_parse_encoded_blocks(pl, 4, blocks);
        },
    }
}

/// Law: the first byte of a packet is its type byte and the next four are
/// the sender's address; the fixed-size packets have the sizes below.
pub proof fn lemma_packet_layout(v: ProtocolPacketView)
    requires
        v.sender_ip.len() == 4,
    ensures
        encode_packet(v)[0] == type_id(v.payload),
        encode_packet(v).subrange(1, 5) == v.sender_ip,
        v.payload is ChainLengthRequest ==> encode_packet(v).len() == 5,
        v.payload is BlockRangeRequest ==> encode_packet(v).len() == 21,
        v.payload is ChainLengthResponse ==> encode_packet(v).len() == 13,
        v.payload matches PacketView::BlockRangeResponse { blocks } ==> (blocks.len() == 0
            ==> encode_packet(v).len() == 9),
        v.payload matches PacketView::NewBlock { block } ==> encode_packet(v).len() == 5
            + block.len(),
{
    let data = encode_packet(v);
    assert(data.subrange(1, 5) =~= v.sender_ip);
}

/// Law: every packet is either broadcast to all peers or a response, and
/// never both; its type byte is one of 1 to 5.
pub proof fn lemma_broadcast_or_response(p: PacketView)
    ensures
        spec_is_broadcast(p) != spec_is_response(p),
        1 <= type_id(p) <= 5,
{
}


// ---------------------------------------------------------------------------
// Messages
// ---------------------------------------------------------------------------
/// The character of a digit below 16, lower-case.
pub open spec fn digit_char(d: nat) -> char {
    if d < 10 {
        (48 + d) as char
    } else {
        (87 + d) as char
    }
}

/// The decimal digits of `n`, most significant first.
pub open spec fn decimal(n: nat) -> Seq<char>
    decreases n,
{
    if n < 10 {
        seq![digit_char(n)]
    } else {
        decimal(n / 10).push(digit_char(n % 10))
    }
}

/// A byte as two lower-case hexadecimal digits.
pub open spec fn hex2(b: u8) -> Seq<char> {
    seq![digit_char((b / 16) as nat), digit_char((b % 16) as nat)]
}

/// The text of a digit below 16.
fn digit_str(d: u64) -> (r: &'static str)
    requires
        d < 16,
    ensures
        r@ == seq![digit_char(d as nat)],
{
    proof {
        reveal_strlit("0");
        reveal_strlit("1");
        reveal_strlit("2");
        reveal_strlit("3");
        reveal_strlit("4");
        reveal_strlit("5");
        reveal_strlit("6");
        reveal_strlit("7");
        reveal_strlit("8");
        reveal_strlit("9");
        reveal_strlit("a");
        reveal_strlit("b");
        reveal_strlit("c");
        reveal_strlit("d");
        reveal_strlit("e");
        reveal_strlit("f");
    }
    let r = match d {
        0 => "0",
        1 => "1",
        2 => "2",
        3 => "3",
        4 => "4",
        5 => "5",
        6 => "6",
        7 => "7",
        8 => "8",
        9 => "9",
        10 => "a",
        11 => "b",
        12 => "c",
        13 => "d",
        14 => "e",
        _ => "f",
    };
    assert(r@ =~= seq![digit_char(d as nat)]);
    r
}

/// Appends the decimal digits of `n`.
fn push_decimal(s: &mut String, n: u64)
    ensures
        final(s)@ == old(s)@ + decimal(n as nat),
    decreases n,
{
    if n >= 10 {
        push_decimal(s, n / 10);
    }
    s.append(digit_str(n % 10));
    assert(final(s)@ =~= old(s)@ + decimal(n as nat));
}

/// Calls `to_string` (the `Display` text) of an archive error. Nothing is
/// claimed of the text.
#[verifier::external_body]
fn archive_error_text(e: &rkyv::rancor::Error) -> String {
    e.to_string()
}

impl ProtocolError {
    /// What went wrong, in words.
    pub fn to_string(&self) -> (r: String)
        ensures
            match self {
                ProtocolError::PacketTooShort { expected, actual } => r@ == "Packet too short: expected at least "@
                    + decimal(*expected as nat) + " bytes, got "@ + decimal(*actual as nat),
                ProtocolError::UnknownPacketId(id) => r@ == "Unknown packet ID: 0x"@ + hex2(*id),
                ProtocolError::PayloadTooShort { packet_type, expected, actual } => r@
                    == packet_type@ + ": expected "@ + decimal(*expected as nat) + " bytes, got "@
                    + decimal(*actual as nat),
                ProtocolError::RkyvError(_) => "rkyv error: "@.is_prefix_of(r@),
            },
    {
        let mut s = String::new();
        match self {
            ProtocolError::PacketTooShort { expected, actual } => {
                s.append("Packet too short: expected at least ");
                push_decimal(&mut s, *expected as u64);
                s.append(" bytes, got ");
                push_decimal(&mut s, *actual as u64);
            },
            ProtocolError::UnknownPacketId(id) => {
                s.append("Unknown packet ID: 0x");
                s.append(digit_str((*id / 16) as u64));
                s.append(digit_str((*id % 16) as u64));
            },
            ProtocolError::PayloadTooShort { packet_type, expected, actual } => {
                s.append(packet_type);
                s.append(": expected ");
                push_decimal(&mut s, *expected as u64);
                s.append(" bytes, got ");
                push_decimal(&mut s, *actual as u64);
            },
            ProtocolError::RkyvError(e) => {
                s.append("rkyv error: ");
                let text = archive_error_text(e);
                s.append(text.as_str());
            },
        }
        s
    }
}

} // verus!
