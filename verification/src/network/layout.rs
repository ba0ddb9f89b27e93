//! Where each part of a block list stands in a packet's bytes.
use vstd::prelude::*;

use crate::network::protocol::{
    encode_blocks, encode_packet, frame_block, le_u32, parse_blocks, parse_packet, type_id,
    u32_from_le, ProtocolPacketView,
};

verus! {

/// The number whose little-endian bytes are `s[at..at + 4]`.
pub open spec fn le_value(s: Seq<u8>, at: int) -> int {
    s[at] + 256 * s[at + 1] + 65536 * s[at + 2] + 16777216 * s[at + 3]
}

/// Where block `i` starts in a block list: each block before it takes four
/// length bytes and its own bytes.
pub open spec fn block_offset(bs: Seq<Seq<u8>>, i: int) -> int
    decreases i,
{
    if i <= 0 {
        0
    } else {
        block_offset(bs, i - 1) + 4 + bs[i - 1].len()
    }
}

proof fn lemma_le_u32_value(x: u32)
    ensures
        le_u32(x).len() == 4,
        le_value(le_u32(x), 0) == x,
{
    let s = le_u32(x);
    assert(s[0] == x as u8 && s[1] == (x >> 8u32) as u8 && s[2] == (x >> 16u32) as u8 && s[3] == (x
        >> 24u32) as u8);
    assert((x as u8) + 256 * ((x >> 8u32) as u8) + 65536 * ((x >> 16u32) as u8) + 16777216 * ((x
        >> 24u32) as u8) == x) by (bit_vector);
}

proof fn lemma_u32_from_le_value(s: Seq<u8>, at: int)
    requires
        0 <= at,
        at + 4 <= s.len(),
    ensures
        u32_from_le(s.subrange(at, at + 4)) as int == le_value(s, at),
{
    let t = s.subrange(at, at + 4);
    let b0 = t[0];
    let b1 = t[1];
    let b2 = t[2];
    let b3 = t[3];
    assert(b0 == s[at] && b1 == s[at + 1] && b2 == s[at + 2] && b3 == s[at + 3]);
    assert(((b0 as u32) | ((b1 as u32) << 8u32) | ((b2 as u32) << 16u32) | ((b3 as u32)
        << 24u32)) == b0 + 256 * b1 + 65536 * b2 + 16777216 * b3) by (bit_vector);
}

proof fn lemma_offset_nonneg(bs: Seq<Seq<u8>>, i: int)
    ensures
        0 <= block_offset(bs, i),
    decreases i,
{
    if i > 0 {
        lemma_offset_nonneg(bs, i - 1);
    }
}

proof fn lemma_offset_shift(bs: Seq<Seq<u8>>, i: int)
    requires
        1 <= i <= bs.len(),
    ensures
        block_offset(bs, i) == 4 + bs[0].len() + block_offset(bs.drop_first(), i - 1),
    decreases i,
{
    if i == 1 {
        assert(block_offset(bs, 0) == 0);
        assert(block_offset(bs.drop_first(), 0) == 0);
    } else {
        lemma_offset_shift(bs, i - 1);
        assert(bs.drop_first()[i - 2] == bs[i - 1]);
    }
}

proof fn lemma_encode_blocks_len(bs: Seq<Seq<u8>>)
    ensures
        encode_blocks(bs).len() == block_offset(bs, bs.len() as int),
    decreases bs.len(),
{
    if bs.len() == 0 {
    } else {
        lemma_encode_blocks_len(bs.drop_first());
        lemma_offset_shift(bs, bs.len() as int);
    }
}

proof fn lemma_block_at(bs: Seq<Seq<u8>>, i: int)
    requires
        0 <= i < bs.len(),
    ensures
        block_offset(bs, i) + 4 + bs[i].len() <= encode_blocks(bs).len(),
        le_value(encode_blocks(bs), block_offset(bs, i)) == bs[i].len() as u32,
        encode_blocks(bs).subrange(
            block_offset(bs, i) + 4,
            block_offset(bs, i) + 4 + bs[i].len(),
        ) == bs[i],
    decreases i,
{
    broadcast use vstd::seq_lib::group_seq_properties;

    let b = bs[0];
    let rest = bs.drop_first();
    let e = encode_blocks(bs);
    let er = encode_blocks(rest);
    let head = frame_block(b);
    lemma_le_u32_value(b.len() as u32);
    assert(e == head + er);
    if i == 0 {
        assert(block_offset(bs, 0) == 0);
        assert(e[0] == head[0] && e[1] == head[1] && e[2] == head[2] && e[3] == head[3]);
        assert(head[0] == le_u32(b.len() as u32)[0] && head[1] == le_u32(b.len() as u32)[1]
            && head[2] == le_u32(b.len() as u32)[2] && head[3] == le_u32(b.len() as u32)[3]);
        assert(e.subrange(4, 4 + b.len() as int) =~= b);
    } else {
        lemma_block_at(rest, i - 1);
        lemma_offset_shift(bs, i);
        let ro = block_offset(rest, i - 1);
        let o = block_offset(bs, i);
        assert(rest[i - 1] == bs[i]);
        assert(o == head.len() + ro);
        let he = head + er;
        lemma_offset_nonneg(rest, i - 1);
        assert(he[o] == er[ro] && he[o + 1] == er[ro + 1] && he[o + 2] == er[ro + 2] && he[o + 3]
            == er[ro + 3]);
        assert(he.subrange(o + 4, o + 4 + bs[i].len()) =~= er.subrange(
            ro + 4,
            ro + 4 + bs[i].len(),
        ));
    }
}

/// Law: in the bytes of a block list, block `i` stands at
/// `block_offset(bs, i)`: its length as four little-endian bytes (cut to 32
/// bits), then the block's own bytes, unchanged; the list holds nothing else.
pub proof fn lemma_block_list_layout(bs: Seq<Seq<u8>>)
    ensures
        encode_blocks(bs).len() == block_offset(bs, bs.len() as int),
        forall|i: int|
            #![trigger bs[i]]
            0 <= i < bs.len() ==> le_value(encode_blocks(bs), block_offset(bs, i)) == bs[i].len()
                as u32 && encode_blocks(bs).subrange(
                block_offset(bs, i) + 4,
                block_offset(bs, i) + 4 + bs[i].len(),
            ) == bs[i],
{
    lemma_encode_blocks_len(bs);
    assert forall|i: int| #![trigger bs[i]] 0 <= i < bs.len() implies le_value(
        encode_blocks(bs),
        block_offset(bs, i),
    ) == bs[i].len() as u32 && encode_blocks(bs).subrange(
        block_offset(bs, i) + 4,
        block_offset(bs, i) + 4 + bs[i].len(),
    ) == bs[i] by {
        lemma_block_at(bs, i);
    }
}

/// Law: the bytes of a block-range response are the type byte 5, the
/// sender, the block count as four little-endian bytes (cut to 32 bits), and
/// then each block at `9 + block_offset(bs, i)`: its length as four
/// little-endian bytes and its own bytes, unchanged, in order.
pub proof fn lemma_block_range_response_layout(v: ProtocolPacketView)
    requires
        v.sender_ip.len() == 4,
        v.payload is BlockRangeResponse,
    ensures
        encode_packet(v)[0] == 5,
        encode_packet(v).subrange(1, 5) == v.sender_ip,
        le_value(encode_packet(v), 5) == v.payload->BlockRangeResponse_blocks.len() as u32,
        encode_packet(v).len() == 9 + block_offset(
            v.payload->BlockRangeResponse_blocks,
            v.payload->BlockRangeResponse_blocks.len() as int,
        ),
        forall|i: int|
            #![trigger v.payload->BlockRangeResponse_blocks[i]]
            0 <= i < v.payload->BlockRangeResponse_blocks.len() ==> le_value(
                encode_packet(v),
                9 + block_offset(v.payload->BlockRangeResponse_blocks, i),
            ) == v.payload->BlockRangeResponse_blocks[i].len() as u32 && encode_packet(v).subrange(
                9 + block_offset(v.payload->BlockRangeResponse_blocks, i) + 4,
                9 + block_offset(v.payload->BlockRangeResponse_blocks, i) + 4
                    + v.payload->BlockRangeResponse_blocks[i].len(),
            ) == v.payload->BlockRangeResponse_blocks[i],
{
    broadcast use vstd::seq_lib::group_seq_properties;

    let e = encode_packet(v);
    let bs = v.payload->BlockRangeResponse_blocks;
    let pre = seq![type_id(v.payload)] + v.sender_ip + le_u32(bs.len() as u32);
    let enc = encode_blocks(bs);
    lemma_le_u32_value(bs.len() as u32);
    lemma_block_list_layout(bs);
    assert(e =~= pre + enc);
    assert(e.subrange(1, 5) =~= v.sender_ip);
    assert(e[5] == pre[5] && e[6] == pre[6] && e[7] == pre[7] && e[8] == pre[8]);
    let cnt = le_u32(bs.len() as u32);
    assert(pre[5] == cnt[0] && pre[6] == cnt[1] && pre[7] == cnt[2] && pre[8] == cnt[3]);
    assert forall|i: int| #![trigger bs[i]] 0 <= i < bs.len() implies le_value(
        e,
        9 + block_offset(bs, i),
    ) == bs[i].len() as u32 && e.subrange(
        9 + block_offset(bs, i) + 4,
        9 + block_offset(bs, i) + 4 + bs[i].len(),
    ) == bs[i] by {
        let o = block_offset(bs, i);
        lemma_block_at(bs, i);
        lemma_offset_nonneg(bs, i);
        assert(e[9 + o] == enc[o] && e[9 + o + 1] == enc[o + 1] && e[9 + o + 2] == enc[o + 2]
            && e[9 + o + 3] == enc[o + 3]);
        assert(e.subrange(9 + o + 4, 9 + o + 4 + bs[i].len()) =~= enc.subrange(
            o + 4,
            o + 4 + bs[i].len(),
        ));
    }
}

proof fn lemma_parsed_block_at(p: Seq<u8>, offset: int, n: nat, i: int)
    requires
        0 <= offset,
        parse_blocks(p, offset, n) is Ok,
        0 <= i < n,
    ensures
        parse_blocks(p, offset, n)->Ok_0.len() == n,
        offset + block_offset(parse_blocks(p, offset, n)->Ok_0, i) + 4
            + parse_blocks(p, offset, n)->Ok_0[i].len() <= p.len(),
        le_value(p, offset + block_offset(parse_blocks(p, offset, n)->Ok_0, i))
            == parse_blocks(p, offset, n)->Ok_0[i].len(),
        parse_blocks(p, offset, n)->Ok_0[i] == p.subrange(
            offset + block_offset(parse_blocks(p, offset, n)->Ok_0, i) + 4,
            offset + block_offset(parse_blocks(p, offset, n)->Ok_0, i) + 4
                + parse_blocks(p, offset, n)->Ok_0[i].len(),
        ),
    decreases n,
{
    broadcast use vstd::seq_lib::group_seq_properties;

    let len = u32_from_le(p.subrange(offset, offset + 4)) as int;
    let start = offset + 4;
    lemma_u32_from_le_value(p, offset);
    let rest = parse_blocks(p, start + len, (n - 1) as nat)->Ok_0;
    let bs = parse_blocks(p, offset, n)->Ok_0;
    assert(bs == seq![p.subrange(start, start + len)] + rest);
    if n > 1 {
        lemma_parsed_block_at(p, start + len, (n - 1) as nat, 0);
    } else {
        assert(rest.len() == 0);
    }
    assert(bs.len() == n);
    assert(bs.drop_first() =~= rest);
    if i == 0 {
        assert(block_offset(bs, 0) == 0);
        assert(bs[0] == p.subrange(start, start + len));
    } else {
        lemma_parsed_block_at(p, start + len, (n - 1) as nat, i - 1);
        lemma_offset_shift(bs, i);
        assert(bs[i] == rest[i - 1]);
    }
}

/// Law: a block-range response read from `data` has the type byte 5, the
/// sender in the next four bytes, and the block count in the four after
/// them; block `i` is the run of bytes of `data` at
/// `9 + block_offset(bs, i) + 4`, taken unchanged, right after its length as
/// four little-endian bytes.
pub proof fn lemma_parsed_block_list(data: Seq<u8>)
    requires
        parse_packet(data) matches Ok(v) && v.payload is BlockRangeResponse,
    ensures
        data[0] == 5,
        parse_packet(data)->Ok_0.sender_ip == data.subrange(1, 5),
        le_value(data, 5) == parse_packet(data)->Ok_0.payload->BlockRangeResponse_blocks.len(),
        forall|i: int|
            #![trigger parse_packet(data)->Ok_0.payload->BlockRangeResponse_blocks[i]]
            0 <= i < parse_packet(data)->Ok_0.payload->BlockRangeResponse_blocks.len() ==> {
                let bs = parse_packet(data)->Ok_0.payload->BlockRangeResponse_blocks;
                &&& 9 + block_offset(bs, i) + 4 + bs[i].len() <= data.len()
                &&& le_value(data, 9 + block_offset(bs, i)) == bs[i].len()
                &&& bs[i] == data.subrange(
                    9 + block_offset(bs, i) + 4,
                    9 + block_offset(bs, i) + 4 + bs[i].len(),
                )
            },
{
    broadcast use vstd::seq_lib::group_seq_properties;

    let p = data.subrange(5, data.len() as int);
    let count = u32_from_le(p.subrange(0, 4)) as nat;
    lemma_u32_from_le_value(p, 0);
    let v = parse_packet(data)->Ok_0;
    let bs = v.payload->BlockRangeResponse_blocks;
    assert(bs == parse_blocks(p, 4, count)->Ok_0);
    assert(p[0] == data[5] && p[1] == data[6] && p[2] == data[7] && p[3] == data[8]);
    if count > 0 {
        lemma_parsed_block_at(p, 4, count, 0);
    } else {
        assert(bs.len() == 0);
    }
    assert forall|i: int| #![trigger bs[i]] 0 <= i < bs.len() implies {
        &&& 9 + block_offset(bs, i) + 4 + bs[i].len() <= data.len()
        &&& le_value(data, 9 + block_offset(bs, i)) == bs[i].len()
        &&& bs[i] == data.subrange(
            9 + block_offset(bs, i) + 4,
            9 + block_offset(bs, i) + 4 + bs[i].len(),
        )
    } by {
        lemma_parsed_block_at(p, 4, count, i);
        lemma_offset_nonneg(bs, i);
        let o = 4 + block_offset(bs, i);
        assert(p[o] == data[5 + o] && p[o + 1] == data[5 + o + 1] && p[o + 2] == data[5 + o + 2]
            && p[o + 3] == data[5 + o + 3]);
        assert(p.subrange(o + 4, o + 4 + bs[i].len()) =~= data.subrange(
            5 + o + 4,
            5 + o + 4 + bs[i].len(),
        ));
    }
}

} // verus!
