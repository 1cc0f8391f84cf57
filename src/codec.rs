use vstd::prelude::*;
use crate::message::{GossipMessage, MessageView};

verus! {

/// Length of the fixed frame header: a 4-byte identifier and a 1-byte TTL.
pub const HEADER_LEN: usize = 5;

/// The unsigned 32-bit integer whose little-endian bytes are `b0 b1 b2 b3`.
pub open spec fn le_u32(b0: u8, b1: u8, b2: u8, b3: u8) -> int {
    b0 as int + b1 as int * 0x100 + b2 as int * 0x1_0000 + b3 as int * 0x100_0000
}

/// The four little-endian bytes of `x`.
pub open spec fn le_bytes(x: u32) -> Seq<u8> {
    seq![
        (x % 0x100) as u8,
        (x / 0x100 % 0x100) as u8,
        (x / 0x1_0000 % 0x100) as u8,
        (x / 0x100_0000) as u8,
    ]
}

/// The wire form of a message: identifier (little-endian), TTL, payload.
pub open spec fn encode_spec(m: MessageView) -> Seq<u8> {
    le_bytes(m.id) + seq![m.ttl] + m.payload
}

/// The message a frame holds, or `None` when it is shorter than the header.
pub open spec fn decode_spec(b: Seq<u8>) -> Option<MessageView> {
    if b.len() < HEADER_LEN {
        None
    } else {
        Some(MessageView {
            id: le_u32(b[0], b[1], b[2], b[3]) as u32,
            ttl: b[4],
            payload: b.subrange(HEADER_LEN as int, b.len() as int),
        })
    }
}

proof fn lemma_le_u32_bounds(b0: u8, b1: u8, b2: u8, b3: u8)
    ensures
        0 <= le_u32(b0, b1, b2, b3) <= u32::MAX,
{
    assert(0 <= le_u32(b0, b1, b2, b3) <= u32::MAX) by (nonlinear_arith)
        requires
            0 <= b0 <= 255, 0 <= b1 <= 255, 0 <= b2 <= 255, 0 <= b3 <= 255,
    ;
}

proof fn lemma_le_bytes_inverse(x: u32)
    ensures
        le_u32(le_bytes(x)[0], le_bytes(x)[1], le_bytes(x)[2], le_bytes(x)[3]) == x,
{
    let b = le_bytes(x);
    assert(b[0] as int == x % 0x100);
    assert(b[1] as int == x / 0x100 % 0x100);
    assert(b[2] as int == x / 0x1_0000 % 0x100);
    assert(b[3] as int == x / 0x100_0000);
    let xi = x as int;
    assert(xi % 0x100 + (xi / 0x100 % 0x100) * 0x100 + (xi / 0x1_0000 % 0x100) * 0x1_0000
        + (xi / 0x100_0000) * 0x100_0000 == xi) by (nonlinear_arith)
        requires
            0 <= xi <= u32::MAX,
    ;
}

/// Decoding the encoding of any message gives that message back.
pub proof fn lemma_round_trip(m: MessageView)
    ensures
        decode_spec(encode_spec(m)) == Some(m),
{
    let b = encode_spec(m);
    lemma_le_bytes_inverse(m.id);
    assert(b.subrange(HEADER_LEN as int, b.len() as int) =~= m.payload);
}

/// Every byte sequence shorter than the header decodes to nothing.
pub proof fn lemma_short_frame_rejected(b: Seq<u8>)
    requires
        b.len() < HEADER_LEN,
    ensures
        decode_spec(b) is None,
{
}

/// Reads a gossip frame: bytes 0..4 are the little-endian identifier, byte 4
/// the TTL, and the rest the payload (copied).
pub fn decode_gossip(payload: &[u8]) -> (r: Option<GossipMessage>)
    ensures
        r matches Some(m) ==> decode_spec(payload@) == Some(m@),
        r is None ==> decode_spec(payload@) is None,
        payload@.len() < HEADER_LEN ==> r is None,
{
    if payload.len() < HEADER_LEN {
        return None;
    }
    proof {
        lemma_le_u32_bounds(payload@[0], payload@[1], payload@[2], payload@[3]);
    }
    let id: u32 = payload[0] as u32 + payload[1] as u32 * 0x100 + payload[2] as u32 * 0x1_0000
        + payload[3] as u32 * 0x100_0000;
    let ttl: u8 = payload[4];
    let mut data: Vec<u8> = Vec::new();
    let mut i: usize = HEADER_LEN;
    while i < payload.len()
        invariant
            HEADER_LEN <= i <= payload@.len(),
            data@ == payload@.subrange(HEADER_LEN as int, i as int),
        decreases payload@.len() - i,
    {
        data.push(payload[i]);
        i = i + 1;
        assert(data@ =~= payload@.subrange(HEADER_LEN as int, i as int));
    }
    Some(GossipMessage { id, ttl, payload: data })
}

/// Writes the wire form of `msg`, the inverse of [`decode_gossip`].
pub fn encode_gossip(msg: &GossipMessage) -> (r: Vec<u8>)
    ensures
        r@ == encode_spec(msg@),
        decode_spec(r@) == Some(msg@),
{
    let mut out: Vec<u8> = Vec::new();
    out.push((msg.id % 0x100) as u8);
    out.push((msg.id / 0x100 % 0x100) as u8);
    out.push((msg.id / 0x1_0000 % 0x100) as u8);
    out.push((msg.id / 0x100_0000) as u8);
    out.push(msg.ttl);
    let mut i: usize = 0;
    while i < msg.payload.len()
        invariant
            i <= msg.payload@.len(),
            out@ == le_bytes(msg.id) + seq![msg.ttl] + msg.payload@.subrange(0, i as int),
        decreases msg.payload@.len() - i,
    {
        out.push(msg.payload[i]);
        i = i + 1;
        assert(out@ =~= le_bytes(msg.id) + seq![msg.ttl] + msg.payload@.subrange(0, i as int));
    }
    assert(msg.payload@.subrange(0, msg.payload@.len() as int) =~= msg.payload@);
    proof {
        lemma_round_trip(msg@);
    }
    out
}

} // verus!
