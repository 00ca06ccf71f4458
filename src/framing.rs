//! Four-byte big-endian length prefixes, as used by both the handshake and
//! the transport frames.
use vstd::prelude::*;

verus! {

/// The big-endian bytes of `n`.
pub open spec fn be32(n: u32) -> Seq<u8> {
    seq![(n >> 24u32) as u8, (n >> 16u32) as u8, (n >> 8u32) as u8, n as u8]
}

/// The number whose big-endian bytes are `b`.
pub open spec fn be32_value(b: Seq<u8>) -> u32 {
    ((b[0] as u32) << 24u32) | ((b[1] as u32) << 16u32) | ((b[2] as u32) << 8u32) | (b[3] as u32)
}

/// Writes a length prefix.
pub fn encode_len(n: u32) -> (r: [u8; 4])
    ensures
        r@ == be32(n),
{
    let r = [(n >> 24u32) as u8, (n >> 16u32) as u8, (n >> 8u32) as u8, n as u8];
    assert(r@ =~= be32(n));
    r
}

/// Reads a length prefix.
pub fn decode_len(b: &[u8; 4]) -> (r: u32)
    ensures
        r == be32_value(b@),
{
    ((b[0] as u32) << 24u32) | ((b[1] as u32) << 16u32) | ((b[2] as u32) << 8u32) | (b[3] as u32)
}

/// `msg` behind its big-endian length.
pub fn with_len_prefix(msg: &[u8]) -> (r: Vec<u8>)
    requires
        msg@.len() <= u32::MAX,
    ensures
        r@ == be32(msg@.len() as u32) + msg@,
{
    let prefix = encode_len(msg.len() as u32);
    let mut r: Vec<u8> = Vec::new();
    r.push(prefix[0]);
    r.push(prefix[1]);
    r.push(prefix[2]);
    r.push(prefix[3]);
    let mut i: usize = 0;
    while i < msg.len()
        invariant
            0 <= i <= msg@.len(),
            r@ == be32(msg@.len() as u32) + msg@.subrange(0, i as int),
        decreases msg@.len() - i,
    {
        r.push(msg[i]);
        i = i + 1;
        assert(r@ =~= be32(msg@.len() as u32) + msg@.subrange(0, i as int));
    }
    assert(msg@.subrange(0, msg@.len() as int) =~= msg@);
    r
}

/// Reading a written prefix gives back the length.
pub proof fn lemma_len_round_trip(n: u32)
    ensures
        be32_value(be32(n)) == n,
{
    let b0 = (n >> 24u32) as u8;
    let b1 = (n >> 16u32) as u8;
    let b2 = (n >> 8u32) as u8;
    let b3 = n as u8;
    assert(((b0 as u32) << 24u32) | ((b1 as u32) << 16u32) | ((b2 as u32) << 8u32) | (b3 as u32)
        == n) by (bit_vector)
        requires
            b0 == (n >> 24u32) as u8,
            b1 == (n >> 16u32) as u8,
            b2 == (n >> 8u32) as u8,
            b3 == n as u8,
    ;
}

} // verus!
