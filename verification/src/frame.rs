//! How a serialized message travels over a connection: its length as eight
//! little-endian bytes, then the message itself.
use vstd::bytes::{spec_u64_from_le_bytes, spec_u64_to_le_bytes, u64_from_le_bytes, u64_to_le_bytes};
use vstd::prelude::*;

verus! {

/// The bytes that carry `msg` over a connection.
pub open spec fn framed(msg: Seq<u8>) -> Seq<u8> {
    spec_u64_to_le_bytes(msg.len() as u64) + msg
}

/// Puts the length of `msg` in front of it.
pub fn encode_frame(msg: &[u8]) -> (f: Vec<u8>)
    ensures
        f@ == framed(msg@),
{
    let mut f = u64_to_le_bytes(msg.len() as u64);
    f.extend_from_slice(msg);
    assert(f@ =~= framed(msg@));
    f
}

/// The message length that the eight-byte `header` of a frame announces.
pub fn decode_frame_len(header: &[u8]) -> (n: u64)
    requires
        header@.len() == 8,
    ensures
        n == spec_u64_from_le_bytes(header@),
{
    u64_from_le_bytes(header)
}

/// Reading a frame gives back what was framed: its first eight bytes
/// announce the length of the message, and the rest is the message.
pub proof fn lemma_frame_round_trip(msg: Seq<u8>)
    requires
        msg.len() <= u64::MAX,
    ensures
        framed(msg).len() == msg.len() + 8,
        spec_u64_from_le_bytes(framed(msg).subrange(0, 8)) == msg.len(),
        framed(msg).subrange(8, framed(msg).len() as int) == msg,
{
    vstd::bytes::lemma_auto_spec_u64_to_from_le_bytes();
    let h = spec_u64_to_le_bytes(msg.len() as u64);
    assert(framed(msg).subrange(0, 8) =~= h);
    assert(framed(msg).subrange(8, framed(msg).len() as int) =~= msg);
}

} // verus!
