//! Stream framing for connections: each frame is a 4-byte little-endian length
//! followed by that many bytes.

use vstd::prelude::*;
use crate::wire::{le_u32_bytes, lemma_read32, put_slice, put_u32_le, read_u32_at};

verus! {

/// The frame of `data`: its length (modulo 2^32), then the data.
pub open spec fn frame_of(data: Seq<u8>) -> Seq<u8> {
    le_u32_bytes(data.len() as u32) + data
}

/// Frames data for sending.
pub fn length_prefixed(data: &[u8]) -> (f: Vec<u8>)
    ensures
        f@ == frame_of(data@),
{
    let mut f: Vec<u8> = Vec::new();
    put_u32_le(&mut f, data.len() as u32);
    put_slice(&mut f, data);
    assert(f@ =~= frame_of(data@));
    f
}

/// The data length a received 4-byte prefix announces.
pub fn frame_length(prefix: &Vec<u8>) -> (n: usize)
    requires
        prefix@.len() == 4,
    ensures
        n == read_u32_at(prefix@, 0),
{
    crate::wire::get_u32(prefix, 0) as usize
}

/// The prefix of a frame announces the length of its data, for data of at most
/// 2^32 - 1 bytes.
pub proof fn law_prefix_announces_length(data: Seq<u8>)
    requires
        data.len() <= u32::MAX,
    ensures
        read_u32_at(frame_of(data).take(4), 0) == data.len(),
        frame_of(data).skip(4) == data,
{
    let f = frame_of(data);
    assert(f.take(4).subrange(0, 4) =~= le_u32_bytes(data.len() as u32));
    lemma_read32(f.take(4), 0, data.len() as u32);
    assert(f.skip(4) =~= data);
}

} // verus!
