//! Packs a launch counter into the fixed eight-byte little-endian form the
//! history store keeps on disk, and unpacks it again.

use vstd::prelude::*;

verus! {

/// The eight little-endian bytes of `data`.
pub open spec fn pack_spec(data: u64) -> Seq<u8> {
    seq![
        (data & 0xFF) as u8,
        ((data >> 8) & 0xFF) as u8,
        ((data >> 16) & 0xFF) as u8,
        ((data >> 24) & 0xFF) as u8,
        ((data >> 32) & 0xFF) as u8,
        ((data >> 40) & 0xFF) as u8,
        ((data >> 48) & 0xFF) as u8,
        ((data >> 56) & 0xFF) as u8,
    ]
}

/// The counter read from eight little-endian bytes.
pub open spec fn unpack_spec(buffer: Seq<u8>) -> u64
    recommends
        buffer.len() == 8,
{
    (buffer[0] as u64) | ((buffer[1] as u64) << 8) | ((buffer[2] as u64) << 16) | ((
    buffer[3] as u64) << 24) | ((buffer[4] as u64) << 32) | ((buffer[5] as u64) << 40) | ((
    buffer[6] as u64) << 48) | ((buffer[7] as u64) << 56)
}

/// Packs a `u64` into an eight-byte little-endian array.
pub fn pack(data: u64) -> (buffer: [u8; 8])
    ensures
        buffer@ == pack_spec(data),
{
    let buffer: [u8; 8] = [
        (data & 0xFF) as u8,
        ((data >> 8) & 0xFF) as u8,
        ((data >> 16) & 0xFF) as u8,
        ((data >> 24) & 0xFF) as u8,
        ((data >> 32) & 0xFF) as u8,
        ((data >> 40) & 0xFF) as u8,
        ((data >> 48) & 0xFF) as u8,
        ((data >> 56) & 0xFF) as u8,
    ];
    proof {
        assert(buffer@ =~= pack_spec(data));
    }
    buffer
}

/// Unpacks an eight-byte little-endian array into the `u64` it encodes.
pub fn unpack(buffer: [u8; 8]) -> (data: u64)
    ensures
        data == unpack_spec(buffer@),
{
    (buffer[0] as u64) | ((buffer[1] as u64) << 8) | ((buffer[2] as u64) << 16) | ((
    buffer[3] as u64) << 24) | ((buffer[4] as u64) << 32) | ((buffer[5] as u64) << 40) | ((
    buffer[6] as u64) << 48) | ((buffer[7] as u64) << 56)
}

/// A counter packed into bytes unpacks to the same counter.
pub proof fn lemma_pack_unpack(data: u64)
    ensures
        unpack_spec(pack_spec(data)) == data,
{
    assert((((data & 0xFF) as u8) as u64) | ((((data >> 8) & 0xFF) as u8) as u64) << 8 | ((((data
        >> 16) & 0xFF) as u8) as u64) << 16 | ((((data >> 24) & 0xFF) as u8) as u64) << 24 | ((((
    data >> 32) & 0xFF) as u8) as u64) << 32 | ((((data >> 40) & 0xFF) as u8) as u64) << 40 | ((((
    data >> 48) & 0xFF) as u8) as u64) << 48 | ((((data >> 56) & 0xFF) as u8) as u64) << 56
        == data) by (bit_vector);
}

} // verus!
