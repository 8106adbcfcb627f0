//! The layout of datagrams.

use vstd::prelude::*;

use crate::packet::{PacketKind, SeqIndex, SEQ_INDEX_SIZE};

verus! {

/// `bytes` with those from `start` on replaced by `src`.
pub open spec fn overwritten(bytes: Seq<u8>, start: int, src: Seq<u8>) -> Seq<u8> {
    bytes.take(start) + src + bytes.skip(start + src.len())
}

/// The little-endian bytes of a sequence index.
pub open spec fn seq_index_bytes(seq_index: SeqIndex) -> Seq<u8> {
    seq![
        (seq_index % 0x100) as u8,
        (seq_index / 0x100 % 0x100) as u8,
        (seq_index / 0x1_0000 % 0x100) as u8,
        (seq_index / 0x100_0000) as u8,
    ]
}

/// The sequence index that four bytes stand for, the first of them being the least significant.
pub open spec fn seq_index_value(bytes: Seq<u8>) -> int {
    bytes[0] + 0x100 * bytes[1] + 0x1_0000 * bytes[2] + 0x100_0000 * bytes[3]
}

/// What stands in front of the payload of a part.
pub open spec fn part_header(kind: PacketKind, id: Seq<u8>, seq_index: SeqIndex) -> Seq<u8> {
    seq![kind.code()] + id + seq_index_bytes(seq_index)
}

/// The datagram that tells that a packet is done.
pub open spec fn done_datagram(id: Seq<u8>) -> Seq<u8> {
    seq![PacketKind::Done.code()] + id
}

/// Reading the bytes of a sequence index gives back the index, and the bytes of what was read are
/// those that were there.
pub proof fn law_seq_index_round_trip(seq_index: SeqIndex, bytes: Seq<u8>)
    requires
        bytes.len() == SEQ_INDEX_SIZE,
    ensures
        seq_index_bytes(seq_index).len() == SEQ_INDEX_SIZE,
        seq_index_value(seq_index_bytes(seq_index)) == seq_index,
        0 <= seq_index_value(bytes) <= SeqIndex::MAX,
        seq_index_bytes(seq_index_value(bytes) as SeqIndex) == bytes,
{
    let x = seq_index;
    assert(x % 0x100 + 0x100 * (x / 0x100 % 0x100) + 0x1_0000 * (x / 0x1_0000 % 0x100) + 0x100_0000
        * (x / 0x100_0000) == x) by (bit_vector);
    let y = seq_index_value(bytes) as SeqIndex;
    let (b0, b1, b2, b3) = (bytes[0], bytes[1], bytes[2], bytes[3]);
    assert(y % 0x100 == b0 && y / 0x100 % 0x100 == b1 && y / 0x1_0000 % 0x100 == b2 && y / 0x100_0000
        == b3) by (bit_vector)
        requires
            y == b0 + 0x100 * b1 + 0x1_0000 * b2 + 0x100_0000 * b3,
    ;
}

/// Overwrites `dst` with `src`, from the index `start` on.
pub(crate) fn copy_into(dst: &mut [u8], start: usize, src: &[u8])
    requires
        start + src@.len() <= old(dst)@.len(),
    ensures
        final(dst)@ == overwritten(old(dst)@, start as int, src@),
{
    let size: usize = dst.len();
    let mut i: usize = 0;
    while i < src.len()
        invariant
            i <= src@.len(),
            start + src@.len() <= old(dst)@.len() == size,
            dst@ == overwritten(old(dst)@, start as int, src@.take(i as int)),
        decreases src@.len() - i,
    {
        dst[start + i] = src[i];
        i = i + 1;
    }
    assert(src@.take(i as int) == src@);
}

/// Splits a sequence index into its little-endian bytes.
pub(crate) fn seq_index_to_bytes(seq_index: SeqIndex) -> (bytes: [u8; SEQ_INDEX_SIZE])
    ensures
        bytes@ == seq_index_bytes(seq_index),
{
    [
        (seq_index % 0x100) as u8,
        (seq_index / 0x100 % 0x100) as u8,
        (seq_index / 0x1_0000 % 0x100) as u8,
        (seq_index / 0x100_0000) as u8,
    ]
}

/// Puts a sequence index together from its little-endian bytes.
pub(crate) fn seq_index_from_bytes(bytes: &[u8]) -> (seq_index: SeqIndex)
    requires
        bytes@.len() == SEQ_INDEX_SIZE,
    ensures
        seq_index == seq_index_value(bytes@),
{
    bytes[0] as SeqIndex + 0x100 * bytes[1] as SeqIndex + 0x1_0000 * bytes[2] as SeqIndex
        + 0x100_0000 * bytes[3] as SeqIndex
}

} // verus!
