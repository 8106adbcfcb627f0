//! Packets, which are split into parts that each fit into a single datagram.

use vstd::prelude::*;

pub mod aligned;
pub mod buffer;
pub mod channel;
pub mod clock;
pub mod laws;
pub mod meaning;
pub mod queue;
pub mod send;
pub mod serialize;
pub mod socket;
pub mod wire;

verus! {

/// How many packets are sent at once.
pub type BatchSize = u16;

/// Position inside a packet buffer.
pub type BufferIndex = u16;

/// Position of a part within the packet that it belongs to.
pub type SeqIndex = u32;

/// Number of bytes that a packet kind takes on the wire.
pub const PACKET_KIND_SIZE: usize = 1;

/// Number of bytes that a packet id takes on the wire.
pub const PACKET_ID_SIZE: usize = 16;

/// Number of bytes that a sequence index takes on the wire.
pub const SEQ_INDEX_SIZE: usize = 4;

/// Number of bytes in front of the payload of every part.
pub const HEADER_LEN: usize = PACKET_KIND_SIZE + PACKET_ID_SIZE + SEQ_INDEX_SIZE;

/// Size of the datagram that tells that a packet is done.
pub const DONE_DATAGRAM_SIZE: usize = PACKET_KIND_SIZE + PACKET_ID_SIZE;

/// Size of the largest datagram that is sent.
///
/// Fits into the smallest packet that every IPv6 link has to carry.
pub const PACKET_BUFFER_SIZE: usize = 1232;

/// Number of payload bytes that a full part carries.
pub const PART_PACKET_PAYLOAD_SIZE: usize = PACKET_BUFFER_SIZE - HEADER_LEN;

/// The first byte of every datagram, which tells what the rest of it means.
#[derive(Clone, Copy, Debug, PartialEq, Eq, Structural)]
pub enum PacketKind {
    /// One part of a packet, with more parts to follow.
    Part,
    /// The part that completes a packet.
    LastPart,
    /// Tells that no more parts of a packet are going to be sent.
    Done,
}

impl PacketKind {
    /// The byte that stands for the kind on the wire.
    pub open spec fn code(self) -> u8 {
        match self {
            PacketKind::Part => 0,
            PacketKind::LastPart => 1,
            PacketKind::Done => 2,
        }
    }
}

impl From<PacketKind> for u8 {
    fn from(kind: PacketKind) -> (code: u8) {
        match kind {
            PacketKind::Part => 0,
            PacketKind::LastPart => 1,
            PacketKind::Done => 2,
        }
    }
}

impl vstd::std_specs::convert::FromSpecImpl<PacketKind> for u8 {
    open spec fn obeys_from_spec() -> bool {
        true
    }

    open spec fn from_spec(kind: PacketKind) -> u8 {
        kind.code()
    }
}

/// Identifies a packet, no matter how many parts it is split into.
#[derive(Clone, Copy, Debug)]
pub struct PacketId {
    bytes: [u8; PACKET_ID_SIZE],
}

impl View for PacketId {
    type V = Seq<u8>;

    closed spec fn view(&self) -> Seq<u8> {
        self.bytes@
    }
}

impl PacketId {
    /// Wraps the bytes that identify a packet.
    pub fn from_bytes(bytes: [u8; PACKET_ID_SIZE]) -> (id: PacketId)
        ensures
            id@ == bytes@,
    {
        PacketId { bytes }
    }

    /// Returns the bytes that identify the packet.
    pub fn as_bytes(&self) -> (bytes: &[u8; PACKET_ID_SIZE])
        ensures
            bytes@ == self@,
    {
        &self.bytes
    }
}

/// A batch size that is not zero.
#[derive(Clone, Copy, Debug)]
pub struct NonZeroBatchSize {
    value: BatchSize,
}

impl View for NonZeroBatchSize {
    type V = BatchSize;

    closed spec fn view(&self) -> BatchSize {
        self.value
    }
}

impl NonZeroBatchSize {
    #[verifier::type_invariant]
    spec fn not_zero(self) -> bool {
        self.value != 0
    }

    /// Wraps a batch size, unless it is zero.
    pub fn new(value: BatchSize) -> (result: Option<NonZeroBatchSize>)
        ensures
            match result {
                Some(batch_size) => value != 0 && batch_size@ == value,
                None => value == 0,
            },
    {
        if value == 0 {
            None
        } else {
            Some(NonZeroBatchSize { value })
        }
    }

    /// Wraps a batch size, or one in place of zero.
    pub fn at_least_one(value: BatchSize) -> (result: NonZeroBatchSize)
        ensures
            result@ == if value == 0 {
                1
            } else {
                value
            },
    {
        match NonZeroBatchSize::new(value) {
            Some(batch_size) => batch_size,
            None => NonZeroBatchSize { value: 1 },
        }
    }

    /// Returns the wrapped batch size.
    pub fn get(self) -> (value: BatchSize)
        ensures
            value == self@,
            value != 0,
    {
        proof {
            use_type_invariant(&self);
        }
        self.value
    }
}

/// The error for an ack of a packet part that was not there to be sent yet.
#[derive(Clone, Copy, Debug, PartialEq, Eq, Structural)]
pub struct SeqIndexAckedBeforeSent {
    /// The index that was acked.
    pub seq_index: SeqIndex,
}

} // verus!
