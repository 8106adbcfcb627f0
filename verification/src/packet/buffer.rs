//! The parts of packets.

use core::ops::{Deref, DerefMut};
use rkyv::AlignedBytes;
use vstd::prelude::*;

use crate::packet::aligned::{bytes, bytes_mut, stored_bytes, zeroed};
use crate::packet::wire::{
    copy_into, overwritten, part_header, seq_index_bytes, seq_index_from_bytes,
    seq_index_to_bytes, seq_index_value,
};
use crate::packet::{
    BufferIndex, PacketId, PacketKind, SeqIndex, HEADER_LEN, PACKET_BUFFER_SIZE, PACKET_ID_SIZE,
    PACKET_KIND_SIZE,
};

verus! {

/// One part of a packet, as it goes over the wire.
///
/// Starts with a header, which is followed by as much of the payload as was appended.
pub struct PacketBuffer {
    len: BufferIndex,
    data: AlignedBytes<PACKET_BUFFER_SIZE>,
}

impl View for PacketBuffer {
    type V = Seq<u8>;

    /// The bytes that are sent.
    open spec fn view(&self) -> Seq<u8> {
        self.storage().take(self.length() as int)
    }
}

impl PacketBuffer {
    /// All bytes that the buffer has room for, also those that are not in use.
    pub closed spec fn storage(self) -> Seq<u8> {
        stored_bytes(self.data)
    }

    /// How many bytes of the storage are in use.
    pub closed spec fn length(self) -> nat {
        self.len as nat
    }

    /// The buffer always has room for its header, which is always in use.
    #[verifier::type_invariant]
    pub open spec fn valid(self) -> bool {
        &&& self.storage().len() == PACKET_BUFFER_SIZE
        &&& HEADER_LEN <= self.length() <= PACKET_BUFFER_SIZE
    }

    /// What stands in front of the payload.
    pub open spec fn header(self) -> Seq<u8> {
        self.storage().take(HEADER_LEN as int)
    }

    /// How many more bytes can be appended.
    pub open spec fn space(self) -> nat {
        (PACKET_BUFFER_SIZE - self.length()) as nat
    }

    /// The index that the header holds.
    pub open spec fn seq_index(self) -> int {
        seq_index_value(
            self.storage().subrange(PACKET_KIND_SIZE + PACKET_ID_SIZE, HEADER_LEN as int),
        )
    }
}

/// `storage` with the index in its header replaced.
pub open spec fn with_seq_index(storage: Seq<u8>, seq_index: SeqIndex) -> Seq<u8> {
    overwritten(storage, PACKET_KIND_SIZE + PACKET_ID_SIZE, seq_index_bytes(seq_index))
}

/// `bytes` followed by as many zeros as the storage of a buffer has room for.
pub open spec fn zero_padded(bytes: Seq<u8>) -> Seq<u8> {
    bytes + Seq::new((PACKET_BUFFER_SIZE - bytes.len()) as nat, |i: int| 0u8)
}

/// How much of `data` still fits into a buffer with the given amount of space.
pub open spec fn fitting(data: Seq<u8>, space: nat) -> int {
    if data.len() < space {
        data.len() as int
    } else {
        space as int
    }
}

impl PacketBuffer {
    /// Creates the first part of the packet with the given id, with an empty payload.
    pub fn new(id: PacketId) -> (result: Self)
        ensures
            result.valid(),
            result@ == part_header(PacketKind::Part, id@, 0),
            result.storage() == zero_padded(result@),
    {
        let mut data = zeroed();
        copy_into(bytes_mut(&mut data), 0, &[u8::from(PacketKind::Part)]);
        copy_into(bytes_mut(&mut data), PACKET_KIND_SIZE, id.as_bytes());
        copy_into(bytes_mut(&mut data), PACKET_KIND_SIZE + PACKET_ID_SIZE, &seq_index_to_bytes(0));
        PacketBuffer { len: HEADER_LEN as BufferIndex, data }
    }

    /// Creates a buffer that holds the same bytes.
    pub fn copy(&self) -> (result: Self)
        ensures
            result.valid(),
            result@ == self@,
            result.storage() == zero_padded(self@),
    {
        proof {
            use_type_invariant(self);
        }
        let mut data = zeroed();
        copy_into(bytes_mut(&mut data), 0, self.deref());
        PacketBuffer { len: self.len, data }
    }

    /// Turns a full buffer into the next part of the packet.
    ///
    /// The storage of the payload keeps its bytes, though none of them is in use any more.
    pub fn next(&mut self)
        requires
            old(self).length() == PACKET_BUFFER_SIZE,
            old(self).seq_index() < SeqIndex::MAX,
        ensures
            final(self).valid(),
            final(self).length() == HEADER_LEN,
            final(self).storage() == with_seq_index(
                old(self).storage(),
                (old(self).seq_index() + 1) as SeqIndex,
            ),
    {
        proof {
            use_type_invariant(&*self);
        }
        self.len = HEADER_LEN as BufferIndex;
        self.inc_seq_index();
    }

    /// Marks the part as the one that completes the packet.
    pub fn mark_last(&mut self)
        ensures
            final(self).valid(),
            final(self).length() == old(self).length(),
            final(self).storage() == old(self).storage().update(0, PacketKind::LastPart.code()),
    {
        proof {
            use_type_invariant(&*self);
        }
        bytes_mut(&mut self.data)[0] = u8::from(PacketKind::LastPart);
    }

    /// Appends as much of `data` to the payload as there is space for, and returns the rest.
    pub fn append<'a>(&mut self, data: &'a [u8]) -> (rest: &'a [u8])
        ensures
            final(self).valid(),
            final(self)@ == old(self)@ + data@.take(fitting(data@, old(self).space())),
            final(self).storage() == overwritten(
                old(self).storage(),
                old(self).length() as int,
                data@.take(fitting(data@, old(self).space())),
            ),
            rest@ == data@.skip(fitting(data@, old(self).space())),
    {
        proof {
            use_type_invariant(&*self);
        }
        let end: usize = self.len as usize;
        let space: usize = PACKET_BUFFER_SIZE - end;
        let len: usize = if data.len() < space {
            data.len()
        } else {
            space
        };
        let (fitting, rest) = data.split_at(len);
        copy_into(bytes_mut(&mut self.data), end, fitting);
        self.len = (end + len) as BufferIndex;
        rest
    }

    /// Like [`Self::append`], but takes the bytes that are in the storage already.
    pub fn skip<'a>(&mut self, data: &'a [u8]) -> (rest: &'a [u8])
        ensures
            final(self).valid(),
            final(self).length() == old(self).length() + fitting(data@, old(self).space()),
            final(self).storage() == old(self).storage(),
            rest@ == data@.skip(fitting(data@, old(self).space())),
    {
        proof {
            use_type_invariant(&*self);
        }
        let space: usize = PACKET_BUFFER_SIZE - self.len as usize;
        let len: usize = if data.len() < space {
            data.len()
        } else {
            space
        };
        self.len = (self.len as usize + len) as BufferIndex;
        data.split_at(len).1
    }

    /// Creates the next part of the packet, with an empty payload.
    pub fn new_next(&self) -> (result: Self)
        requires
            self.seq_index() < SeqIndex::MAX,
        ensures
            result.valid(),
            result@ == with_seq_index(self.header(), (self.seq_index() + 1) as SeqIndex),
            result.storage() == zero_padded(result@),
    {
        proof {
            use_type_invariant(self);
        }
        let mut data = zeroed();
        copy_into(bytes_mut(&mut data), 0, bytes(&self.data).as_slice().split_at(HEADER_LEN).0);
        let mut result = PacketBuffer { len: HEADER_LEN as BufferIndex, data };
        result.inc_seq_index();
        result
    }

    /// Increments the index in the header.
    fn inc_seq_index(&mut self)
        requires
            old(self).valid(),
            old(self).seq_index() < SeqIndex::MAX,
        ensures
            final(self).valid(),
            final(self).length() == old(self).length(),
            final(self).storage() == with_seq_index(
                old(self).storage(),
                (old(self).seq_index() + 1) as SeqIndex,
            ),
    {
        let start: usize = PACKET_KIND_SIZE + PACKET_ID_SIZE;
        let next_seq_index: SeqIndex = seq_index_from_bytes(
            &bytes(&self.data).as_slice()[start..HEADER_LEN],
        ) + 1;
        copy_into(bytes_mut(&mut self.data), start, &seq_index_to_bytes(next_seq_index));
    }
}

impl Deref for PacketBuffer {
    type Target = [u8];

    /// The bytes that are sent.
    fn deref(&self) -> (result: &[u8])
        ensures
            result@ == self@,
            self.valid(),
    {
        proof {
            use_type_invariant(self);
        }
        bytes(&self.data).as_slice().split_at(self.len as usize).0
    }
}

impl DerefMut for PacketBuffer {
    /// The bytes that are sent, which can be changed in place.
    fn deref_mut(&mut self) -> (result: &mut [u8])
        ensures
            result@ == old(self)@,
            final(self).valid(),
            final(self).length() == old(self).length(),
            final(self)@ == final(result)@,
            final(self).storage() == final(result)@ + old(self).storage().skip(
                old(self).length() as int,
            ),
    {
        proof {
            use_type_invariant(&*self);
        }
        let len: usize = self.len as usize;
        let data: &mut [u8] = bytes_mut(&mut self.data);
        data.split_at_mut(len).0
    }
}

impl AsRef<[u8]> for PacketBuffer {
    /// The bytes that are sent.
    fn as_ref(&self) -> (result: &[u8])
        ensures
            result@ == self@,
    {
        self.deref()
    }
}

impl AsMut<[u8]> for PacketBuffer {
    /// The bytes that are sent, which can be changed in place.
    fn as_mut(&mut self) -> (result: &mut [u8])
        ensures
            result@ == old(self)@,
            final(self).valid(),
            final(self).length() == old(self).length(),
            final(self)@ == final(result)@,
            final(self).storage() == final(result)@ + old(self).storage().skip(
                old(self).length() as int,
            ),
    {
        self.deref_mut()
    }
}

} // verus!
