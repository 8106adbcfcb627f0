//! The parts that still have to be acked.

use std::collections::VecDeque;
use std::ops::Deref;
use vstd::prelude::*;

use crate::packet::buffer::PacketBuffer;
use crate::packet::channel::{delivered_since, received, Inbox};
use crate::packet::serialize::SerializedPacket;
use crate::packet::socket::{continued, exchanges_since, Exchange, NonBlocking, Outbox};
use crate::packet::{BatchSize, NonZeroBatchSize, SeqIndex, SeqIndexAckedBeforeSent, HEADER_LEN};

verus! {

/// What a queue knows of a single part of the packet.
#[verifier::ext_equal]
pub struct Part {
    /// The datagram of the part.
    pub bytes: Seq<u8>,
    /// Whether the part was acked.
    pub acked: bool,
}

/// The parts of a packet, in the order of their indices.
#[verifier::ext_equal]
pub struct Queue {
    /// How many parts were removed from the front.
    pub first_unacked: nat,
    /// The parts that are left, the first of which has the index [`Self::first_unacked`].
    pub parts: Seq<Part>,
}

/// The number of acked parts in front of the first one that is not acked.
pub open spec fn leading_acked(parts: Seq<Part>) -> nat
    decreases parts.len(),
{
    if parts.len() > 0 && parts[0].acked {
        1 + leading_acked(parts.skip(1))
    } else {
        0
    }
}

/// Trimming removes acked parts only, and all of those at the front.
pub(crate) proof fn lemma_leading_acked(parts: Seq<Part>)
    ensures
        leading_acked(parts) <= parts.len(),
        forall|i: int| 0 <= i < leading_acked(parts) ==> (#[trigger] parts[i]).acked,
        leading_acked(parts) < parts.len() ==> !parts[leading_acked(parts) as int].acked,
    decreases parts.len(),
{
    if parts.len() > 0 && parts[0].acked {
        let rest = parts.skip(1);
        lemma_leading_acked(rest);
        assert forall|i: int| 0 <= i < leading_acked(parts) implies (#[trigger] parts[i]).acked by {
            if i > 0 {
                assert(rest[i - 1].acked);
            }
        }
    }
}

/// The datagrams of all parts that are not acked.
pub open spec fn unacked_datagrams(parts: Seq<Part>) -> Seq<Seq<u8>> {
    parts.filter(|part: Part| !part.acked).map_values(|part: Part| part.bytes)
}

/// The unacked datagrams of two lots of parts are those of both, one after the other.
pub(crate) proof fn lemma_unacked_add(a: Seq<Part>, b: Seq<Part>)
    ensures
        unacked_datagrams(a + b) == unacked_datagrams(a) + unacked_datagrams(b),
{
    Seq::filter_distributes_over_add(a, b, |part: Part| !part.acked);
}

/// The unacked datagrams up to some part are the first ones, and the next part adds its own.
pub(crate) proof fn lemma_unacked_step(parts: Seq<Part>, i: int)
    requires
        0 <= i <= parts.len(),
    ensures
        unacked_datagrams(parts) == unacked_datagrams(parts.take(i)) + unacked_datagrams(
            parts.skip(i),
        ),
        i < parts.len() ==> unacked_datagrams(parts.take(i + 1)) == if parts[i].acked {
            unacked_datagrams(parts.take(i))
        } else {
            unacked_datagrams(parts.take(i)).push(parts[i].bytes)
        },
{
    assert(parts == parts.take(i) + parts.skip(i));
    lemma_unacked_add(parts.take(i), parts.skip(i));
    if i < parts.len() {
        let unacked = |part: Part| !part.acked;
        assert(parts.take(i + 1) == parts.take(i).push(parts[i]));
        parts.take(i).lemma_filter_push(parts[i], unacked);
    }
}

/// At most `count` of the given datagrams, starting with the first one.
pub open spec fn up_to(datagrams: Seq<Seq<u8>>, count: nat) -> Seq<Seq<u8>> {
    if count < datagrams.len() {
        datagrams.take(count as int)
    } else {
        datagrams
    }
}

impl Queue {
    /// Acked parts are never left at the front, and every part has a header.
    pub open spec fn valid(self) -> bool {
        &&& self.parts.len() > 0 ==> !self.parts[0].acked
        &&& forall|i: int|
            0 <= i < self.parts.len() ==> (#[trigger] self.parts[i]).bytes.len() >= HEADER_LEN
    }

    /// The number of parts that were ever in the queue, which is the index of the next one.
    pub open spec fn total(self) -> nat {
        self.first_unacked + self.parts.len()
    }

    /// Whether the part with the given index was acked.
    pub open spec fn is_acked(self, seq_index: int) -> bool {
        if seq_index < self.first_unacked {
            true
        } else {
            seq_index < self.total() && self.parts[seq_index - self.first_unacked].acked
        }
    }

    /// The datagrams of the parts that still have to be acked.
    pub open spec fn unacked(self) -> Seq<Seq<u8>> {
        unacked_datagrams(self.parts)
    }

    /// The queue without the acked parts at its front.
    pub open spec fn trimmed(self) -> Queue {
        let count = leading_acked(self.parts);
        Queue { first_unacked: self.first_unacked + count, parts: self.parts.skip(count as int) }
    }

    /// The queue after the part with the given index was acked.
    pub open spec fn acknowledged(self, seq_index: int) -> Queue {
        if self.first_unacked <= seq_index < self.total() {
            let index = seq_index - self.first_unacked;
            let acked = Part { bytes: self.parts[index].bytes, acked: true };
            Queue {
                first_unacked: self.first_unacked,
                parts: self.parts.update(index, acked),
            }.trimmed()
        } else {
            self
        }
    }

    /// The queue after more packets were put at its end.
    pub open spec fn extended(self, packets: Seq<PacketBuffer>) -> Queue {
        Queue {
            first_unacked: self.first_unacked,
            parts: self.parts + packets.map_values(
                |packet: PacketBuffer| Part { bytes: packet@, acked: false },
            ),
        }
    }

    /// How many more packets are needed to send `count` of them.
    pub open spec fn missing(self, count: nat) -> nat {
        (count - up_to(self.unacked(), count).len()) as nat
    }
}

/// `after` is `before` with everything that the channel provided when it was asked for what was
/// missing to send `count` packets.
pub open spec fn refilled(
    before: Queue,
    after: Queue,
    inbox_before: Option<Inbox>,
    inbox_after: Option<Inbox>,
    count: nat,
) -> bool {
    &&& received(inbox_before, inbox_after, before.missing(count))
    &&& after == before.extended(delivered_since(inbox_before, inbox_after))
}

/// The datagrams were sent one after the other, each of them once, until one was not taken.
pub open spec fn batch_exchanged(datagrams: Seq<Seq<u8>>, exchanges: Seq<Exchange>) -> bool {
    &&& exchanges.len() <= datagrams.len()
    &&& forall|i: int|
        0 <= i < exchanges.len() ==> (#[trigger] exchanges[i]).datagram == datagrams[i]
    &&& forall|i: int| 0 <= i < exchanges.len() - 1 ==> (#[trigger] exchanges[i]).taken()
    &&& exchanges.len() < datagrams.len() ==> exchanges.len() > 0 && !exchanges.last().taken()
}

/// What a batch comes to: the number of datagrams that were taken, and whether all of them were.
pub open spec fn batch_result(exchanges: Seq<Exchange>) -> std::io::Result<(BatchSize, bool)> {
    if exchanges.len() == 0 {
        Ok((0, true))
    } else {
        match exchanges.last().reply {
            Ok(true) => Ok((exchanges.len() as BatchSize, true)),
            Ok(false) => Ok(((exchanges.len() - 1) as BatchSize, false)),
            Err(error) => Err(error),
        }
    }
}

/// The queue that a packet starts with.
pub open spec fn initial_queue(packet: SerializedPacket) -> Queue {
    let empty = Queue { first_unacked: 0, parts: seq![] };
    match packet {
        SerializedPacket::Vec(packets) => empty.extended(packets@),
        SerializedPacket::Channel(_) => empty,
    }
}

/// The channel that provides the parts that a packet does not start with.
pub open spec fn initial_channel(packet: SerializedPacket) -> Option<Inbox> {
    match packet {
        SerializedPacket::Vec(_) => None,
        SerializedPacket::Channel(inbox) => Some(inbox),
    }
}

/// A packet in the queue.
struct QueuedPacket {
    acked: bool,
    packet: PacketBuffer,
}

impl View for QueuedPacket {
    type V = Part;

    closed spec fn view(&self) -> Part {
        Part { bytes: self.packet@, acked: self.acked }
    }
}

/// The parts of a packet that still have to be acked, and where to get more of them.
pub struct PacketQueue {
    /// A buffer with packets that have not yet been acked.
    ///
    /// Any front packets that are acked are removed while incrementing [`Self::first_unacked`].
    packets: VecDeque<QueuedPacket>,
    /// The index of the first unacked packet, i.e. the offset to add onto [`Self::packets`].
    first_unacked: usize,
    /// A channel that provides additional packet buffers to chain onto [`Self::packets`].
    ///
    /// These packets are generated on a separate thread.
    rx: Option<Inbox>,
}

impl View for PacketQueue {
    type V = Queue;

    closed spec fn view(&self) -> Queue {
        Queue {
            first_unacked: self.first_unacked as nat,
            parts: self.packets@.map_values(|packet: QueuedPacket| packet@),
        }
    }
}

/// Calls `VecDeque::get_mut`, which gives access to the element at the given index, if there is
/// one: what is written through the result is what the element is afterwards.
#[verifier::external_body]
fn get_mut<T>(deque: &mut VecDeque<T>, index: usize) -> (result: Option<&mut T>)
    ensures
        match result {
            Some(element) => {
                &&& index < old(deque)@.len()
                &&& *element == old(deque)@[index as int]
                &&& final(deque)@ == old(deque)@.update(index as int, *final(element))
            },
            None => index >= old(deque)@.len() && final(deque)@ == old(deque)@,
        },
{
    deque.get_mut(index)
}

impl PacketQueue {
    /// The channel that provides additional packets, with a record of what it has provided.
    pub closed spec fn channel(self) -> Option<Inbox> {
        self.rx
    }

    /// Takes over the parts of a packet, none of which is acked yet.
    pub fn new(packet: SerializedPacket) -> (result: Self)
        ensures
            result@.valid(),
            result@ == initial_queue(packet),
            result.channel() == initial_channel(packet),
            result@.first_unacked == 0,
            match packet {
                SerializedPacket::Vec(packets) => {
                    &&& result.channel() is None
                    &&& result@.parts.len() == packets@.len()
                    &&& forall|i: int|
                        0 <= i < packets@.len() ==> !(#[trigger] result@.parts[i]).acked
                            && result@.parts[i].bytes == packets@[i]@
                },
                SerializedPacket::Channel(rx) => {
                    &&& result.channel() == Some(rx)
                    &&& result@.parts.len() == 0
                },
            },
    {
        match packet {
            SerializedPacket::Vec(packets) => {
                let mut remaining = packets;
                let mut queued: VecDeque<QueuedPacket> = VecDeque::new();
                while remaining.len() > 0
                    invariant
                        remaining@.len() + queued@.len() == packets@.len(),
                        remaining@ == packets@.take(remaining@.len() as int),
                        forall|i: int|
                            0 <= i < queued@.len() ==> (#[trigger] queued@[i]) == (QueuedPacket {
                                acked: false,
                                packet: packets@[remaining@.len() + i],
                            }) && queued@[i].packet.valid(),
                    decreases remaining@.len(),
                {
                    if let Some(packet) = remaining.pop() {
                        proof {
                            use_type_invariant(&packet);
                        }
                        queued.push_front(QueuedPacket { acked: false, packet });
                    }
                }
                PacketQueue { packets: queued, first_unacked: 0, rx: None }
            },
            SerializedPacket::Channel(rx) => {
                PacketQueue { packets: VecDeque::new(), first_unacked: 0, rx: Some(rx) }
            },
        }
    }

    /// Marks the packet as acked and returns true if it was already acked previously.
    pub fn ack(&mut self, seq_index: SeqIndex) -> (result: Result<bool, SeqIndexAckedBeforeSent>)
        requires
            old(self)@.valid(),
            old(self)@.total() <= usize::MAX,
        ensures
            final(self)@.valid(),
            final(self)@ == old(self)@.acknowledged(seq_index as int),
            final(self).channel() == old(self).channel(),
            result == Ok::<bool, SeqIndexAckedBeforeSent>(false) <==> {
                &&& old(self)@.first_unacked <= seq_index
                &&& seq_index < old(self)@.first_unacked + old(self)@.parts.len()
                &&& !old(self)@.parts[seq_index - old(self)@.first_unacked].acked
            },
            match result {
                Ok(already) => {
                    &&& seq_index < old(self)@.total()
                    &&& already == old(self)@.is_acked(seq_index as int)
                },
                Err(error) => {
                    &&& seq_index >= old(self)@.total()
                    &&& error == SeqIndexAckedBeforeSent { seq_index }
                },
            },
    {
        if (seq_index as usize) < self.first_unacked {
            return Ok(true);
        }
        let index: usize = seq_index as usize - self.first_unacked;
        match get_mut(&mut self.packets, index) {
            Some(packet) => {
                if packet.acked {
                    assert(self@.parts == old(self)@.parts);
                    return Ok(true);
                }
                packet.acked = true;
            },
            None => return Err(SeqIndexAckedBeforeSent { seq_index }),
        }
        assert(self@.parts == old(self)@.parts.update(
            index as int,
            Part { bytes: old(self)@.parts[index as int].bytes, acked: true },
        ));
        while self.packets.len() > 0 && self.packets[0].acked
            invariant
                self@.total() == old(self)@.total() <= usize::MAX,
                self@.trimmed() == old(self)@.acknowledged(seq_index as int),
                self.channel() == old(self).channel(),
            decreases self.packets@.len(),
        {
            let ghost before = self@;
            self.packets.pop_front();
            self.first_unacked = self.first_unacked + 1;
            assert(self@.parts == before.parts.skip(1));
            proof {
                lemma_leading_acked(before.parts);
            }
            assert(self@.trimmed() == before.trimmed());
        }
        assert(self@.trimmed() == self@);
        Ok(false)
    }

    /// Returns the index of the first unacked packet.
    pub fn first_unacked(&self) -> (result: usize)
        ensures
            result == self@.first_unacked,
    {
        self.first_unacked
    }

    /// Returns whether the number of packets that were ever in the queue can be told, so that acks
    /// can be taken.
    pub fn can_ack(&self) -> (result: bool)
        ensures
            result == (self@.total() <= usize::MAX),
    {
        self.packets.len() <= usize::MAX - self.first_unacked
    }

    /// Counts the packets that are not acked, but never more than `limit`.
    fn count_unacked(&self, limit: usize) -> (result: usize)
        ensures
            result == up_to(self@.unacked(), limit as nat).len(),
    {
        let mut result: usize = 0;
        let mut i: usize = 0;
        assert(unacked_datagrams(self@.parts.take(0)) == Seq::<Seq<u8>>::empty()) by {
            reveal(Seq::filter);
        }
        while i < self.packets.len() && result < limit
            invariant
                i <= self.packets@.len(),
                result <= limit,
                result == unacked_datagrams(self@.parts.take(i as int)).len(),
            decreases self.packets@.len() - i,
        {
            proof {
                lemma_unacked_step(self@.parts, i as int);
            }
            if !self.packets[i].acked {
                result = result + 1;
            }
            i = i + 1;
        }
        proof {
            lemma_unacked_step(self@.parts, i as int);
            if i == self.packets@.len() {
                assert(self@.parts.take(i as int) == self@.parts);
            }
        }
        result
    }

    /// Puts the packets that are missing to send `count` of them at the end of the queue, as far as
    /// the channel provides them.
    fn refill(&mut self, count: usize)
        requires
            old(self)@.valid(),
        ensures
            final(self)@.valid(),
            final(self)@.parts.len() <= usize::MAX,
            refilled(
                old(self)@,
                final(self)@,
                old(self).channel(),
                final(self).channel(),
                count as nat,
            ),
    {
        assert(self@ == old(self)@.extended(Seq::empty()));
        if let Some(inbox) = self.rx.take() {
            let mut inbox = inbox;
            let ghost earlier = inbox;
            assert(delivered_since(Some(earlier), Some(inbox)) == Seq::<PacketBuffer>::empty());
            let existing: usize = self.count_unacked(count);
            let mut i: usize = existing;
            while i < count
                invariant_except_break
                    received(Some(earlier), Some(inbox), (i - existing) as nat),
                    inbox@.hung_up == earlier@.hung_up,
                    delivered_since(Some(earlier), Some(inbox)).len() == i - existing,
                invariant
                    existing <= i <= count,
                    existing == up_to(old(self)@.unacked(), count as nat).len(),
                    self@.valid(),
                    self@ == old(self)@.extended(delivered_since(Some(earlier), Some(inbox))),
                ensures
                    received(Some(earlier), Some(inbox), (count - existing) as nat),
                decreases count - i,
            {
                let ghost so_far = delivered_since(Some(earlier), Some(inbox));
                match inbox.recv() {
                    Some(packet) => {
                        let ghost parts = self@.parts;
                        let ghost part = Part { bytes: packet@, acked: false };
                        assert(delivered_since(Some(earlier), Some(inbox)) == so_far.push(packet));
                        self.packets.push_back(QueuedPacket { acked: false, packet });
                        assert(self@.parts == parts.push(part));
                        assert(self@ == old(self)@.extended(so_far.push(packet)));
                    },
                    None => break,
                }
                i = i + 1;
            }
            self.rx = Some(inbox);
        }
        assert(self@.parts.len() == self.packets.len());
    }

    /// Returns the datagrams of up to `count` packets that are not acked.
    ///
    /// Waits for the channel to provide them if there are not enough.
    pub fn unacked(&mut self, count: usize) -> (result: Vec<&[u8]>)
        requires
            old(self)@.valid(),
        ensures
            final(self)@.valid(),
            final(self)@.parts.len() <= usize::MAX,
            refilled(
                old(self)@,
                final(self)@,
                old(self).channel(),
                final(self).channel(),
                count as nat,
            ),
            result@.map_values(|datagram: &[u8]| datagram@) == up_to(
                final(self)@.unacked(),
                count as nat,
            ),
    {
        self.refill(count);
        let mut result: Vec<&[u8]> = Vec::new();
        let mut i: usize = 0;
        assert(unacked_datagrams(self@.parts.take(0)) == Seq::<Seq<u8>>::empty()) by {
            reveal(Seq::filter);
        }
        while i < self.packets.len() && result.len() < count
            invariant
                i <= self.packets@.len(),
                result@.len() <= count,
                result@.map_values(|datagram: &[u8]| datagram@) == unacked_datagrams(
                    self@.parts.take(i as int),
                ),
            decreases self.packets@.len() - i,
        {
            proof {
                lemma_unacked_step(self@.parts, i as int);
            }
            let ghost before = result@;
            if !self.packets[i].acked {
                result.push(self.packets[i].packet.deref());
                assert(result@.map_values(|datagram: &[u8]| datagram@) == before.map_values(
                    |datagram: &[u8]| datagram@,
                ).push(self@.parts[i as int].bytes));
            }
            i = i + 1;
        }
        proof {
            lemma_unacked_step(self@.parts, i as int);
            if i == self.packets@.len() {
                assert(self@.parts.take(i as int) == self@.parts);
            }
        }
        result
    }

    /// Sends up to `batch_size` packets.
    ///
    /// Returns the number of packets that were actually sent and `true` if none of the send calls
    /// would have blocked.
    ///
    /// Therefore, `Ok((0, true))` means that all packets are acked.
    pub fn send_unacked<S: NonBlocking>(
        &mut self,
        batch_size: NonZeroBatchSize,
        outbox: &mut Outbox<S>,
    ) -> (result: std::io::Result<(BatchSize, bool)>)
        requires
            old(self)@.valid(),
        ensures
            final(self)@.valid(),
            final(self)@.parts.len() <= usize::MAX,
            refilled(
                old(self)@,
                final(self)@,
                old(self).channel(),
                final(self).channel(),
                batch_size@ as nat,
            ),
            continued(*old(outbox), *final(outbox)),
            batch_exchanged(
                up_to(final(self)@.unacked(), batch_size@ as nat),
                exchanges_since(*old(outbox), *final(outbox)),
            ),
            result == batch_result(exchanges_since(*old(outbox), *final(outbox))),
            ({
                let before = old(outbox).record();
                let after = final(outbox).record();
                let unacked = final(self)@.unacked();
                &&& before.len() <= after.len() <= before.len() + unacked.len()
                &&& forall|i: int| 0 <= i < before.len() ==> #[trigger] after[i] == before[i]
                &&& forall|i: int|
                    before.len() <= i < after.len() ==> (#[trigger] after[i]).datagram == unacked[i
                        - before.len()]
            }),
    {
        let limit: usize = batch_size.get() as usize;
        let datagrams = self.unacked(limit);
        let ghost expected = datagrams@.map_values(|datagram: &[u8]| datagram@);
        let mut count: BatchSize = 0;
        assert(exchanges_since(*old(outbox), *outbox) == Seq::<Exchange>::empty());
        #[verifier::loop_isolation(false)]
        while (count as usize) < datagrams.len()
            invariant
                count <= datagrams@.len() <= limit <= BatchSize::MAX,
                continued(*old(outbox), *outbox),
                exchanges_since(*old(outbox), *outbox).len() == count,
                forall|i: int|
                    0 <= i < count ==> (#[trigger] exchanges_since(*old(outbox), *outbox)[i]).taken()
                        && exchanges_since(*old(outbox), *outbox)[i].datagram == expected[i],
            decreases datagrams@.len() - count,
        {
            let ghost so_far = exchanges_since(*old(outbox), *outbox);
            let reply = outbox.send(datagrams[count as usize]);
            assert(exchanges_since(*old(outbox), *outbox) == so_far.push(
                Exchange { datagram: expected[count as int], reply },
            ));
            match reply {
                Ok(true) => {},
                Ok(false) => return Ok((count, false)),
                Err(error) => return Err(error),
            }
            count = count + 1;
        }
        Ok((count, true))
    }
}

} // verus!
