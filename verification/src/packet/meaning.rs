//! What the words of the contracts mean, in terms of indices, bytes and fields.

use std::time::Instant;
use vstd::prelude::*;

use crate::packet::buffer::{fitting, with_seq_index, zero_padded, PacketBuffer};
use crate::packet::channel::{delivered_since, received, Inbox};
use crate::packet::clock::clock_can_show;
use crate::packet::queue::{
    batch_exchanged, batch_result, initial_channel, initial_queue, lemma_unacked_step, refilled,
    unacked_datagrams, up_to, Part, Queue,
};
use crate::packet::send::{balanced, Outgoing};
use crate::packet::serialize::SerializedPacket;
use crate::packet::socket::{continued, exchanges_since, Exchange, NonBlocking, Outbox};
use crate::packet::wire::{
    done_datagram, overwritten, part_header, seq_index_bytes, seq_index_value,
};
use crate::packet::{
    BatchSize, PacketKind, SeqIndex, DONE_DATAGRAM_SIZE, HEADER_LEN, PACKET_BUFFER_SIZE,
    PACKET_ID_SIZE, PACKET_KIND_SIZE, PART_PACKET_PAYLOAD_SIZE, SEQ_INDEX_SIZE,
};

verus! {

/// Overwriting keeps the number of bytes, and turns those from `start` on into `src`, and no other.
pub proof fn law_overwritten(bytes: Seq<u8>, start: int, src: Seq<u8>)
    requires
        0 <= start,
        start + src.len() <= bytes.len(),
    ensures
        overwritten(bytes, start, src).len() == bytes.len(),
        forall|i: int|
            start <= i < start + src.len() ==> #[trigger] overwritten(bytes, start, src)[i] == src[i
                - start],
        forall|i: int|
            0 <= i < start || start + src.len() <= i < bytes.len() ==> #[trigger] overwritten(
                bytes,
                start,
                src,
            )[i] == bytes[i],
{
}

/// A sequence index is written with its least significant byte first.
pub proof fn law_seq_index_is_little_endian(seq_index: SeqIndex)
    ensures
        seq_index_bytes(seq_index).len() == 4,
        seq_index_bytes(seq_index)[0] == seq_index % 0x100,
        seq_index_bytes(seq_index)[1] == seq_index / 0x100 % 0x100,
        seq_index_bytes(seq_index)[2] == seq_index / 0x1_0000 % 0x100,
        seq_index_bytes(seq_index)[3] == seq_index / 0x100_0000 % 0x100,
        forall|bytes: Seq<u8>| #[trigger]
            seq_index_value(bytes) == bytes[0] + 0x100 * bytes[1] + 0x1_0000 * bytes[2]
                + 0x100_0000 * bytes[3],
{
}

/// What a datagram has room for is its header, and as much of the payload as is left for it.
pub proof fn law_sizes()
    ensures
        PACKET_KIND_SIZE == 1,
        PACKET_ID_SIZE == 16,
        SEQ_INDEX_SIZE == 4,
        HEADER_LEN == 1 + 16 + 4,
        DONE_DATAGRAM_SIZE == 1 + 16,
        HEADER_LEN + PART_PACKET_PAYLOAD_SIZE == PACKET_BUFFER_SIZE,
{
}

/// The kinds are numbered.
pub proof fn law_kind_codes()
    ensures
        PacketKind::Part.code() == 0,
        PacketKind::LastPart.code() == 1,
        PacketKind::Done.code() == 2,
{
}

/// A header is a byte for the kind, the id, and the index.
pub proof fn law_header_layout(kind: PacketKind, id: Seq<u8>, seq_index: SeqIndex)
    requires
        id.len() == 16,
    ensures
        part_header(kind, id, seq_index).len() == HEADER_LEN == 21,
        part_header(kind, id, seq_index)[0] == kind.code(),
        forall|i: int| 0 <= i < 16 ==> #[trigger] part_header(kind, id, seq_index)[1 + i] == id[i],
        forall|i: int|
            0 <= i < 4 ==> #[trigger] part_header(kind, id, seq_index)[17 + i] == seq_index_bytes(
                seq_index,
            )[i],
{
}

/// The datagram that tells that a packet is done is a byte for the kind, and the id.
pub proof fn law_done_layout(id: Seq<u8>)
    requires
        id.len() == 16,
    ensures
        done_datagram(id).len() == 17,
        done_datagram(id)[0] == PacketKind::Done.code(),
        forall|i: int| 0 <= i < 16 ==> #[trigger] done_datagram(id)[1 + i] == id[i],
{
}

/// What is sent are the bytes at the front of the storage, which begin with the header. The index is
/// read from the last four bytes of the header, and what is not in use can still be filled.
pub proof fn law_buffer_layout(buffer: PacketBuffer)
    requires
        buffer.valid(),
    ensures
        buffer.storage().len() == PACKET_BUFFER_SIZE,
        21 <= buffer.length() <= PACKET_BUFFER_SIZE,
        buffer@.len() == buffer.length(),
        forall|i: int| 0 <= i < buffer.length() ==> #[trigger] buffer@[i] == buffer.storage()[i],
        buffer.header().len() == 21,
        forall|i: int| 0 <= i < 21 ==> #[trigger] buffer.header()[i] == buffer.storage()[i],
        buffer.space() + buffer.length() == PACKET_BUFFER_SIZE,
        buffer.seq_index() == buffer.storage()[17] + 0x100 * buffer.storage()[18] + 0x1_0000
            * buffer.storage()[19] + 0x100_0000 * buffer.storage()[20],
{
}

/// A buffer is valid exactly if its storage is complete and its header is in use.
pub proof fn law_buffer_validity(buffer: PacketBuffer)
    ensures
        buffer.valid() <==> buffer.storage().len() == PACKET_BUFFER_SIZE && 21 <= buffer.length()
            && buffer.length() <= PACKET_BUFFER_SIZE,
{
}

/// Replacing the index changes the last four bytes of the header, and nothing else.
pub proof fn law_with_seq_index(storage: Seq<u8>, seq_index: SeqIndex)
    requires
        storage.len() >= HEADER_LEN,
    ensures
        with_seq_index(storage, seq_index).len() == storage.len(),
        seq_index_value(with_seq_index(storage, seq_index).subrange(17, 21)) == seq_index,
        forall|i: int|
            0 <= i < 17 || 21 <= i < storage.len() ==> #[trigger] with_seq_index(
                storage,
                seq_index,
            )[i] == storage[i],
{
    crate::packet::wire::law_seq_index_round_trip(seq_index, seq_index_bytes(seq_index));
    assert(with_seq_index(storage, seq_index).subrange(17, 21) == seq_index_bytes(seq_index));
}

/// Padding fills the storage with zeros.
pub proof fn law_zero_padded(bytes: Seq<u8>)
    requires
        bytes.len() <= PACKET_BUFFER_SIZE,
    ensures
        zero_padded(bytes).len() == PACKET_BUFFER_SIZE,
        forall|i: int| 0 <= i < bytes.len() ==> #[trigger] zero_padded(bytes)[i] == bytes[i],
        forall|i: int|
            bytes.len() <= i < PACKET_BUFFER_SIZE ==> #[trigger] zero_padded(bytes)[i] == 0,
{
}

/// As much fits as there is, and as there is space for: all of the data, or all of the space.
pub proof fn law_fitting(data: Seq<u8>, space: nat)
    ensures
        fitting(data, space) <= data.len(),
        fitting(data, space) <= space,
        fitting(data, space) == data.len() || fitting(data, space) == space,
{
}

/// A datagram was taken exactly if the socket said so.
pub proof fn law_taken(exchange: Exchange)
    ensures
        exchange.taken() <==> exchange.reply == Ok::<bool, std::io::Error>(true),
{
}

/// Nothing that an outbox recorded is ever lost, and what is new is all that was added at the end.
pub proof fn law_exchanges_since<S: NonBlocking>(before: Outbox<S>, after: Outbox<S>)
    requires
        continued(before, after),
    ensures
        after.record().len() == before.record().len() + exchanges_since(before, after).len(),
        forall|i: int|
            0 <= i < before.record().len() ==> #[trigger] after.record()[i] == before.record()[i],
        forall|i: int|
            0 <= i < exchanges_since(before, after).len() ==> #[trigger] exchanges_since(
                before,
                after,
            )[i] == after.record()[before.record().len() + i],
        after.socket() == before.socket(),
{
}

/// Nothing that an inbox recorded is ever lost, and what is new is all that was added at the end: no
/// more than was wanted, and less only if the channel hung up. Nothing comes after that.
pub proof fn law_received(before: Option<Inbox>, after: Option<Inbox>, wanted: nat)
    requires
        received(before, after, wanted),
    ensures
        before is Some <==> after is Some,
        before is None ==> delivered_since(before, after).len() == 0,
        delivered_since(before, after).len() <= wanted,
        before is Some ==> {
            let earlier = before->0@;
            let later = after->0@;
            let packets = delivered_since(before, after);
            &&& after->0.source() == before->0.source()
            &&& later.packets.len() == earlier.packets.len() + packets.len()
            &&& forall|i: int|
                0 <= i < earlier.packets.len() ==> #[trigger] later.packets[i] == earlier.packets[i]
            &&& forall|i: int|
                0 <= i < packets.len() ==> #[trigger] packets[i]
                    == later.packets[earlier.packets.len() + i]
            &&& packets.len() < wanted ==> later.hung_up
            &&& earlier.hung_up ==> later.hung_up && packets.len() == 0
            &&& later.hung_up ==> earlier.hung_up || packets.len() < wanted
        },
{
}

/// A queue is valid exactly if no acked part is at its front and all of its parts have a header.
pub proof fn law_queue_validity(queue: Queue)
    ensures
        queue.valid() <==> (queue.parts.len() == 0 || !queue.parts[0].acked) && (forall|i: int|
            0 <= i < queue.parts.len() ==> (#[trigger] queue.parts[i]).bytes.len() >= 21),
{
}

/// Parts count from the front of the queue on, after those that were removed.
pub proof fn law_total(queue: Queue)
    ensures
        queue.total() == queue.first_unacked + queue.parts.len(),
{
}

/// Parts that were removed were acked, those that are there know it themselves, and no other part
/// was ever acked.
pub proof fn law_is_acked(queue: Queue, i: int)
    ensures
        i < queue.first_unacked ==> queue.is_acked(i),
        queue.first_unacked <= i < queue.first_unacked + queue.parts.len() ==> queue.is_acked(i)
            == queue.parts[i - queue.first_unacked].acked,
        i >= queue.first_unacked + queue.parts.len() ==> !queue.is_acked(i),
{
}

/// What has to be sent are the datagrams of exactly those parts that are not acked, whole and in
/// their order.
///
/// Gives the positions of these parts.
pub proof fn law_unacked(parts: Seq<Part>) -> (positions: Seq<int>)
    ensures
        positions.len() == unacked_datagrams(parts).len(),
        forall|k: int|
            0 <= k < positions.len() ==> {
                &&& 0 <= #[trigger] positions[k] < parts.len()
                &&& !parts[positions[k]].acked
                &&& unacked_datagrams(parts)[k] == parts[positions[k]].bytes
            },
        forall|k: int, l: int| 0 <= k < l < positions.len() ==> positions[k] < positions[l],
        forall|i: int|
            0 <= i < parts.len() && !(#[trigger] parts[i]).acked ==> positions.contains(i),
    decreases parts.len(),
{
    if parts.len() == 0 {
        reveal(Seq::filter);
        Seq::empty()
    } else {
        let last = parts.len() - 1;
        let earlier = parts.take(last);
        let before = law_unacked(earlier);
        lemma_unacked_step(parts, last);
        assert(parts.take(last + 1) == parts);
        let positions = if parts[last].acked {
            before
        } else {
            before.push(last)
        };
        assert forall|i: int|
            0 <= i < parts.len() && !(#[trigger] parts[i]).acked implies positions.contains(i) by {
            if i < last {
                assert(!earlier[i].acked);
                let k = before.index_of(i);
                assert(positions[k] == i);
            } else {
                assert(positions[before.len() as int] == i);
            }
        }
        assert forall|k: int| 0 <= k < positions.len() implies {
            &&& 0 <= #[trigger] positions[k] < parts.len()
            &&& !parts[positions[k]].acked
            &&& unacked_datagrams(parts)[k] == parts[positions[k]].bytes
        } by {
            if k < before.len() {
                assert(0 <= before[k] < earlier.len());
            }
        }
        positions
    }
}

/// A queue sends what its parts say.
pub proof fn law_queue_unacked(queue: Queue)
    ensures
        queue.unacked() == unacked_datagrams(queue.parts),
{
}

/// Only the first datagrams count, as many as there may be, or all of them.
pub proof fn law_up_to(datagrams: Seq<Seq<u8>>, count: nat)
    ensures
        up_to(datagrams, count).len() <= count,
        up_to(datagrams, count).len() <= datagrams.len(),
        up_to(datagrams, count).len() == count || up_to(datagrams, count).len() == datagrams.len(),
        forall|i: int|
            0 <= i < up_to(datagrams, count).len() ==> #[trigger] up_to(datagrams, count)[i]
                == datagrams[i],
{
}

/// What is missing and what is there make up what is wanted, and nothing is missing if there is
/// enough.
pub proof fn law_missing(queue: Queue, count: nat)
    ensures
        queue.unacked().len() >= count ==> queue.missing(count) == 0,
        queue.unacked().len() < count ==> queue.missing(count) + queue.unacked().len() == count,
{
}

/// Packets are put at the end of the queue, all of them, whole, in their order, and not acked.
pub proof fn law_extended(queue: Queue, packets: Seq<PacketBuffer>)
    ensures
        queue.extended(packets).first_unacked == queue.first_unacked,
        queue.extended(packets).parts.len() == queue.parts.len() + packets.len(),
        forall|i: int|
            0 <= i < queue.parts.len() ==> #[trigger] queue.extended(packets).parts[i]
                == queue.parts[i],
        forall|i: int|
            queue.parts.len() <= i < queue.parts.len() + packets.len() ==> (
            #[trigger] queue.extended(packets).parts[i]) == (Part {
                bytes: packets[i - queue.parts.len()]@,
                acked: false,
            }),
{
}

/// Refilling puts what the channel has provided at the end of the queue, all of it and nothing else,
/// and asks it for no more than is needed.
pub proof fn law_refilled(
    before: Queue,
    after: Queue,
    inbox_before: Option<Inbox>,
    inbox_after: Option<Inbox>,
    count: nat,
)
    requires
        refilled(before, after, inbox_before, inbox_after, count),
    ensures
        inbox_before is Some <==> inbox_after is Some,
        after.first_unacked == before.first_unacked,
        forall|i: int|
            0 <= i < before.parts.len() ==> #[trigger] after.parts[i] == before.parts[i],
        inbox_before is None ==> after.parts.len() == before.parts.len(),
        before.unacked().len() >= count ==> after.parts.len() == before.parts.len(),
        before.unacked().len() < count ==> after.parts.len() - before.parts.len() <= count
            - before.unacked().len(),
        inbox_before is Some ==> {
            let earlier = inbox_before->0@;
            let later = inbox_after->0@;
            &&& inbox_after->0.source() == inbox_before->0.source()
            &&& after.parts.len() - before.parts.len() == later.packets.len()
                - earlier.packets.len()
            &&& forall|i: int|
                0 <= i < earlier.packets.len() ==> #[trigger] later.packets[i] == earlier.packets[i]
            &&& forall|i: int|
                before.parts.len() <= i < after.parts.len() ==> !(#[trigger] after.parts[i]).acked
                    && after.parts[i].bytes == later.packets[earlier.packets.len() + i
                    - before.parts.len()]@
            &&& before.unacked().len() < count && after.parts.len() - before.parts.len() < count
                - before.unacked().len() ==> later.hung_up
            &&& earlier.hung_up ==> later.hung_up && later.packets.len() == earlier.packets.len()
        },
        before.unacked().len() >= count ==> inbox_before is Some ==> inbox_after->0@
            == inbox_before->0@,
{
    law_missing(before, count);
    law_received(inbox_before, inbox_after, before.missing(count));
    law_extended(before, delivered_since(inbox_before, inbox_after));
    if inbox_before is Some && before.unacked().len() >= count {
        assert(inbox_after->0@.packets == inbox_before->0@.packets);
    }
}

/// What a batch hands to the socket are the datagrams of the first unacked parts, whole, in their
/// order and each of them once. It goes on as long as they are taken.
pub proof fn law_batch_hands_over_unacked_parts(
    queue: Queue,
    batch_size: nat,
    exchanges: Seq<Exchange>,
)
    requires
        batch_exchanged(up_to(queue.unacked(), batch_size), exchanges),
    ensures
        exchanges.len() <= batch_size,
        exchanges.len() <= queue.unacked().len(),
        forall|i: int|
            0 <= i < exchanges.len() ==> (#[trigger] exchanges[i]).datagram == queue.unacked()[i],
        forall|i: int|
            0 <= i < exchanges.len() ==> exists|j: int|
                0 <= j < queue.parts.len() && (#[trigger] queue.parts[j]) == (Part {
                    bytes: (#[trigger] exchanges[i]).datagram,
                    acked: false,
                }),
        forall|i: int|
            0 <= i < exchanges.len() - 1 ==> (#[trigger] exchanges[i]).reply == Ok::<
                bool,
                std::io::Error,
            >(true),
        exchanges.len() < batch_size && exchanges.len() < queue.unacked().len() ==> exchanges.len()
            > 0 && exchanges.last().reply != Ok::<bool, std::io::Error>(true),
{
    law_up_to(queue.unacked(), batch_size);
    let positions = law_unacked(queue.parts);
    assert forall|i: int| 0 <= i < exchanges.len() implies exists|j: int|
        0 <= j < queue.parts.len() && (#[trigger] queue.parts[j]) == (Part {
            bytes: (#[trigger] exchanges[i]).datagram,
            acked: false,
        }) by {
        let part = queue.parts[positions[i]];
        assert(part.bytes == exchanges[i].datagram && !part.acked);
    }
}

/// A batch fails exactly if the socket failed, with the same error. Otherwise it tells whether the
/// last datagram was taken, and counts all of them, without that one if it was not.
pub proof fn law_batch_result(exchanges: Seq<Exchange>)
    requires
        exchanges.len() <= BatchSize::MAX,
    ensures
        forall|error: std::io::Error|
            batch_result(exchanges) == Err::<(BatchSize, bool), std::io::Error>(error) <==> (
            exchanges.len() > 0 && exchanges.last().reply == Err::<bool, std::io::Error>(error)),
        batch_result(exchanges) matches Ok((count, all)) ==> {
            &&& exchanges.len() == 0 ==> count == 0 && all
            &&& exchanges.len() > 0 ==> exchanges.last().reply == Ok::<bool, std::io::Error>(all)
            &&& exchanges.len() > 0 && all ==> count == exchanges.len()
            &&& exchanges.len() > 0 && !all ==> count == exchanges.len() - 1
        },
{
}

/// A packet starts with all of its parts, in their order and none of them acked, or with none and a
/// channel to get them from.
pub proof fn law_initial_queue(packet: SerializedPacket)
    ensures
        initial_queue(packet).first_unacked == 0,
        packet matches SerializedPacket::Vec(packets) ==> {
            &&& initial_channel(packet) is None
            &&& initial_queue(packet).parts.len() == packets@.len()
            &&& forall|i: int|
                0 <= i < packets@.len() ==> !(#[trigger] initial_queue(packet).parts[i]).acked
                    && initial_queue(packet).parts[i].bytes == packets@[i]@
        },
        packet matches SerializedPacket::Channel(inbox) ==> {
            &&& initial_channel(packet) == Some(inbox)
            &&& initial_queue(packet).parts.len() == 0
        },
{
}

/// An outgoing packet is valid exactly if its queue is and its batches are not empty.
pub proof fn law_outgoing_validity(out: Outgoing)
    ensures
        out.valid() <==> out.queue.valid() && out.batch_size > 0,
{
}

/// A packet is canceled exactly if it is not known when its last batch was sent.
pub proof fn law_canceled(out: Outgoing)
    ensures
        out.canceled() <==> out.last_send == None::<Instant>,
{
}

/// The packets of the last batch are those that were acked and those that were not, unless there
/// were more acks than packets.
pub proof fn law_unanswered(out: Outgoing)
    ensures
        out.last_batch_acks <= out.last_batch_size ==> out.unanswered() + out.last_batch_acks
            == out.last_batch_size,
        out.last_batch_acks >= out.last_batch_size ==> out.unanswered() == 0,
        out.can_send_pending() <==> (out.last_send == None::<Instant> || out.missed_acks
            + out.unanswered() <= usize::MAX),
{
}

/// Half of the batch size if acks are missing, but at least one. Otherwise twice of what was sent,
/// but no less than before and no more than there can be.
pub proof fn law_balanced_exactly(batch_size: BatchSize, acks: BatchSize, sent: BatchSize)
    requires
        batch_size > 0,
    ensures
        acks < sent && batch_size == 1 ==> balanced(batch_size, acks, sent) == 1,
        acks < sent && batch_size > 1 ==> 2 * balanced(batch_size, acks, sent) <= batch_size < 2
            * balanced(batch_size, acks, sent) + 2,
        acks >= sent && 2 * sent <= batch_size ==> balanced(batch_size, acks, sent) == batch_size,
        acks >= sent && batch_size < 2 * sent <= BatchSize::MAX ==> balanced(batch_size, acks, sent)
            == 2 * sent,
        acks >= sent && 2 * sent > BatchSize::MAX ==> balanced(batch_size, acks, sent)
            == BatchSize::MAX,
{
}

/// What the clock can show is what reading it can give.
pub proof fn law_clock(now: Instant)
    ensures
        clock_can_show(now) <==> call_ensures(Instant::now, (), now),
{
}

} // verus!
