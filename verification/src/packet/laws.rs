//! What holds of several operations together.

use std::time::Instant;
use vstd::prelude::*;

use crate::packet::buffer::{fitting, with_seq_index, zero_padded, PacketBuffer};
use crate::packet::channel::{delivered_since, Inbox};
use crate::packet::meaning::{
    law_balanced_exactly, law_batch_hands_over_unacked_parts, law_batch_result,
    law_initial_queue, law_refilled,
};
use crate::packet::queue::{
    batch_exchanged, batch_result, initial_channel, initial_queue, leading_acked,
    lemma_leading_acked, lemma_unacked_add, lemma_unacked_step, refilled, unacked_datagrams, up_to,
    Part, Queue,
};
use crate::packet::send::{balanced, pending_sent, started, Outgoing, PacketOut};
use crate::packet::serialize::SerializedPacket;
use crate::packet::socket::Exchange;
use crate::packet::wire::{
    done_datagram, law_seq_index_round_trip, overwritten, part_header, seq_index_bytes,
    seq_index_value,
};
use crate::packet::{
    BatchSize, PacketKind, SeqIndex, HEADER_LEN, PACKET_BUFFER_SIZE, PACKET_ID_SIZE,
    PACKET_KIND_SIZE,
};

verus! {

/// Acking a part keeps the queue valid, removes nothing that was not acked, marks no other part,
/// and changes no datagram.
pub proof fn law_ack_marks_one_part(queue: Queue, seq_index: int)
    requires
        queue.valid(),
        0 <= seq_index,
    ensures
        queue.acknowledged(seq_index).valid(),
        queue.acknowledged(seq_index).total() == queue.total(),
        queue.first_unacked <= queue.acknowledged(seq_index).first_unacked,
        forall|i: int|
            0 <= i ==> (#[trigger] queue.acknowledged(seq_index).is_acked(i) <==> queue.is_acked(i)
                || (i == seq_index && seq_index < queue.total())),
        forall|i: int|
            queue.acknowledged(seq_index).first_unacked <= i < queue.total() ==> (
            #[trigger] queue.acknowledged(seq_index).parts[i - queue.acknowledged(
                seq_index,
            ).first_unacked]).bytes == queue.parts[i - queue.first_unacked].bytes,
{
    if queue.first_unacked <= seq_index < queue.total() {
        let index = seq_index - queue.first_unacked;
        let marked = queue.parts.update(
            index,
            Part { bytes: queue.parts[index].bytes, acked: true },
        );
        lemma_leading_acked(marked);
        let after = queue.acknowledged(seq_index);
        assert forall|i: int| 0 <= i implies (#[trigger] after.is_acked(i) <==> queue.is_acked(i)
            || i == seq_index) by {
            if queue.first_unacked <= i < after.first_unacked {
                assert(marked[i - queue.first_unacked].acked);
            }
        }
    }
}

/// The first unacked packet is the one that the queue says it is, and nothing is left in the queue
/// exactly if every packet was acked.
pub proof fn law_first_unacked(queue: Queue)
    requires
        queue.valid(),
    ensures
        forall|i: int| 0 <= i < queue.first_unacked ==> queue.is_acked(i),
        queue.first_unacked < queue.total() ==> !queue.is_acked(queue.first_unacked as int),
        queue.parts.len() == 0 <==> forall|i: int| 0 <= i < queue.total() ==> queue.is_acked(i),
        queue.parts.len() == 0 <==> queue.unacked().len() == 0,
{
    if queue.parts.len() > 0 {
        assert(!queue.is_acked(queue.first_unacked as int));
        lemma_unacked_step(queue.parts, 0);
        lemma_unacked_step(queue.parts, 1);
    } else {
        reveal(Seq::filter);
    }
}

/// A valid queue is determined by what was acked and by the datagrams that are left.
proof fn lemma_determined(a: Queue, b: Queue)
    requires
        a.valid(),
        b.valid(),
        a.total() == b.total(),
        forall|i: int| 0 <= i < a.total() ==> (#[trigger] a.is_acked(i) <==> b.is_acked(i)),
        forall|i: int|
            #![trigger a.parts[i - a.first_unacked]]
            a.first_unacked <= i < a.total() && b.first_unacked <= i ==> a.parts[i
                - a.first_unacked].bytes == b.parts[i - b.first_unacked].bytes,
    ensures
        a == b,
{
    law_first_unacked(a);
    law_first_unacked(b);
    if a.first_unacked < b.first_unacked {
        assert(!a.is_acked(a.first_unacked as int));
    }
    if b.first_unacked < a.first_unacked {
        assert(a.is_acked(b.first_unacked as int));
    }
    assert forall|j: int| 0 <= j < a.parts.len() implies a.parts[j] == b.parts[j] by {
        let i = j + a.first_unacked;
        assert(a.is_acked(i) <==> b.is_acked(i));
        assert(a.parts[i - a.first_unacked].bytes == b.parts[i - b.first_unacked].bytes);
    }
    assert(a.parts == b.parts);
}

/// A duplicate ack changes nothing.
pub proof fn law_duplicate_ack(queue: Queue, seq_index: int)
    requires
        queue.valid(),
        0 <= seq_index,
        queue.is_acked(seq_index),
    ensures
        queue.acknowledged(seq_index) == queue,
{
    law_ack_marks_one_part(queue, seq_index);
    lemma_determined(queue.acknowledged(seq_index), queue);
}

/// It does not matter in which order acks arrive.
pub proof fn law_acks_commute(queue: Queue, a: int, b: int)
    requires
        queue.valid(),
        0 <= a,
        0 <= b,
    ensures
        queue.acknowledged(a).acknowledged(b) == queue.acknowledged(b).acknowledged(a),
{
    law_ack_marks_one_part(queue, a);
    law_ack_marks_one_part(queue, b);
    law_ack_marks_one_part(queue.acknowledged(a), b);
    law_ack_marks_one_part(queue.acknowledged(b), a);
    let ab = queue.acknowledged(a).acknowledged(b);
    let ba = queue.acknowledged(b).acknowledged(a);
    assert forall|i: int| 0 <= i < ab.total() implies (#[trigger] ab.is_acked(i) <==> ba.is_acked(
        i,
    )) by {
        assert(queue.acknowledged(a).is_acked(i) <==> queue.is_acked(i) || i == a);
        assert(queue.acknowledged(b).is_acked(i) <==> queue.is_acked(i) || i == b);
    }
    assert forall|i: int|
        #![trigger ab.parts[i - ab.first_unacked]]
        ab.first_unacked <= i < ab.total() && ba.first_unacked <= i implies ab.parts[i
        - ab.first_unacked].bytes == ba.parts[i - ba.first_unacked].bytes by {
        let qa = queue.acknowledged(a);
        let qb = queue.acknowledged(b);
        assert(qa.parts[i - qa.first_unacked].bytes == queue.parts[i - queue.first_unacked].bytes);
        assert(qb.parts[i - qb.first_unacked].bytes == queue.parts[i - queue.first_unacked].bytes);
        assert(ba.parts[i - ba.first_unacked].bytes == qb.parts[i - qb.first_unacked].bytes);
    }
    lemma_determined(ab, ba);
}

/// Once a part was acked it is not sent again, while all others that were not acked still are, in
/// the same order.
pub proof fn law_acked_part_is_not_sent_again(queue: Queue, seq_index: int)
    requires
        queue.valid(),
        0 <= seq_index < queue.total(),
        !queue.is_acked(seq_index),
    ensures
        ({
            let index = seq_index - queue.first_unacked;
            let earlier = unacked_datagrams(queue.parts.take(index));
            let later = unacked_datagrams(queue.parts.skip(index + 1));
            &&& queue.unacked() == earlier.push(queue.parts[index].bytes) + later
            &&& queue.acknowledged(seq_index).unacked() == earlier + later
        }),
{
    let index = seq_index - queue.first_unacked;
    lemma_unacked_step(queue.parts, index);
    lemma_unacked_step(queue.parts, index + 1);
    let marked = queue.parts.update(index, Part { bytes: queue.parts[index].bytes, acked: true });
    lemma_unacked_step(marked, index);
    lemma_unacked_step(marked, index + 1);
    assert(marked.take(index) == queue.parts.take(index));
    assert(marked.skip(index + 1) == queue.parts.skip(index + 1));
    lemma_leading_acked(marked);
    lemma_unacked_trimmed(marked);
}

/// Removing acked parts from the front does not change what has to be sent.
proof fn lemma_unacked_trimmed(parts: Seq<Part>)
    ensures
        unacked_datagrams(parts.skip(
            leading_acked(parts) as int,
        )) == unacked_datagrams(parts),
    decreases parts.len(),
{
    lemma_leading_acked(parts);
    if parts.len() > 0 && parts[0].acked {
        let rest = parts.skip(1);
        lemma_unacked_trimmed(rest);
        lemma_leading_acked(rest);
        let count = leading_acked(parts);
        assert(rest.skip(count - 1) == parts.skip(count as int));
        lemma_unacked_step(parts, 0);
        lemma_unacked_step(parts, 1);
    } else {
        assert(parts.skip(0) == parts);
    }
}

/// Asking the channel for more packets keeps the queue valid and everything that was in it.
///
/// Without a channel nothing changes.
pub proof fn law_refill_only_adds(
    before: Queue,
    after: Queue,
    inbox_before: Option<Inbox>,
    inbox_after: Option<Inbox>,
    count: nat,
)
    requires
        before.valid(),
        refilled(before, after, inbox_before, inbox_after, count),
    ensures
        after.valid(),
        after.first_unacked == before.first_unacked,
        before.total() <= after.total() <= before.total() + before.missing(count),
        after.parts.take(before.parts.len() as int) == before.parts,
        after.unacked().take(before.unacked().len() as int) == before.unacked(),
        after.unacked().len() - before.unacked().len() == after.total() - before.total(),
        inbox_before is None ==> inbox_after is None && after == before,
        after.unacked().len() < count && inbox_before is Some ==> inbox_after->0@.hung_up,
{
    let packets = delivered_since(inbox_before, inbox_after);
    let added = after.parts.skip(before.parts.len() as int);
    assert(after.parts == before.parts + added);
    assert forall|i: int| 0 <= i < added.len() implies !(#[trigger] added[i]).acked
        && added[i].bytes.len() >= HEADER_LEN by {
        assert(packets[i].valid());
        assert(added[i].bytes == packets[i]@);
    }
    lemma_unacked_add(before.parts, added);
    lemma_all_unacked(added);
    if inbox_before is None {
        assert(after.parts == before.parts);
    }
}

/// Every part that is not acked has to be sent.
proof fn lemma_all_unacked(parts: Seq<Part>)
    requires
        forall|i: int| 0 <= i < parts.len() ==> !(#[trigger] parts[i]).acked,
    ensures
        unacked_datagrams(parts).len() == parts.len(),
    decreases parts.len(),
{
    if parts.len() == 0 {
        reveal(Seq::filter);
    } else {
        lemma_all_unacked(parts.drop_last());
        assert(parts.take(parts.len() - 1) == parts.drop_last());
        assert(parts.take(parts.len() as int) == parts);
        lemma_unacked_step(parts, parts.len() - 1);
    }
}

/// Every datagram that has to be sent is that of a part.
proof fn lemma_unacked_are_parts(parts: Seq<Part>, j: int)
    requires
        0 <= j < unacked_datagrams(parts).len(),
    ensures
        exists|i: int|
            0 <= i < parts.len() && !parts[i].acked && (#[trigger] parts[i]).bytes
                == unacked_datagrams(parts)[j],
    decreases parts.len(),
{
    if parts.len() == 0 {
        reveal(Seq::filter);
    } else {
        let last = parts.len() - 1;
        assert(parts.take(last + 1) == parts);
        lemma_unacked_step(parts, last);
        let earlier = parts.take(last);
        if j < unacked_datagrams(earlier).len() {
            lemma_unacked_are_parts(earlier, j);
            let i = choose|i: int|
                0 <= i < earlier.len() && !earlier[i].acked && (#[trigger] earlier[i]).bytes
                    == unacked_datagrams(earlier)[j];
            assert(parts[i].bytes == unacked_datagrams(parts)[j]);
        } else {
            assert(parts[last].bytes == unacked_datagrams(parts)[j]);
        }
    }
}

/// A batch never holds more packets than it may. Those that it holds are the first ones that still
/// have to be acked, each of them whole, and all that there are to send, unless the socket was busy.
///
/// No packet was sent although the socket was not busy exactly if all packets are acked, and the
/// channel has no more of them. Nothing at all is handed to the socket then.
pub proof fn law_batch(
    before: Queue,
    after: Queue,
    inbox_before: Option<Inbox>,
    inbox_after: Option<Inbox>,
    batch_size: BatchSize,
    exchanges: Seq<Exchange>,
)
    requires
        before.valid(),
        batch_size != 0,
        refilled(before, after, inbox_before, inbox_after, batch_size as nat),
        batch_exchanged(up_to(after.unacked(), batch_size as nat), exchanges),
    ensures
        after.valid(),
        exchanges.len() <= batch_size,
        exchanges.len() <= after.unacked().len(),
        forall|i: int|
            0 <= i < exchanges.len() ==> (#[trigger] exchanges[i]).datagram == after.unacked()[i],
        batch_result(exchanges) matches Ok((count, all)) ==> {
            &&& count <= batch_size
            &&& count <= after.unacked().len()
            &&& all ==> count == exchanges.len() && (count == batch_size || count
                == after.unacked().len())
            &&& !all ==> count == exchanges.len() - 1
        },
        (batch_result(exchanges) matches Ok((count, all)) && count == 0 && all) <==> (forall|i: int|
            0 <= i < after.total() ==> after.is_acked(i)),
        (batch_result(exchanges) matches Ok((count, all)) && count == 0 && all) <==> exchanges.len()
            == 0,
        after.parts.len() == 0 <==> exchanges.len() == 0,
        after.parts.len() == 0 ==> before.parts.len() == 0,
        after.parts.len() == 0 && inbox_before is Some ==> inbox_after->0@.hung_up,
        inbox_before is None ==> after == before,
{
    law_refill_only_adds(before, after, inbox_before, inbox_after, batch_size as nat);
    law_first_unacked(after);
}

/// `Done` is handed to the socket only if the packet was acked entirely, and the channel has no more
/// parts of it. Nothing else is handed to it then, and the packet is reported to be done exactly if
/// the socket took it.
pub proof fn law_done_means_acked(
    before: Outgoing,
    after: Outgoing,
    elapsed: u128,
    id: Seq<u8>,
    resend_delay: u128,
    exchanges: Seq<Exchange>,
    result: std::io::Result<bool>,
)
    requires
        before.valid(),
        id.len() == PACKET_ID_SIZE,
        pending_sent(before, after, elapsed, id, resend_delay, exchanges, result),
    ensures
        (exists|i: int|
            0 <= i < exchanges.len() && (#[trigger] exchanges[i]).datagram == done_datagram(id))
            <==> exchanges == seq![Exchange { datagram: done_datagram(id), reply: result }],
        exchanges == seq![Exchange { datagram: done_datagram(id), reply: result }] ==> {
            &&& elapsed >= resend_delay
            &&& forall|i: int| 0 <= i < after.queue.total() ==> after.queue.is_acked(i)
            &&& before.channel is Some ==> after.channel->0@.hung_up
            &&& before.channel is None ==> after.queue == before.queue
        },
        (result matches Ok(done) && done) ==> exchanges == seq![
            Exchange { datagram: done_datagram(id), reply: result },
        ],
{
    let done = Exchange { datagram: done_datagram(id), reply: result };
    if elapsed >= resend_delay {
        law_balance(before.batch_size, before.last_batch_acks, before.last_batch_size);
        let batch_size = before.next_batch_size();
        law_refill_only_adds(
            before.queue,
            after.queue,
            before.channel,
            after.channel,
            batch_size as nat,
        );
        law_first_unacked(after.queue);
        let datagrams = up_to(after.queue.unacked(), batch_size as nat);
        if datagrams.len() == 0 {
            assert(exchanges[0].datagram == done_datagram(id));
        } else {
            assert forall|i: int| 0 <= i < exchanges.len() implies (
            #[trigger] exchanges[i]).datagram != done_datagram(id) by {
                assert(datagrams[i] == after.queue.unacked()[i]);
                lemma_unacked_are_parts(after.queue.parts, i);
                assert(exchanges[i].datagram.len() >= HEADER_LEN);
            }
            if exchanges == seq![done] {
                assert(exchanges[0] == done);
            }
        }
    }
}

/// A packet that was acked entirely is answered with `Done` alone as soon as the delay has passed.
pub proof fn law_acked_packet_gets_done(
    before: Outgoing,
    after: Outgoing,
    elapsed: u128,
    id: Seq<u8>,
    resend_delay: u128,
    exchanges: Seq<Exchange>,
    result: std::io::Result<bool>,
)
    requires
        before.valid(),
        before.channel is Some ==> before.channel->0@.hung_up,
        forall|i: int| 0 <= i < before.queue.total() ==> before.queue.is_acked(i),
        elapsed >= resend_delay,
        pending_sent(before, after, elapsed, id, resend_delay, exchanges, result),
    ensures
        exchanges == seq![Exchange { datagram: done_datagram(id), reply: result }],
        after.queue == before.queue,
        after == (Outgoing {
            batch_size: before.next_batch_size(),
            channel: after.channel,
            ..before
        }),
{
    law_first_unacked(before.queue);
    assert(after.queue.parts == before.queue.parts);
    law_first_unacked(after.queue);
}

/// Neither acks nor batches cancel a packet, and acks do not bring a canceled one back.
pub proof fn law_only_cancel_cancels(
    before: Outgoing,
    after: Outgoing,
    seq_index: SeqIndex,
    elapsed: u128,
    id: Seq<u8>,
    resend_delay: u128,
    exchanges: Seq<Exchange>,
    result: std::io::Result<bool>,
)
    requires
        pending_sent(before, after, elapsed, id, resend_delay, exchanges, result),
    ensures
        before.acknowledged(seq_index).canceled() == before.canceled(),
        !before.canceled() ==> !after.canceled(),
{
}

/// The batch size is never zero.
///
/// It is not lowered as long as all packets are acked, in which case it grows to no more than twice
/// of what was sent. It is cut in half otherwise.
pub proof fn law_balance(batch_size: BatchSize, acks: BatchSize, sent: BatchSize)
    requires
        batch_size != 0,
    ensures
        balanced(batch_size, acks, sent) != 0,
        acks >= sent ==> balanced(batch_size, acks, sent) >= batch_size,
        acks >= sent && balanced(batch_size, acks, sent) > batch_size ==> balanced(
            batch_size,
            acks,
            sent,
        ) <= 2 * sent,
        acks < sent && batch_size > 1 ==> balanced(batch_size, acks, sent) == batch_size / 2,
        acks < sent && batch_size == 1 ==> balanced(batch_size, acks, sent) == 1,
{
}

/// The queue after the parts with the given indices were acked, one after the other.
pub open spec fn acknowledged_all(queue: Queue, seq_indices: Seq<int>) -> Queue
    decreases seq_indices.len(),
{
    if seq_indices.len() == 0 {
        queue
    } else {
        acknowledged_all(queue, seq_indices.drop_last()).acknowledged(seq_indices.last())
    }
}

/// Acks mark exactly the parts that they are for: once there was one for every part, nothing is
/// left to be sent, and as long as there was none for some part, that part is not forgotten.
pub proof fn law_all_acks(queue: Queue, seq_indices: Seq<int>)
    requires
        queue.valid(),
        forall|k: int| 0 <= k < seq_indices.len() ==> 0 <= #[trigger] seq_indices[k],
    ensures
        acknowledged_all(queue, seq_indices).valid(),
        acknowledged_all(queue, seq_indices).total() == queue.total(),
        forall|i: int|
            0 <= i < queue.total() ==> (#[trigger] acknowledged_all(queue, seq_indices).is_acked(i)
                <==> queue.is_acked(i) || seq_indices.contains(i)),
        acknowledged_all(queue, seq_indices).parts.len() == 0 <==> forall|i: int|
            queue.first_unacked <= i < queue.total() && !queue.is_acked(i) ==> seq_indices.contains(
                i,
            ),
    decreases seq_indices.len(),
{
    let after = acknowledged_all(queue, seq_indices);
    if seq_indices.len() > 0 {
        let earlier = seq_indices.drop_last();
        let last = seq_indices.last();
        law_all_acks(queue, earlier);
        law_ack_marks_one_part(acknowledged_all(queue, earlier), last);
        assert forall|i: int| 0 <= i < queue.total() implies (#[trigger] after.is_acked(i)
            <==> queue.is_acked(i) || seq_indices.contains(i)) by {
            assert(acknowledged_all(queue, earlier).is_acked(i) <==> queue.is_acked(i)
                || earlier.contains(i));
            assert(seq_indices == earlier.push(last));
            if earlier.contains(i) {
                let k = earlier.index_of(i);
                assert(seq_indices[k] == i);
            }
            if i == last {
                assert(seq_indices[seq_indices.len() - 1] == i);
            }
            if seq_indices.contains(i) && i != last {
                let k = seq_indices.index_of(i);
                assert(earlier[k] == i);
            }
        }
    }
    law_first_unacked(after);
    assert(after.parts.len() == 0 ==> forall|i: int|
        queue.first_unacked <= i < queue.total() && !queue.is_acked(i) ==> after.is_acked(i));
    if after.parts.len() > 0 {
        let i = after.first_unacked as int;
        assert(!after.is_acked(i));
        assert(!queue.is_acked(i) && !seq_indices.contains(i));
    }
}

/// The queue holds the given packets, apart from those that were removed from its front.
pub open spec fn fed_by(queue: Queue, packets: Seq<PacketBuffer>) -> bool {
    &&& queue.total() == packets.len()
    &&& forall|i: int|
        queue.first_unacked <= i < queue.total() ==> (#[trigger] queue.parts[i
            - queue.first_unacked]).bytes == packets[i]@
}

/// A queue always holds exactly what its channel has provided, in that order, or what it was made
/// from: that is so from the start, and neither acks nor refills change it.
pub proof fn law_queue_holds_what_was_provided(
    queue: Queue,
    after: Queue,
    packets: Seq<PacketBuffer>,
    inbox_before: Option<Inbox>,
    inbox_after: Option<Inbox>,
    count: nat,
    seq_index: int,
)
    requires
        queue.valid(),
        fed_by(queue, packets),
        inbox_before is Some ==> packets == inbox_before->0@.packets,
        refilled(queue, after, inbox_before, inbox_after, count),
        0 <= seq_index,
    ensures
        fed_by(Queue { first_unacked: 0, parts: seq![] }, seq![]),
        fed_by(Queue { first_unacked: 0, parts: seq![] }.extended(packets), packets),
        fed_by(queue.acknowledged(seq_index), packets),
        inbox_before is Some ==> inbox_after is Some && fed_by(after, inbox_after->0@.packets),
        inbox_before is None ==> fed_by(after, packets),
{
    law_ack_marks_one_part(queue, seq_index);
    let acked = queue.acknowledged(seq_index);
    assert forall|i: int| acked.first_unacked <= i < acked.total() implies (
    #[trigger] acked.parts[i - acked.first_unacked]).bytes == packets[i]@ by {
        assert(queue.parts[i - queue.first_unacked].bytes == packets[i]@);
    }
    law_refill_only_adds(queue, after, inbox_before, inbox_after, count);
    if inbox_before is Some {
        let all = inbox_after->0@.packets;
        let added = delivered_since(inbox_before, inbox_after);
        assert(all == packets + added);
        assert forall|i: int| after.first_unacked <= i < after.total() implies (
        #[trigger] after.parts[i - after.first_unacked]).bytes == all[i]@ by {
            if i < queue.total() {
                assert(queue.parts[i - queue.first_unacked].bytes == packets[i]@);
            } else {
                assert(after.parts[i - after.first_unacked].bytes == added[i - queue.total()]@);
            }
        }
    }
}

/// A queue that was fed by a channel is the same as one that was made from a list of what the
/// channel has provided and got the same acks, whenever they came.
pub proof fn law_channel_is_like_a_list(
    queue: Queue,
    packets: Seq<PacketBuffer>,
    seq_indices: Seq<int>,
)
    requires
        queue.valid(),
        fed_by(queue, packets),
        forall|i: int| 0 <= i < packets.len() ==> (#[trigger] packets[i]).valid(),
        forall|k: int| 0 <= k < seq_indices.len() ==> 0 <= #[trigger] seq_indices[k],
        forall|i: int|
            0 <= i < queue.total() ==> (#[trigger] queue.is_acked(i) <==> seq_indices.contains(i)),
    ensures
        queue == acknowledged_all(
            Queue { first_unacked: 0, parts: seq![] }.extended(packets),
            seq_indices,
        ),
{
    let list = Queue { first_unacked: 0, parts: seq![] }.extended(packets);
    assert forall|i: int| 0 <= i < list.parts.len() implies (
    #[trigger] list.parts[i]).bytes.len() >= HEADER_LEN by {
        assert(packets[i].valid());
    }
    assert(list.valid());
    law_all_acks(list, seq_indices);
    lemma_fed_after_acks(list, packets, seq_indices);
    let other = acknowledged_all(list, seq_indices);
    assert forall|i: int| 0 <= i < queue.total() implies (#[trigger] queue.is_acked(i)
        <==> other.is_acked(i)) by {
        assert(!list.is_acked(i));
    }
    assert forall|i: int|
        #![trigger queue.parts[i - queue.first_unacked]]
        queue.first_unacked <= i < queue.total() && other.first_unacked <= i implies queue.parts[i
        - queue.first_unacked].bytes == other.parts[i - other.first_unacked].bytes by {
        assert(other.parts[i - other.first_unacked].bytes == packets[i]@);
    }
    lemma_determined(queue, other);
}

/// Acks do not change what a queue was fed with.
proof fn lemma_fed_after_acks(queue: Queue, packets: Seq<PacketBuffer>, seq_indices: Seq<int>)
    requires
        queue.valid(),
        fed_by(queue, packets),
        forall|k: int| 0 <= k < seq_indices.len() ==> 0 <= #[trigger] seq_indices[k],
    ensures
        fed_by(acknowledged_all(queue, seq_indices), packets),
    decreases seq_indices.len(),
{
    if seq_indices.len() > 0 {
        let earlier = seq_indices.drop_last();
        lemma_fed_after_acks(queue, packets, earlier);
        law_all_acks(queue, earlier);
        let before = acknowledged_all(queue, earlier);
        law_ack_marks_one_part(before, seq_indices.last());
        let after = acknowledged_all(queue, seq_indices);
        assert forall|i: int| after.first_unacked <= i < after.total() implies (
        #[trigger] after.parts[i - after.first_unacked]).bytes == packets[i]@ by {
            assert(before.parts[i - before.first_unacked].bytes == packets[i]@);
        }
    }
}

/// Asking again for the datagrams to send, without an ack in between, takes nothing from the channel
/// and yields the same ones.
pub proof fn law_asking_again(
    before: Queue,
    after: Queue,
    again: Queue,
    inbox_before: Option<Inbox>,
    inbox_after: Option<Inbox>,
    inbox_again: Option<Inbox>,
    count: nat,
)
    requires
        before.valid(),
        refilled(before, after, inbox_before, inbox_after, count),
        refilled(after, again, inbox_after, inbox_again, count),
    ensures
        again == after,
        up_to(again.unacked(), count) == up_to(after.unacked(), count),
        delivered_since(inbox_after, inbox_again) == Seq::<PacketBuffer>::empty(),
{
    law_refill_only_adds(before, after, inbox_before, inbox_after, count);
    law_refill_only_adds(after, again, inbox_after, inbox_again, count);
    assert(again.parts == after.parts);
}

/// Nothing of the data is lost or repeated when it is appended: the rest continues where the
/// buffer ends, and there is a rest only if the buffer is full.
pub proof fn law_append_splits(
    before: PacketBuffer,
    after: PacketBuffer,
    data: Seq<u8>,
    rest: Seq<u8>,
)
    requires
        before.valid(),
        after.valid(),
        after@ == before@ + data.take(fitting(data, before.space())),
        rest == data.skip(fitting(data, before.space())),
    ensures
        after@ + rest == before@ + data,
        rest.len() > 0 ==> after.length() == PACKET_BUFFER_SIZE,
{
    assert(after@.len() == after.length());
    assert(before@.len() == before.length());
}

/// What is written behind the header leaves it alone.
pub proof fn law_append_keeps_header(storage: Seq<u8>, start: int, src: Seq<u8>)
    requires
        storage.len() == PACKET_BUFFER_SIZE,
        HEADER_LEN <= start,
        start + src.len() <= PACKET_BUFFER_SIZE,
    ensures
        overwritten(storage, start, src).take(HEADER_LEN as int) == storage.take(HEADER_LEN as int),
{
}

/// The next part has the next index, and everything else that it starts with, and the storage of
/// its payload, is that of the part before it.
pub proof fn law_next_part(storage: Seq<u8>, kind: PacketKind, id: Seq<u8>, seq_index: SeqIndex)
    requires
        storage.len() == PACKET_BUFFER_SIZE,
        id.len() == PACKET_ID_SIZE,
        seq_index < SeqIndex::MAX,
        storage.take(HEADER_LEN as int) == part_header(kind, id, seq_index),
    ensures
        seq_index_value(storage.subrange(PACKET_KIND_SIZE + PACKET_ID_SIZE, HEADER_LEN as int))
            == seq_index,
        with_seq_index(storage, (seq_index + 1) as SeqIndex).take(HEADER_LEN as int)
            == part_header(kind, id, (seq_index + 1) as SeqIndex),
        with_seq_index(storage, (seq_index + 1) as SeqIndex).skip(HEADER_LEN as int)
            == storage.skip(HEADER_LEN as int),
        with_seq_index(storage.take(HEADER_LEN as int), (seq_index + 1) as SeqIndex)
            == part_header(kind, id, (seq_index + 1) as SeqIndex),
{
    let header = part_header(kind, id, seq_index);
    law_seq_index_round_trip(seq_index, seq_index_bytes(seq_index));
    assert(storage.subrange(PACKET_KIND_SIZE + PACKET_ID_SIZE, HEADER_LEN as int)
        == seq_index_bytes(seq_index)) by {
        assert(storage.subrange(PACKET_KIND_SIZE + PACKET_ID_SIZE, HEADER_LEN as int)
            == storage.take(HEADER_LEN as int).skip(PACKET_KIND_SIZE + PACKET_ID_SIZE));
    }
    let start = PACKET_KIND_SIZE + PACKET_ID_SIZE;
    assert(storage.take(start) == header.take(start));
    assert(header.take(start) == seq![kind.code()] + id);
}

/// The header of the part that follows `count` parts after the one with the given header.
pub open spec fn later_header(header: Seq<u8>, count: nat) -> Seq<u8>
    decreases count,
{
    if count == 0 {
        header
    } else {
        let previous = later_header(header, (count - 1) as nat);
        let seq_index = seq_index_value(
            previous.subrange(PACKET_KIND_SIZE + PACKET_ID_SIZE, HEADER_LEN as int),
        );
        with_seq_index(previous, (seq_index + 1) as SeqIndex)
    }
}

/// The parts of a packet are numbered from zero on, and all have the id of the packet.
pub proof fn law_parts_are_numbered(id: Seq<u8>, count: nat)
    requires
        id.len() == PACKET_ID_SIZE,
        count <= SeqIndex::MAX,
    ensures
        later_header(part_header(PacketKind::Part, id, 0), count) == part_header(
            PacketKind::Part,
            id,
            count as SeqIndex,
        ),
    decreases count,
{
    if count > 0 {
        law_parts_are_numbered(id, (count - 1) as nat);
        let previous = part_header(PacketKind::Part, id, (count - 1) as SeqIndex);
        let storage = zero_padded(previous);
        assert(storage.take(HEADER_LEN as int) == previous);
        law_next_part(storage, PacketKind::Part, id, (count - 1) as SeqIndex);
        assert(storage.subrange(PACKET_KIND_SIZE + PACKET_ID_SIZE, HEADER_LEN as int)
            == previous.subrange(PACKET_KIND_SIZE + PACKET_ID_SIZE, HEADER_LEN as int));
    }
}

/// Marking a part as the last one changes its kind, but neither its id nor its index.
pub proof fn law_mark_last(storage: Seq<u8>, kind: PacketKind, id: Seq<u8>, seq_index: SeqIndex)
    requires
        storage.len() == PACKET_BUFFER_SIZE,
        id.len() == PACKET_ID_SIZE,
        storage.take(HEADER_LEN as int) == part_header(kind, id, seq_index),
    ensures
        storage.update(0, PacketKind::LastPart.code()).take(HEADER_LEN as int) == part_header(
            PacketKind::LastPart,
            id,
            seq_index,
        ),
{
    assert(storage.update(0, PacketKind::LastPart.code()).take(HEADER_LEN as int) == part_header(
        kind,
        id,
        seq_index,
    ).update(0, PacketKind::LastPart.code()));
}

/// The first byte of a datagram tells its kind, and the id of its packet can be read from it.
pub proof fn law_datagrams_are_told_apart(
    a: PacketKind,
    b: PacketKind,
    id: Seq<u8>,
    seq_index: SeqIndex,
)
    requires
        id.len() == PACKET_ID_SIZE,
    ensures
        a.code() == b.code() <==> a == b,
        part_header(a, id, seq_index)[0] == a.code(),
        part_header(a, id, seq_index).subrange(
            PACKET_KIND_SIZE as int,
            PACKET_KIND_SIZE + PACKET_ID_SIZE,
        ) == id,
        done_datagram(id)[0] == PacketKind::Done.code(),
        done_datagram(id).skip(PACKET_KIND_SIZE as int) == id,
{
}

/// The payload of a part: what follows its header.
pub open spec fn payload(part: PacketBuffer) -> Seq<u8> {
    part@.skip(HEADER_LEN as int)
}

/// The payloads of the parts, one after the other.
pub open spec fn joined(parts: Seq<PacketBuffer>) -> Seq<u8>
    decreases parts.len(),
{
    if parts.len() == 0 {
        seq![]
    } else {
        payload(parts[0]) + joined(parts.skip(1))
    }
}

/// `parts` are what the `empty` buffers become when `data` is appended to the first of them, the
/// rest of it to the next one, and so on until nothing is left.
pub open spec fn split_over(
    data: Seq<u8>,
    empty: Seq<PacketBuffer>,
    parts: Seq<PacketBuffer>,
) -> bool
    decreases parts.len(),
{
    if parts.len() == 0 {
        data.len() == 0
    } else {
        let taken = fitting(data, empty[0].space());
        &&& parts[0]@ == empty[0]@ + data.take(taken)
        &&& split_over(data.skip(taken), empty.skip(1), parts.skip(1))
    }
}

/// Data that is split over any number of parts is put together again from their payloads.
pub proof fn law_split_data_is_put_together_again(
    data: Seq<u8>,
    empty: Seq<PacketBuffer>,
    parts: Seq<PacketBuffer>,
)
    requires
        empty.len() == parts.len(),
        forall|i: int|
            0 <= i < empty.len() ==> (#[trigger] empty[i]).valid() && empty[i].length()
                == HEADER_LEN,
        split_over(data, empty, parts),
    ensures
        joined(parts) == data,
    decreases parts.len(),
{
    if parts.len() > 0 {
        let taken = fitting(data, empty[0].space());
        assert(empty[0].valid());
        assert forall|i: int| 0 <= i < empty.skip(1).len() implies (
        #[trigger] empty.skip(1)[i]).valid() && empty.skip(1)[i].length() == HEADER_LEN by {
            assert(empty[i + 1].valid());
        }
        law_split_data_is_put_together_again(data.skip(taken), empty.skip(1), parts.skip(1));
        assert(payload(parts[0]) == data.take(taken));
        assert(data == data.take(taken) + data.skip(taken));
    }
}

/// The parts that data is split over are numbered in their order, if each of the empty buffers
/// was made from the part before it.
pub proof fn law_split_parts_are_numbered(
    data: Seq<Seq<u8>>,
    empty: Seq<PacketBuffer>,
    parts: Seq<PacketBuffer>,
    id: Seq<u8>,
    index: int,
)
    requires
        id.len() == PACKET_ID_SIZE,
        data.len() == empty.len() == parts.len() <= SeqIndex::MAX,
        0 <= index < parts.len(),
        empty[0]@ == part_header(PacketKind::Part, id, 0),
        forall|i: int|
            0 <= i < parts.len() ==> (#[trigger] parts[i]).valid() && parts[i]@ == empty[i]@
                + data[i],
        forall|i: int|
            0 < i < empty.len() ==> (#[trigger] empty[i])@ == with_seq_index(
                parts[i - 1].header(),
                (parts[i - 1].seq_index() + 1) as SeqIndex,
            ),
    ensures
        parts[index].header() == part_header(PacketKind::Part, id, index as SeqIndex),
    decreases index,
{
    if index > 0 {
        let previous = parts[index - 1];
        law_split_parts_are_numbered(data, empty, parts, id, index - 1);
        law_next_part(previous.storage(), PacketKind::Part, id, (index - 1) as SeqIndex);
        assert(empty[index]@ == part_header(PacketKind::Part, id, index as SeqIndex));
    }
    assert(parts[index].valid());
    assert(parts[index].header() == parts[index]@.take(HEADER_LEN as int));
    assert(parts[index]@.take(HEADER_LEN as int) == empty[index]@);
}

/// Any ack at all, also a duplicate or one of a part that is not there yet, resets the missed acks.
///
/// It counts for the last batch exactly if it is the first one of a part that is there, and it
/// leaves everything else alone.
pub proof fn law_ack_counts(before: Outgoing, seq_index: SeqIndex)
    requires
        before.valid(),
    ensures
        ({
            let after = before.acknowledged(seq_index);
            let first = before.queue.first_unacked;
            let fresh = first <= seq_index && seq_index < first + before.queue.parts.len()
                && !before.queue.parts[seq_index - first].acked;
            &&& after.missed_acks == 0
            &&& fresh && before.last_batch_acks < BatchSize::MAX ==> after.last_batch_acks
                == before.last_batch_acks + 1
            &&& !fresh || before.last_batch_acks == BatchSize::MAX ==> after.last_batch_acks
                == before.last_batch_acks
            &&& after.batch_size == before.batch_size
            &&& after.last_batch_size == before.last_batch_size
            &&& after.last_send == before.last_send
            &&& after.channel == before.channel
            &&& !fresh ==> after.queue == before.queue
            &&& fresh ==> after.queue.is_acked(seq_index as int)
            &&& after.queue.total() == before.queue.total()
            &&& after.queue.unacked().len() == before.queue.unacked().len() - if fresh {
                1int
            } else {
                0int
            }
        }),
{
    let queue = before.queue;
    law_ack_marks_one_part(queue, seq_index as int);
    if seq_index < queue.total() {
        if queue.is_acked(seq_index as int) {
            law_duplicate_ack(queue, seq_index as int);
        } else {
            law_acked_part_is_not_sent_again(queue, seq_index as int);
        }
    }
    assert(before.acknowledged(seq_index).queue.is_acked(seq_index as int) <==> queue.is_acked(
        seq_index as int,
    ) || seq_index < queue.total());
}

/// After a batch it is known when it was sent and how much of it, none of it is acked yet, and what
/// was not acked of the one before is missed.
pub proof fn law_batch_is_remembered(before: Outgoing, count: BatchSize, now: Instant)
    ensures
        ({
            let after = before.batch_finished(count, now);
            &&& after.last_send == Some(now)
            &&& after.last_batch_size == count
            &&& after.last_batch_acks == 0
            &&& before.last_batch_acks >= before.last_batch_size ==> after.missed_acks
                == before.missed_acks
            &&& before.last_batch_acks < before.last_batch_size ==> after.missed_acks
                + before.last_batch_acks == before.missed_acks + before.last_batch_size
            &&& after.queue == before.queue
            &&& after.channel == before.channel
            &&& after.batch_size == before.batch_size
        }),
{
}

/// Nothing happens before the delay has passed.
pub proof fn law_waiting(
    before: Outgoing,
    after: Outgoing,
    elapsed: u128,
    id: Seq<u8>,
    resend_delay: u128,
    exchanges: Seq<Exchange>,
    result: std::io::Result<bool>,
)
    requires
        elapsed < resend_delay,
        pending_sent(before, after, elapsed, id, resend_delay, exchanges, result),
    ensures
        after == before,
        exchanges.len() == 0,
        result == Ok::<bool, std::io::Error>(false),
{
}

/// Once the delay has passed, the batch size is adapted to the acks of the last batch, and the queue
/// is refilled to that size.
///
/// If nothing is left then, only `Done` is sent, its reply is reported, and nothing else changes.
/// Otherwise the first unacked parts are sent. If the socket fails that is reported, and nothing
/// else changes. If not, the batch is remembered with the time that the clock shows.
pub proof fn law_resending(
    before: Outgoing,
    after: Outgoing,
    elapsed: u128,
    id: Seq<u8>,
    resend_delay: u128,
    exchanges: Seq<Exchange>,
    result: std::io::Result<bool>,
)
    requires
        before.valid(),
        elapsed >= resend_delay,
        pending_sent(before, after, elapsed, id, resend_delay, exchanges, result),
    ensures
        after.queue.valid(),
        before.last_batch_acks < before.last_batch_size && before.batch_size == 1
            ==> after.batch_size == 1,
        before.last_batch_acks < before.last_batch_size && before.batch_size > 1
            ==> after.batch_size == before.batch_size / 2,
        before.last_batch_acks >= before.last_batch_size && 2 * before.last_batch_size
            <= before.batch_size ==> after.batch_size == before.batch_size,
        before.last_batch_acks >= before.last_batch_size && before.batch_size < 2
            * before.last_batch_size <= BatchSize::MAX ==> after.batch_size == 2
            * before.last_batch_size,
        before.last_batch_acks >= before.last_batch_size && 2 * before.last_batch_size
            > BatchSize::MAX ==> after.batch_size == BatchSize::MAX,
        refilled(
            before.queue,
            after.queue,
            before.channel,
            after.channel,
            after.batch_size as nat,
        ),
        after.queue.parts.len() == 0 ==> {
            &&& exchanges.len() == 1
            &&& exchanges[0].datagram == done_datagram(id)
            &&& exchanges[0].reply == result
        },
        after.queue.parts.len() > 0 ==> {
            &&& 0 < exchanges.len() <= after.batch_size
            &&& exchanges.len() <= after.queue.unacked().len()
            &&& forall|i: int|
                0 <= i < exchanges.len() ==> (#[trigger] exchanges[i]).datagram
                    == after.queue.unacked()[i]
            &&& forall|i: int|
                0 <= i < exchanges.len() - 1 ==> (#[trigger] exchanges[i]).reply == Ok::<
                    bool,
                    std::io::Error,
                >(true)
            &&& exchanges.len() < after.batch_size && exchanges.len() < after.queue.unacked().len()
                ==> exchanges.last().reply != Ok::<bool, std::io::Error>(true)
        },
        after.queue.parts.len() == 0 || exchanges.last().reply is Err ==> {
            &&& result == exchanges.last().reply
            &&& after.missed_acks == before.missed_acks
            &&& after.last_batch_size == before.last_batch_size
            &&& after.last_batch_acks == before.last_batch_acks
            &&& after.last_send == before.last_send
        },
        after.queue.parts.len() > 0 && exchanges.last().reply is Ok ==> {
            &&& result == Ok::<bool, std::io::Error>(false)
            &&& exchanges.last().reply == Ok::<bool, std::io::Error>(true) ==> after.last_batch_size
                == exchanges.len()
            &&& exchanges.last().reply == Ok::<bool, std::io::Error>(false)
                ==> after.last_batch_size == exchanges.len() - 1
            &&& after.last_batch_acks == 0
            &&& before.last_batch_acks >= before.last_batch_size ==> after.missed_acks
                == before.missed_acks
            &&& before.last_batch_acks < before.last_batch_size ==> after.missed_acks
                + before.last_batch_acks == before.missed_acks + before.last_batch_size
            &&& exists|now: Instant| #[trigger]
                call_ensures(Instant::now, (), now) && after.last_send == Some(now)
        },
{
    law_balanced_exactly(before.batch_size, before.last_batch_acks, before.last_batch_size);
    let batch_size = before.next_batch_size();
    law_refill_only_adds(
        before.queue,
        after.queue,
        before.channel,
        after.channel,
        batch_size as nat,
    );
    law_first_unacked(after.queue);
    if after.queue.parts.len() > 0 {
        law_batch_hands_over_unacked_parts(after.queue, batch_size as nat, exchanges);
        law_batch_result(exchanges);
    }
}

/// The first batch fails exactly if the socket does, with the same error. Otherwise the packet is on
/// its way with all that it was made from, nothing of it acked or missed, the batch counted by what
/// the socket took of it, and the time that the clock shows.
pub proof fn law_starting(
    packet: SerializedPacket,
    batch_size: BatchSize,
    exchanges: Seq<Exchange>,
    result: std::io::Result<PacketOut>,
)
    requires
        initial_queue(packet).valid(),
        batch_size > 0,
        started(packet, batch_size, exchanges, result),
    ensures
        forall|error: std::io::Error|
            result == Err::<PacketOut, std::io::Error>(error) <==> (exchanges.len() > 0
                && exchanges.last().reply == Err::<bool, std::io::Error>(error)),
        exchanges.len() <= batch_size,
        packet matches SerializedPacket::Vec(packets) ==> {
            &&& exchanges.len() <= packets@.len()
            &&& forall|i: int|
                0 <= i < exchanges.len() ==> (#[trigger] exchanges[i]).datagram == packets@[i]@
            &&& exchanges.len() < batch_size && exchanges.len() < packets@.len() ==> exchanges.len()
                > 0 && exchanges.last().reply != Ok::<bool, std::io::Error>(true)
        },
        forall|i: int|
            0 <= i < exchanges.len() - 1 ==> (#[trigger] exchanges[i]).reply == Ok::<
                bool,
                std::io::Error,
            >(true),
        result matches Ok(out) ==> {
            &&& out@.queue.valid()
            &&& out@.queue.first_unacked == 0
            &&& forall|i: int|
                0 <= i < out@.queue.parts.len() ==> !(#[trigger] out@.queue.parts[i]).acked
            &&& forall|i: int|
                0 <= i < exchanges.len() ==> (#[trigger] exchanges[i]).datagram
                    == out@.queue.parts[i].bytes
            &&& packet matches SerializedPacket::Vec(packets) ==> {
                &&& out@.channel is None
                &&& out@.queue.parts.len() == packets@.len()
                &&& forall|i: int|
                    0 <= i < packets@.len() ==> (#[trigger] out@.queue.parts[i]).bytes
                        == packets@[i]@
            }
            &&& exchanges.len() < batch_size && exchanges.len() < out@.queue.parts.len() ==> {
                &&& exchanges.len() > 0
                &&& exchanges.last().reply != Ok::<bool, std::io::Error>(true)
            }
            &&& packet matches SerializedPacket::Channel(inbox) ==> {
                &&& out@.channel is Some
                &&& out@.channel->0.source() == inbox.source()
                &&& out@.queue.parts.len() <= batch_size
                &&& out@.queue.parts.len() < batch_size ==> out@.channel->0@.hung_up
                &&& out@.channel->0@.packets.len() == inbox@.packets.len() + out@.queue.parts.len()
                &&& forall|i: int|
                    0 <= i < out@.queue.parts.len() ==> (#[trigger] out@.queue.parts[i]).bytes
                        == out@.channel->0@.packets[inbox@.packets.len() + i]@
            }
            &&& out@.missed_acks == 0
            &&& out@.batch_size == batch_size
            &&& exchanges.len() == 0 ==> out@.last_batch_size == 0
            &&& exchanges.len() > 0 && exchanges.last().reply == Ok::<bool, std::io::Error>(true)
                ==> out@.last_batch_size == exchanges.len()
            &&& exchanges.len() > 0 && exchanges.last().reply == Ok::<bool, std::io::Error>(false)
                ==> out@.last_batch_size == exchanges.len() - 1
            &&& out@.last_batch_acks == 0
            &&& exists|now: Instant| #[trigger]
                call_ensures(Instant::now, (), now) && out@.last_send == Some(now)
        },
{
    law_initial_queue(packet);
    let before = initial_queue(packet);
    let (queue, inbox) = match result {
        Ok(out) => (out@.queue, out@.channel),
        Err(_) => choose|queue: Queue, inbox: Option<Inbox>|
            {
                &&& #[trigger] refilled(
                    initial_queue(packet),
                    queue,
                    initial_channel(packet),
                    inbox,
                    batch_size as nat,
                )
                &&& batch_exchanged(up_to(queue.unacked(), batch_size as nat), exchanges)
                &&& batch_result(exchanges) is Err
            },
    };
    law_refilled(before, queue, initial_channel(packet), inbox, batch_size as nat);
    law_refill_only_adds(before, queue, initial_channel(packet), inbox, batch_size as nat);
    law_batch_hands_over_unacked_parts(queue, batch_size as nat, exchanges);
    law_batch_result(exchanges);
    assert forall|i: int| 0 <= i < queue.parts.len() implies !(#[trigger] queue.parts[i]).acked by {
        if i < before.parts.len() {
            assert(queue.parts[i] == before.parts[i]);
        }
    }
    lemma_unacked_datagrams_of_fresh_parts(queue.parts);
    lemma_all_unacked(before.parts);
}

/// If no part is acked, all of their datagrams have to be sent.
proof fn lemma_unacked_datagrams_of_fresh_parts(parts: Seq<Part>)
    requires
        forall|i: int| 0 <= i < parts.len() ==> !(#[trigger] parts[i]).acked,
    ensures
        unacked_datagrams(parts).len() == parts.len(),
        forall|i: int|
            0 <= i < parts.len() ==> #[trigger] unacked_datagrams(parts)[i] == parts[i].bytes,
    decreases parts.len(),
{
    lemma_all_unacked(parts);
    if parts.len() > 0 {
        let last = parts.len() - 1;
        lemma_unacked_datagrams_of_fresh_parts(parts.take(last));
        assert(parts.take(last + 1) == parts);
        lemma_unacked_step(parts, last);
    }
}

} // verus!
