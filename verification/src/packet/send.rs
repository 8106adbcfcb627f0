//! Packets on their way out.

use std::time::Instant;
use vstd::prelude::*;

use crate::packet::channel::Inbox;
use crate::packet::clock::{clock_can_elapse, clock_can_show, nanos_since};
use crate::packet::laws::law_refill_only_adds;
use crate::packet::queue::{
    batch_exchanged, batch_result, initial_channel, initial_queue, refilled, up_to, PacketQueue,
    Queue,
};
use crate::packet::serialize::SerializedPacket;
use crate::packet::socket::{continued, exchanges_since, Exchange, NonBlocking, Outbox};
use crate::packet::wire::{copy_into, done_datagram};
use crate::packet::{
    BatchSize, NonZeroBatchSize, PacketId, PacketKind, SeqIndex, SeqIndexAckedBeforeSent,
    DONE_DATAGRAM_SIZE, PACKET_KIND_SIZE, PART_PACKET_PAYLOAD_SIZE,
};

verus! {

/// Stores packets of any size so that they can be sent reliably.
///
/// Packets are automatically split into chunks.
pub struct PacketOut {
    /// Contains the packets to be sent.
    packet_queue: PacketQueue,
    /// The last time a batch of packets was sent.
    ///
    /// Set to [`None`] if the packet was canceled.
    last_send: Option<Instant>,
    /// How many times a packet had to be resent because it was not acked in time.
    ///
    /// - Incremented whenever a packet is resent.
    /// - Reset whenever a packet is acked, even for duplicates.
    missed_acks: usize,
    /// Up to how many packets are sent at once.
    batch_size: NonZeroBatchSize,
    /// How many packets were sent in the last batch.
    ///
    /// Can be zero if the socket is busy and would block.
    last_batch_size: BatchSize,
    /// How many acks have been received for the last batch.
    ///
    /// Might be greater than [`Self::last_batch_size`] if a misbehaving client acked packets that
    /// were never sent out. The sender does not remember which packets were already sent out, so
    /// this has to be kept in mind.
    last_batch_acks: BatchSize,
}

/// What a [`PacketOut`] knows of its packet.
#[verifier::ext_equal]
pub struct Outgoing {
    /// The parts of the packet.
    pub queue: Queue,
    /// The channel that provides more parts, with a record of what it has provided.
    pub channel: Option<Inbox>,
    /// When the last batch was sent, unless the packet was canceled.
    pub last_send: Option<Instant>,
    /// How many times a packet had to be resent.
    pub missed_acks: nat,
    /// Up to how many packets are sent at once.
    pub batch_size: BatchSize,
    /// How many packets were sent in the last batch.
    pub last_batch_size: BatchSize,
    /// How many acks were received since the last batch.
    pub last_batch_acks: BatchSize,
}

impl Outgoing {
    /// A batch is never empty, and acked parts are never left at the front of the queue.
    pub open spec fn valid(self) -> bool {
        self.queue.valid() && self.batch_size != 0
    }

    /// Whether the packet was canceled.
    pub open spec fn canceled(self) -> bool {
        self.last_send is None
    }

    /// How many packets of the last batch were not acked.
    pub open spec fn unanswered(self) -> nat {
        if self.last_batch_acks < self.last_batch_size {
            (self.last_batch_size - self.last_batch_acks) as nat
        } else {
            0
        }
    }

    /// Whether the missed acks can still be counted after one more batch, if there can be one.
    pub open spec fn can_send_pending(self) -> bool {
        self.canceled() || self.missed_acks + self.unanswered() <= usize::MAX
    }

    /// Up to how many packets are sent at once in the next batch.
    pub open spec fn next_batch_size(self) -> BatchSize {
        balanced(self.batch_size, self.last_batch_acks, self.last_batch_size)
    }

    /// The state after an ack.
    ///
    /// Only the first ack of a part counts for the last batch, but any ack at all tells that the
    /// other side is still there.
    pub open spec fn acknowledged(self, seq_index: SeqIndex) -> Outgoing {
        let first = seq_index < self.queue.total() && !self.queue.is_acked(seq_index as int);
        Outgoing {
            queue: self.queue.acknowledged(seq_index as int),
            missed_acks: 0,
            last_batch_acks: if first && self.last_batch_acks < BatchSize::MAX {
                (self.last_batch_acks + 1) as BatchSize
            } else {
                self.last_batch_acks
            },
            ..self
        }
    }

    /// The state after a batch of `count` packets was sent.
    pub open spec fn batch_finished(self, count: BatchSize, now: Instant) -> Outgoing {
        Outgoing {
            last_send: Some(now),
            missed_acks: self.missed_acks + self.unanswered(),
            last_batch_size: count,
            last_batch_acks: 0,
            ..self
        }
    }
}

/// The batch size after one of which `acks` out of `sent` packets were acked.
///
/// Up to twice as much as was sent if that was enough to get all acks, and never less than before.
/// Half of what it was if not, but at least one.
pub open spec fn balanced(batch_size: BatchSize, acks: BatchSize, sent: BatchSize) -> BatchSize {
    if acks >= sent {
        if 2 * sent > BatchSize::MAX {
            BatchSize::MAX
        } else if 2 * sent > batch_size {
            (2 * sent) as BatchSize
        } else {
            batch_size
        }
    } else if batch_size < 2 {
        1
    } else {
        batch_size / 2
    }
}

/// What comes of sending the first batch of a packet.
///
/// The batch counts as sent even if the socket was too busy to take all of it.
pub open spec fn started(
    packet: SerializedPacket,
    batch_size: BatchSize,
    exchanges: Seq<Exchange>,
    result: std::io::Result<PacketOut>,
) -> bool {
    match result {
        Ok(out) => {
            &&& refilled(
                initial_queue(packet),
                out@.queue,
                initial_channel(packet),
                out@.channel,
                batch_size as nat,
            )
            &&& batch_exchanged(up_to(out@.queue.unacked(), batch_size as nat), exchanges)
            &&& batch_result(exchanges) matches Ok((count, _))
            &&& exists|now: Instant|
                #[trigger] clock_can_show(now) && out@ == (Outgoing {
                    queue: out@.queue,
                    channel: out@.channel,
                    last_send: Some(now),
                    missed_acks: 0,
                    batch_size,
                    last_batch_size: count,
                    last_batch_acks: 0,
                })
        },
        Err(error) => exists|queue: Queue, inbox: Option<Inbox>|
            {
                &&& #[trigger] refilled(
                    initial_queue(packet),
                    queue,
                    initial_channel(packet),
                    inbox,
                    batch_size as nat,
                )
                &&& batch_exchanged(up_to(queue.unacked(), batch_size as nat), exchanges)
                &&& batch_result(exchanges) == Err::<(BatchSize, bool), std::io::Error>(error)
            },
    }
}

/// How `before` turns into `after` when parts of the packet are resent, in which `exchanges` are all
/// that is handed to the socket.
///
/// These are the parts of the next batch, or `Done` alone if nothing is left to be sent.
pub open spec fn resent(
    before: Outgoing,
    after: Outgoing,
    id: Seq<u8>,
    exchanges: Seq<Exchange>,
    result: std::io::Result<bool>,
) -> bool {
    let batch_size = before.next_batch_size();
    let datagrams = up_to(after.queue.unacked(), batch_size as nat);
    let begun = Outgoing { queue: after.queue, channel: after.channel, batch_size, ..before };
    &&& refilled(before.queue, after.queue, before.channel, after.channel, batch_size as nat)
    &&& if datagrams.len() == 0 {
        &&& after == begun
        &&& exchanges == seq![Exchange { datagram: done_datagram(id), reply: result }]
    } else {
        &&& batch_exchanged(datagrams, exchanges)
        &&& match batch_result(exchanges) {
            Ok((count, _)) => {
                &&& exists|now: Instant|
                    #[trigger] clock_can_show(now) && after == begun.batch_finished(count, now)
                &&& result matches Ok(done) && !done
            },
            Err(error) => {
                &&& after == begun
                &&& result == Err::<bool, std::io::Error>(error)
            },
        }
    }
}

/// How `before` turns into `after` when the packet is looked after while it is not canceled and
/// `elapsed` nanoseconds have passed since the last batch, in which `exchanges` are all that is
/// handed to the socket.
pub open spec fn pending_sent(
    before: Outgoing,
    after: Outgoing,
    elapsed: u128,
    id: Seq<u8>,
    resend_delay: u128,
    exchanges: Seq<Exchange>,
    result: std::io::Result<bool>,
) -> bool {
    if elapsed < resend_delay {
        &&& after == before
        &&& exchanges.len() == 0
        &&& result matches Ok(done) && !done
    } else {
        resent(before, after, id, exchanges, result)
    }
}

impl View for PacketOut {
    type V = Outgoing;

    closed spec fn view(&self) -> Outgoing {
        Outgoing {
            queue: self.packet_queue@,
            channel: self.packet_queue.channel(),
            last_send: self.last_send,
            missed_acks: self.missed_acks as nat,
            batch_size: self.batch_size@,
            last_batch_size: self.last_batch_size,
            last_batch_acks: self.last_batch_acks,
        }
    }
}

impl PacketOut {
    /// Sends the first batch of a packet.
    pub fn send<S: NonBlocking>(
        packet: SerializedPacket,
        outbox: &mut Outbox<S>,
        initial_batch_size: NonZeroBatchSize,
    ) -> (result: std::io::Result<Self>)
        ensures
            continued(*old(outbox), *final(outbox)),
            started(
                packet,
                initial_batch_size@,
                exchanges_since(*old(outbox), *final(outbox)),
                result,
            ),
            result matches Ok(out) ==> out@.valid() && out@.queue.total() <= usize::MAX,
    {
        proof {
            use_type_invariant(&initial_batch_size);
        }
        let mut packet_queue = PacketQueue::new(packet);
        match packet_queue.send_unacked(initial_batch_size, outbox) {
            Ok((last_batch_size, _)) => {
                let now = Instant::now();
                assert(clock_can_show(now));
                Ok(
                    PacketOut {
                        packet_queue,
                        last_send: Some(now),
                        missed_acks: 0,
                        batch_size: initial_batch_size,
                        last_batch_size,
                        last_batch_acks: 0,
                    },
                )
            },
            Err(error) => {
                assert(refilled(
                    initial_queue(packet),
                    packet_queue@,
                    initial_channel(packet),
                    packet_queue.channel(),
                    initial_batch_size@ as nat,
                ));
                Err(error)
            },
        }
    }

    /// Marks the given packet as acked and returns true if it was already acked previously.
    pub fn ack(&mut self, seq_index: SeqIndex) -> (result: Result<bool, SeqIndexAckedBeforeSent>)
        requires
            old(self)@.valid(),
            old(self)@.queue.total() <= usize::MAX,
        ensures
            final(self)@.valid(),
            final(self)@ == old(self)@.acknowledged(seq_index),
            result == Ok::<bool, SeqIndexAckedBeforeSent>(false) <==> {
                &&& old(self)@.queue.first_unacked <= seq_index
                &&& seq_index < old(self)@.queue.first_unacked + old(self)@.queue.parts.len()
                &&& !old(self)@.queue.parts[seq_index - old(self)@.queue.first_unacked].acked
            },
            final(self)@.missed_acks == 0,
            final(self)@.last_batch_acks == if old(self)@.last_batch_acks < BatchSize::MAX && result
                == Ok::<bool, SeqIndexAckedBeforeSent>(false) {
                old(self)@.last_batch_acks + 1
            } else {
                old(self)@.last_batch_acks as int
            },
            final(self)@.batch_size == old(self)@.batch_size,
            final(self)@.last_batch_size == old(self)@.last_batch_size,
            final(self)@.last_send == old(self)@.last_send,
            final(self)@.channel == old(self)@.channel,
            match result {
                Ok(already) => {
                    &&& seq_index < old(self)@.queue.total()
                    &&& already == old(self)@.queue.is_acked(seq_index as int)
                },
                Err(error) => {
                    &&& seq_index >= old(self)@.queue.total()
                    &&& error == SeqIndexAckedBeforeSent { seq_index }
                },
            },
    {
        self.missed_acks = 0;
        let already: bool = self.packet_queue.ack(seq_index)?;
        if already {
            return Ok(true);
        }
        self.last_batch_acks = self.last_batch_acks.saturating_add(1);
        Ok(false)
    }

    /// Resends parts of the packet that have not yet been acked, if at least `resend_delay`
    /// nanoseconds have passed since the last batch.
    ///
    /// Returns `true` if the entire packet was acked and a `Done` was sent out, meaning the packet
    /// can be discarded.
    pub fn send_pending<S: NonBlocking>(
        &mut self,
        id: PacketId,
        resend_delay: u128,
        outbox: &mut Outbox<S>,
    ) -> (result: std::io::Result<bool>)
        requires
            old(self)@.valid(),
            old(self)@.can_send_pending(),
        ensures
            final(self)@.valid(),
            final(self)@.queue.total() <= old(self)@.queue.total() + BatchSize::MAX,
            old(self)@.channel is None ==> final(self)@.queue == old(self)@.queue,
            continued(*old(outbox), *final(outbox)),
            match old(self)@.last_send {
                Some(last_send) => exists|elapsed: u128| #[trigger]
                    clock_can_elapse(last_send, elapsed) && pending_sent(
                        old(self)@,
                        final(self)@,
                        elapsed,
                        id@,
                        resend_delay,
                        exchanges_since(*old(outbox), *final(outbox)),
                        result,
                    ),
                None => {
                    &&& final(self)@ == old(self)@
                    &&& exchanges_since(*old(outbox), *final(outbox)) == seq![
                        Exchange { datagram: done_datagram(id@), reply: result },
                    ]
                },
            },
    {
        match &self.last_send {
            Some(last_send) => {
                let elapsed: u128 = nanos_since(last_send);
                self.send_pending_after(elapsed, id, resend_delay, outbox)
            },
            None => done(id, outbox),
        }
    }

    /// [`Self::send_pending`] for a packet that is not canceled, `elapsed` nanoseconds after its
    /// last batch.
    pub fn send_pending_after<S: NonBlocking>(
        &mut self,
        elapsed: u128,
        id: PacketId,
        resend_delay: u128,
        outbox: &mut Outbox<S>,
    ) -> (result: std::io::Result<bool>)
        requires
            old(self)@.valid(),
            !old(self)@.canceled(),
            old(self)@.can_send_pending(),
        ensures
            final(self)@.valid(),
            final(self)@.queue.total() <= old(self)@.queue.total() + BatchSize::MAX,
            old(self)@.channel is None ==> final(self)@.queue == old(self)@.queue,
            continued(*old(outbox), *final(outbox)),
            pending_sent(
                old(self)@,
                final(self)@,
                elapsed,
                id@,
                resend_delay,
                exchanges_since(*old(outbox), *final(outbox)),
                result,
            ),
    {
        if elapsed < resend_delay {
            assert(exchanges_since(*old(outbox), *outbox) == Seq::<Exchange>::empty());
            return Ok(false);
        }
        self.batch_size = Self::balance_batch_size(
            self.batch_size,
            self.last_batch_acks,
            self.last_batch_size,
        );
        let batch = self.packet_queue.send_unacked(self.batch_size, outbox);
        let ghost begun = self@;
        proof {
            law_refill_only_adds(
                old(self)@.queue,
                begun.queue,
                old(self)@.channel,
                begun.channel,
                begun.batch_size as nat,
            );
            assert(begun == Outgoing {
                queue: begun.queue,
                channel: begun.channel,
                batch_size: old(self)@.next_batch_size(),
                ..old(self)@
            });
        }
        match batch {
            Ok((count, all)) => {
                if self.finish_batch(count, all) {
                    done(id, outbox)
                } else {
                    Ok(false)
                }
            },
            Err(error) => Err(error),
        }
    }

    /// Takes note of a batch of which `count` packets were sent, `all` of them if none would have
    /// blocked.
    ///
    /// Returns `true` if nothing was left to be sent, which means that all packets are acked.
    pub fn finish_batch(&mut self, count: BatchSize, all: bool) -> (nothing_left: bool)
        requires
            old(self)@.valid(),
            count == 0 && all || old(self)@.missed_acks + old(self)@.unanswered() <= usize::MAX,
        ensures
            final(self)@.valid(),
            nothing_left == (count == 0 && all),
            if nothing_left {
                final(self)@ == old(self)@
            } else {
                exists|now: Instant| #[trigger]
                    clock_can_show(now) && final(self)@ == old(self)@.batch_finished(count, now)
            },
            !nothing_left ==> {
                &&& exists|now: Instant| #[trigger]
                    call_ensures(Instant::now, (), now) && final(self)@.last_send == Some(now)
                &&& old(self)@.last_batch_acks >= old(self)@.last_batch_size
                    ==> final(self)@.missed_acks == old(self)@.missed_acks
                &&& old(self)@.last_batch_acks < old(self)@.last_batch_size
                    ==> final(self)@.missed_acks - old(self)@.missed_acks
                    == old(self)@.last_batch_size - old(self)@.last_batch_acks
                &&& final(self)@.last_batch_size == count
                &&& final(self)@.last_batch_acks == 0
                &&& final(self)@.batch_size == old(self)@.batch_size
                &&& final(self)@.queue == old(self)@.queue
                &&& final(self)@.channel == old(self)@.channel
            },
    {
        if count == 0 && all {
            return true;
        }
        self.missed_acks = self.missed_acks + self.last_batch_size.saturating_sub(
            self.last_batch_acks,
        ) as usize;
        self.last_batch_size = count;
        self.last_batch_acks = 0;
        let now = Instant::now();
        assert(clock_can_show(now));
        self.last_send = Some(now);
        assert(self@ == old(self)@.batch_finished(count, now));
        false
    }

    /// Marks this packet as canceled.
    ///
    /// This causes [`Self::send_pending`] to send out `Done`, even if it has not yet been acked.
    pub fn cancel(&mut self)
        ensures
            final(self)@ == (Outgoing { last_send: None, ..old(self)@ }),
    {
        self.last_send = None;
    }

    /// Returns whether [`Self::ack`] can be called, for which the number of all parts so far has to
    /// be small enough to be told.
    pub fn can_ack(&self) -> (result: bool)
        ensures
            result == (self@.queue.total() <= usize::MAX),
    {
        self.packet_queue.can_ack()
    }

    /// Returns whether [`Self::send_pending`] can be called, for which the number of missed acks has
    /// to be small enough to be told.
    pub fn can_send_pending(&self) -> (result: bool)
        ensures
            result == self@.can_send_pending(),
    {
        match &self.last_send {
            Some(_) => self.missed_acks <= usize::MAX - self.last_batch_size.saturating_sub(
                self.last_batch_acks,
            ) as usize,
            None => true,
        }
    }

    /// Returns how many parts in front of the first unacked one have been acked.
    pub fn acked_parts(&self) -> (result: usize)
        ensures
            result == self@.queue.first_unacked,
    {
        self.packet_queue.first_unacked()
    }

    /// Returns an estimate for the number of payload bytes that have been acked.
    pub fn acked_bytes(&self) -> (result: usize)
        requires
            self@.queue.first_unacked * PART_PACKET_PAYLOAD_SIZE <= usize::MAX,
        ensures
            result == self@.queue.first_unacked * PART_PACKET_PAYLOAD_SIZE,
    {
        self.packet_queue.first_unacked() * PART_PACKET_PAYLOAD_SIZE
    }

    /// Returns how many times a packet had to be resent since the last ack.
    pub fn missed_acks(&self) -> (result: usize)
        ensures
            result == self@.missed_acks,
    {
        self.missed_acks
    }

    /// Up to this many packets are being sent at once.
    ///
    /// This value is balanced automatically.
    pub fn batch_size(&self) -> (result: NonZeroBatchSize)
        ensures
            result@ == self@.batch_size,
    {
        self.batch_size
    }

    /// Returns an estimate for the current number of bytes of the payload, sent by the last batch.
    ///
    /// This is only an estimate and might even be bigger than the payload of the whole packet, but
    /// since this is intended to be used for measuring throughput, it should not matter all that
    /// much.
    pub fn last_batch_bytes(&self) -> (result: usize)
        ensures
            result == self@.last_batch_size * PART_PACKET_PAYLOAD_SIZE,
    {
        assert(self.last_batch_size * PART_PACKET_PAYLOAD_SIZE <= u32::MAX) by (nonlinear_arith)
            requires
                self.last_batch_size <= 0xffff,
                PART_PACKET_PAYLOAD_SIZE <= 0xffff,
        ;
        self.last_batch_size as usize * PART_PACKET_PAYLOAD_SIZE
    }

    /// Adjusts the batch size based on the number of acked chunks.
    pub fn balance_batch_size(
        old_batch_size: NonZeroBatchSize,
        last_batch_acks: BatchSize,
        last_batch_size: BatchSize,
    ) -> (result: NonZeroBatchSize)
        ensures
            result@ == balanced(old_batch_size@, last_batch_acks, last_batch_size),
    {
        let old_size: BatchSize = old_batch_size.get();
        // last_batch_acks might be greater if the client is pretending to receive packets that were
        // never sent; since the sender does not remember which packets it sent, just ignore it
        if last_batch_acks >= last_batch_size {
            // all packets of the last batch were acked, try up to twice as much next time
            //
            // using last_batch_size instead of old_batch_size prevents the batch size from growing
            // indefinitely if there are a lot of tiny packets that all get acked
            let doubled: BatchSize = last_batch_size.saturating_add(last_batch_size);
            // a batch can contain less than old_batch_size packets, never lower it
            if doubled > old_size {
                NonZeroBatchSize::at_least_one(doubled)
            } else {
                old_batch_size
            }
        } else {
            // not all packets of the last batch were acked, cut the batch size in half
            //
            // this uses old_batch_size instead of last_batch_size, since the last batch might have
            // dropped some packets despite being e.g. just a single packet, which would lower the
            // batch size down all the way to one unnecessarily
            //
            // a batch should always contain at least one packet
            NonZeroBatchSize::at_least_one(old_size / 2)
        }
    }
}

/// Sends the datagram that tells that the packet with the given id is done.
pub fn done<S: NonBlocking>(id: PacketId, outbox: &mut Outbox<S>) -> (result: std::io::Result<bool>)
    ensures
        final(outbox).record() == old(outbox).record().push(
            Exchange { datagram: done_datagram(id@), reply: result },
        ),
        continued(*old(outbox), *final(outbox)),
        exchanges_since(*old(outbox), *final(outbox)) == seq![
            Exchange { datagram: done_datagram(id@), reply: result },
        ],
{
    let mut datagram: [u8; DONE_DATAGRAM_SIZE] = [0; DONE_DATAGRAM_SIZE];
    datagram[0] = u8::from(PacketKind::Done);
    copy_into(&mut datagram, PACKET_KIND_SIZE, id.as_bytes());
    assert(datagram@ == done_datagram(id@));
    let result = outbox.send(&datagram);
    assert(outbox.record() == old(outbox).record() + exchanges_since(*old(outbox), *outbox));
    result
}

} // verus!
