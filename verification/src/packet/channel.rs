//! Parts that another thread provides.

use std::sync::mpsc::{Receiver, RecvError};
use vstd::prelude::*;

use crate::packet::buffer::PacketBuffer;

verus! {

/// The receiving half of a channel of the standard library.
#[verifier::external_type_specification]
#[verifier::external_body]
#[verifier::reject_recursive_types(T)]
pub struct ExReceiver<T>(Receiver<T>);

/// The error for receiving from a channel whose senders are all gone.
#[verifier::external_type_specification]
#[verifier::external_body]
pub struct ExRecvError(RecvError);

/// Waits for the next value, or for the last sender to be gone.
///
/// Nothing is claimed of the result, which is up to the senders.
pub assume_specification<T>[ Receiver::<T>::recv ](rx: &Receiver<T>) -> Result<T, RecvError>
;

/// What a channel has provided so far.
#[verifier::ext_equal]
pub struct Deliveries {
    /// The packets, in the order in which they came.
    pub packets: Seq<PacketBuffer>,
    /// Whether the channel reported that no more packets are going to come.
    pub hung_up: bool,
}

/// The receiving half of a channel, together with a record of everything that came out of it.
///
/// This is the only way to reach the channel.
pub struct Inbox {
    rx: Receiver<PacketBuffer>,
    hung_up: bool,
    record: Ghost<Seq<PacketBuffer>>,
}

impl View for Inbox {
    type V = Deliveries;

    closed spec fn view(&self) -> Deliveries {
        Deliveries { packets: self.record@, hung_up: self.hung_up }
    }
}

impl Inbox {
    /// The channel itself.
    pub closed spec fn source(self) -> Receiver<PacketBuffer> {
        self.rx
    }

    /// Starts a record for the given channel.
    pub fn new(rx: Receiver<PacketBuffer>) -> (result: Self)
        ensures
            result@ == (Deliveries { packets: seq![], hung_up: false }),
            result.source() == rx,
    {
        Inbox { rx, hung_up: false, record: Ghost(Seq::empty()) }
    }

    /// Waits for the next packet, or for the channel to hang up.
    ///
    /// Nothing can come from a channel that has hung up, so it is not asked again.
    pub fn recv(&mut self) -> (result: Option<PacketBuffer>)
        ensures
            final(self).source() == old(self).source(),
            match result {
                Some(packet) => {
                    &&& packet.valid()
                    &&& !old(self)@.hung_up
                    &&& call_ensures(
                        Receiver::<PacketBuffer>::recv,
                        (&old(self).source(),),
                        Ok(packet),
                    )
                    &&& final(self)@ == (Deliveries {
                        packets: old(self)@.packets.push(packet),
                        hung_up: false,
                    })
                },
                None => {
                    &&& old(self)@.hung_up || exists|error: RecvError|
                        #[trigger] call_ensures(
                            Receiver::<PacketBuffer>::recv,
                            (&old(self).source(),),
                            Err(error),
                        )
                    &&& final(self)@ == (Deliveries {
                        packets: old(self)@.packets,
                        hung_up: true,
                    })
                },
            },
    {
        if self.hung_up {
            return None;
        }
        match self.rx.recv() {
            Ok(packet) => {
                proof {
                    use_type_invariant(&packet);
                }
                self.record = Ghost(self.record@.push(packet));
                Some(packet)
            },
            Err(_) => {
                self.hung_up = true;
                None
            },
        }
    }
}

/// The packets that the channel provided between `before` and `after`.
pub open spec fn delivered_since(before: Option<Inbox>, after: Option<Inbox>) -> Seq<PacketBuffer> {
    match (before, after) {
        (Some(earlier), Some(later)) => later@.packets.skip(earlier@.packets.len() as int),
        _ => seq![],
    }
}

/// The channel was asked for up to `wanted` packets, and for no more of them.
///
/// It provided fewer only if it hung up.
pub open spec fn received(before: Option<Inbox>, after: Option<Inbox>, wanted: nat) -> bool {
    let packets = delivered_since(before, after);
    match (before, after) {
        (Some(earlier), Some(later)) => {
            &&& later.source() == earlier.source()
            &&& later@.packets == earlier@.packets + packets
            &&& packets.len() <= wanted
            &&& forall|i: int| 0 <= i < packets.len() ==> (#[trigger] packets[i]).valid()
            &&& later@.hung_up == (earlier@.hung_up || packets.len() < wanted)
            &&& earlier@.hung_up ==> packets.len() == 0
        },
        (None, None) => true,
        _ => false,
    }
}

} // verus!
