//! Packets that are ready to be sent.

use vstd::prelude::*;

use crate::packet::buffer::PacketBuffer;
use crate::packet::channel::Inbox;

verus! {

/// The parts that a packet was serialized into.
pub enum SerializedPacket {
    /// All parts of the packet.
    Vec(Vec<PacketBuffer>),
    /// A channel that hands over the parts one after the other.
    Channel(Inbox),
}

} // verus!
