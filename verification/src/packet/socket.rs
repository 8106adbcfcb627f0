//! The socket that datagrams are sent over.

use vstd::prelude::*;

verus! {

/// The error that sockets of the standard library report.
#[verifier::external_type_specification]
#[verifier::external_body]
pub struct ExIoError(std::io::Error);

/// A socket that never waits.
pub trait NonBlocking {
    /// Sends a single datagram.
    ///
    /// Returns `false`, without having sent anything, if the socket would have to wait.
    fn send(&self, data: &[u8]) -> std::io::Result<bool>;
}

/// A datagram that was handed to the socket, and what the socket replied.
pub struct Exchange {
    /// The datagram.
    pub datagram: Seq<u8>,
    /// Whether it was taken.
    pub reply: std::io::Result<bool>,
}

impl Exchange {
    /// Whether the socket took the datagram.
    pub open spec fn taken(self) -> bool {
        self.reply matches Ok(taken) && taken
    }
}

/// A socket, together with a record of everything that was handed to it.
///
/// This is the only way to reach the socket.
pub struct Outbox<S: NonBlocking> {
    socket: S,
    record: Ghost<Seq<Exchange>>,
}

impl<S: NonBlocking> Outbox<S> {
    /// Everything that was handed to the socket so far, in that order.
    pub closed spec fn record(self) -> Seq<Exchange> {
        self.record@
    }

    /// The socket itself.
    pub closed spec fn socket(self) -> S {
        self.socket
    }

    /// Starts a record for the given socket.
    pub fn new(socket: S) -> (result: Self)
        ensures
            result.record() == Seq::<Exchange>::empty(),
            result.socket() == socket,
    {
        Outbox { socket, record: Ghost(Seq::empty()) }
    }

    /// Sends a single datagram and returns what the socket replied.
    pub fn send(&mut self, data: &[u8]) -> (reply: std::io::Result<bool>)
        ensures
            final(self).record() == old(self).record().push(Exchange { datagram: data@, reply }),
            final(self).socket() == old(self).socket(),
            call_ensures(S::send, (&old(self).socket(), data), reply),
    {
        let reply = self.socket.send(data);
        self.record = Ghost(self.record@.push(Exchange { datagram: data@, reply }));
        reply
    }
}

/// What was handed to the socket between `before` and `after`.
pub open spec fn exchanges_since<S: NonBlocking>(
    before: Outbox<S>,
    after: Outbox<S>,
) -> Seq<Exchange> {
    after.record().skip(before.record().len() as int)
}

/// `after` is the same outbox as `before`, later on.
pub open spec fn continued<S: NonBlocking>(before: Outbox<S>, after: Outbox<S>) -> bool {
    &&& after.record() == before.record() + exchanges_since(before, after)
    &&& after.socket() == before.socket()
}

} // verus!
