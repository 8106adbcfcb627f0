use std::cell::RefCell;
use std::io;
use std::ops::Deref;
use std::sync::mpsc::channel;

use ultinet::packet::buffer::PacketBuffer;
use ultinet::packet::channel::Inbox;
use ultinet::packet::send::{done, PacketOut};
use ultinet::packet::serialize::SerializedPacket;
use ultinet::packet::socket::{NonBlocking, Outbox};
use ultinet::packet::{
    NonZeroBatchSize, PacketId, SeqIndexAckedBeforeSent, PART_PACKET_PAYLOAD_SIZE,
};

const NEVER: u128 = u128::MAX;

/// Takes a number of datagrams before it is busy, or fails.
struct Network {
    sent: RefCell<Vec<Vec<u8>>>,
    room: RefCell<usize>,
    broken: bool,
}

impl Network {
    fn with_room(room: usize) -> Network {
        Network { sent: RefCell::new(Vec::new()), room: RefCell::new(room), broken: false }
    }

    fn take_sent(&self) -> Vec<Vec<u8>> {
        self.sent.take()
    }
}

struct Socket<'a>(&'a Network);

impl NonBlocking for Socket<'_> {
    fn send(&self, data: &[u8]) -> io::Result<bool> {
        if *self.0.room.borrow() == 0 {
            if self.0.broken {
                return Err(io::Error::new(io::ErrorKind::Other, "broken"));
            }
            return Ok(false);
        }
        *self.0.room.borrow_mut() -= 1;
        self.0.sent.borrow_mut().push(data.to_vec());
        Ok(true)
    }
}

fn id() -> PacketId {
    PacketId::from_bytes([3; 16])
}

fn done_datagram() -> Vec<u8> {
    let mut datagram = vec![3; 17];
    datagram[0] = 2;
    datagram
}

fn parts(count: usize) -> Vec<PacketBuffer> {
    let mut parts: Vec<PacketBuffer> = Vec::new();
    let mut part = PacketBuffer::new(id());
    for _ in 0..count {
        let next = part.new_next();
        parts.push(part);
        part = next;
    }
    parts
}

fn datagrams(count: usize) -> Vec<Vec<u8>> {
    parts(count).iter().map(|part| part.deref().to_vec()).collect()
}

fn batch(size: u16) -> NonZeroBatchSize {
    NonZeroBatchSize::new(size).unwrap()
}

fn start(count: usize, size: u16, network: &Network) -> PacketOut {
    PacketOut::send(SerializedPacket::Vec(parts(count)), &mut Outbox::new(Socket(network)), batch(size)).unwrap()
}

fn balance(old: u16, acks: u16, sent: u16) -> u16 {
    PacketOut::balance_batch_size(batch(old), acks, sent).get()
}

#[test]
fn batch_size_is_not_zero() {
    assert!(NonZeroBatchSize::new(0).is_none());
    assert_eq!(NonZeroBatchSize::new(5).unwrap().get(), 5);
    assert_eq!(NonZeroBatchSize::at_least_one(0).get(), 1);
    assert_eq!(NonZeroBatchSize::at_least_one(5).get(), 5);
}

#[test]
fn batch_size_grows_with_what_was_acked() {
    assert_eq!(balance(4, 4, 4), 8);
    assert_eq!(balance(4, 5, 4), 8);
    assert_eq!(balance(4, 3, 3), 6);
    assert_eq!(balance(u16::MAX, 40_000, 40_000), u16::MAX);
    assert_eq!(balance(5, 40_000, 40_000), u16::MAX);
}

#[test]
fn batch_size_is_not_lowered_by_small_batches() {
    assert_eq!(balance(100, 1, 1), 100);
    assert_eq!(balance(100, 0, 0), 100);
    assert_eq!(balance(1, 0, 0), 1);
}

#[test]
fn batch_size_is_halved_if_acks_are_missing() {
    assert_eq!(balance(8, 7, 8), 4);
    assert_eq!(balance(9, 0, 1), 4);
    assert_eq!(balance(1, 0, 1), 1);
}

#[test]
fn done_names_the_packet() {
    let network = Network::with_room(1);
    assert!(done(id(), &mut Outbox::new(Socket(&network))).unwrap());
    assert_eq!(network.take_sent(), vec![done_datagram()]);
    assert!(!done(id(), &mut Outbox::new(Socket(&network))).unwrap());
    assert_eq!(network.take_sent().len(), 0);
}

#[test]
fn first_batch_is_sent_at_once() {
    let network = Network::with_room(10);
    let out = start(5, 3, &network);
    assert_eq!(network.take_sent(), datagrams(3));
    assert_eq!(out.batch_size().get(), 3);
    assert_eq!(out.missed_acks(), 0);
    assert_eq!(out.acked_bytes(), 0);
    assert_eq!(out.last_batch_bytes(), 3 * PART_PACKET_PAYLOAD_SIZE);
}

#[test]
fn first_batch_can_fail() {
    let mut network = Network::with_room(1);
    network.broken = true;
    match PacketOut::send(SerializedPacket::Vec(parts(2)), &mut Outbox::new(Socket(&network)), batch(2)) {
        Ok(_) => panic!("the socket is broken"),
        Err(error) => assert_eq!(error.to_string(), "broken"),
    }
}

#[test]
fn nothing_is_resent_before_the_delay_has_passed() {
    let network = Network::with_room(10);
    let mut out = start(2, 2, &network);
    network.take_sent();
    assert!(!out.send_pending(id(), NEVER, &mut Outbox::new(Socket(&network))).unwrap());
    assert_eq!(network.take_sent().len(), 0);
    assert_eq!(out.missed_acks(), 0);
    assert!(!out.send_pending_after(9, id(), 10, &mut Outbox::new(Socket(&network))).unwrap());
    assert_eq!(network.take_sent().len(), 0);
    assert!(!out.send_pending_after(10, id(), 10, &mut Outbox::new(Socket(&network))).unwrap());
    assert_eq!(network.take_sent(), datagrams(1));
}

#[test]
fn packet_is_done_once_it_is_acked() {
    let network = Network::with_room(100);
    let mut out = start(3, 2, &network);
    network.take_sent();
    assert_eq!(out.ack(0), Ok(false));
    assert_eq!(out.acked_bytes(), PART_PACKET_PAYLOAD_SIZE);
    assert_eq!(out.ack(1), Ok(false));
    assert!(!out.send_pending(id(), 0, &mut Outbox::new(Socket(&network))).unwrap());
    assert_eq!(network.take_sent(), datagrams(3)[2..]);
    assert_eq!(out.batch_size().get(), 4);
    assert_eq!(out.missed_acks(), 0);
    assert_eq!(out.ack(2), Ok(false));
    assert_eq!(out.acked_bytes(), 3 * PART_PACKET_PAYLOAD_SIZE);
    assert!(out.send_pending(id(), 0, &mut Outbox::new(Socket(&network))).unwrap());
    assert_eq!(network.take_sent(), vec![done_datagram()]);
}

#[test]
fn done_is_tried_again_if_the_socket_is_busy() {
    let network = Network::with_room(1);
    let mut out = start(1, 1, &network);
    assert_eq!(out.ack(0), Ok(false));
    network.take_sent();
    assert!(!out.send_pending(id(), 0, &mut Outbox::new(Socket(&network))).unwrap());
    *network.room.borrow_mut() = 1;
    assert!(out.send_pending(id(), 0, &mut Outbox::new(Socket(&network))).unwrap());
    assert_eq!(network.take_sent(), vec![done_datagram()]);
}

#[test]
fn missed_acks_are_counted_and_reset() {
    let network = Network::with_room(100);
    let mut out = start(8, 8, &network);
    network.take_sent();
    assert_eq!(out.ack(0), Ok(false));
    assert!(!out.send_pending(id(), 0, &mut Outbox::new(Socket(&network))).unwrap());
    assert_eq!(out.missed_acks(), 7);
    assert_eq!(out.batch_size().get(), 4);
    assert_eq!(network.take_sent(), datagrams(8)[1..5]);
    assert!(!out.send_pending(id(), 0, &mut Outbox::new(Socket(&network))).unwrap());
    assert_eq!(out.missed_acks(), 11);
    assert_eq!(out.batch_size().get(), 2);
    assert_eq!(out.ack(0), Ok(true));
    assert_eq!(out.missed_acks(), 0);
    assert!(!out.send_pending(id(), 0, &mut Outbox::new(Socket(&network))).unwrap());
    assert_eq!(out.missed_acks(), 2);
}

#[test]
fn duplicate_acks_do_not_count_for_the_batch() {
    let network = Network::with_room(100);
    let mut out = start(4, 2, &network);
    assert_eq!(out.ack(0), Ok(false));
    assert_eq!(out.ack(0), Ok(true));
    assert!(!out.send_pending(id(), 0, &mut Outbox::new(Socket(&network))).unwrap());
    assert_eq!(out.batch_size().get(), 1);
    assert_eq!(out.missed_acks(), 1);
}

#[test]
fn ack_before_send_is_an_error() {
    let network = Network::with_room(100);
    let mut out = start(2, 2, &network);
    assert_eq!(out.ack(2), Err(SeqIndexAckedBeforeSent { seq_index: 2 }));
    assert_eq!(out.ack(1), Ok(false));
    assert_eq!(out.acked_bytes(), 0);
}

#[test]
fn ack_before_send_resets_the_missed_acks() {
    let network = Network::with_room(100);
    let mut out = start(2, 2, &network);
    assert!(!out.send_pending(id(), 0, &mut Outbox::new(Socket(&network))).unwrap());
    assert_eq!(out.missed_acks(), 2);
    assert!(out.ack(7).is_err());
    assert_eq!(out.missed_acks(), 0);
}

#[test]
fn canceled_packet_is_done() {
    let network = Network::with_room(100);
    let mut out = start(4, 2, &network);
    network.take_sent();
    out.cancel();
    assert!(out.send_pending(id(), NEVER, &mut Outbox::new(Socket(&network))).unwrap());
    assert_eq!(network.take_sent(), vec![done_datagram()]);
    assert_eq!(out.ack(0), Ok(false));
    assert!(out.send_pending(id(), 0, &mut Outbox::new(Socket(&network))).unwrap());
    assert_eq!(network.take_sent(), vec![done_datagram()]);
}

#[test]
fn busy_socket_does_not_cancel_the_packet() {
    let network = Network::with_room(1);
    let mut out = start(3, 3, &network);
    assert_eq!(network.take_sent(), datagrams(1));
    assert_eq!(out.last_batch_bytes(), PART_PACKET_PAYLOAD_SIZE);
    assert!(!out.send_pending(id(), NEVER, &mut Outbox::new(Socket(&network))).unwrap());
    *network.room.borrow_mut() = 10;
    assert!(!out.send_pending(id(), 0, &mut Outbox::new(Socket(&network))).unwrap());
    assert_eq!(network.take_sent(), datagrams(1));
    assert_eq!(out.batch_size().get(), 1);
}

#[test]
fn failing_socket_keeps_the_packet() {
    let mut network = Network::with_room(2);
    let mut out = start(2, 2, &network);
    network.broken = true;
    assert_eq!(out.send_pending(id(), 0, &mut Outbox::new(Socket(&network))).unwrap_err().to_string(), "broken");
    assert_eq!(out.missed_acks(), 0);
    assert_eq!(out.batch_size().get(), 1);
    assert_eq!(out.last_batch_bytes(), 2 * PART_PACKET_PAYLOAD_SIZE);
}

#[test]
fn finished_batch_is_remembered() {
    let network = Network::with_room(100);
    let mut out = start(5, 4, &network);
    assert_eq!(out.ack(0), Ok(false));
    assert!(out.finish_batch(0, true));
    assert_eq!(out.missed_acks(), 0);
    assert!(!out.finish_batch(0, false));
    assert_eq!(out.missed_acks(), 3);
    assert_eq!(out.last_batch_bytes(), 0);
    assert!(!out.finish_batch(2, true));
    assert_eq!(out.missed_acks(), 3);
    assert_eq!(out.last_batch_bytes(), 2 * PART_PACKET_PAYLOAD_SIZE);
}

#[test]
fn parts_are_taken_from_the_channel() {
    let network = Network::with_room(100);
    let (tx, rx) = channel();
    for part in parts(3) {
        tx.send(part).unwrap();
    }
    let mut out =
        PacketOut::send(SerializedPacket::Channel(Inbox::new(rx)), &mut Outbox::new(Socket(&network)), batch(2)).unwrap();
    assert_eq!(network.take_sent(), datagrams(2));
    assert_eq!(out.ack(2), Err(SeqIndexAckedBeforeSent { seq_index: 2 }));
    assert_eq!(out.ack(0), Ok(false));
    assert_eq!(out.ack(1), Ok(false));
    drop(tx);
    assert!(!out.send_pending(id(), 0, &mut Outbox::new(Socket(&network))).unwrap());
    assert_eq!(network.take_sent(), datagrams(3)[2..]);
    assert_eq!(out.ack(2), Ok(false));
    assert!(out.send_pending(id(), 0, &mut Outbox::new(Socket(&network))).unwrap());
    assert_eq!(network.take_sent(), vec![done_datagram()]);
}

#[test]
fn busy_socket_gets_the_part_alone() {
    let network = Network::with_room(1);
    let mut out = start(1, 4, &network);
    network.take_sent();
    assert!(!out.send_pending(id(), 0, &mut Outbox::new(Socket(&network))).unwrap());
    assert_eq!(network.take_sent().len(), 0);
    assert_eq!(out.missed_acks(), 1);
    assert_eq!(out.batch_size().get(), 2);
    *network.room.borrow_mut() = 9;
    assert!(!out.send_pending(id(), 0, &mut Outbox::new(Socket(&network))).unwrap());
    assert_eq!(network.take_sent(), datagrams(1));
}

#[test]
fn parts_and_done_are_never_sent_together() {
    let network = Network::with_room(100);
    let mut out = start(3, 1, &network);
    network.take_sent();
    assert_eq!(out.ack(0), Ok(false));
    assert!(!out.send_pending(id(), 0, &mut Outbox::new(Socket(&network))).unwrap());
    assert_eq!(network.take_sent(), datagrams(3)[1..]);
    assert_eq!(out.batch_size().get(), 2);
    assert_eq!(out.missed_acks(), 0);
}

#[test]
fn readers_tell_what_can_be_done() {
    let network = Network::with_room(100);
    let mut out = start(3, 3, &network);
    assert!(out.can_ack());
    assert!(out.can_send_pending());
    assert_eq!(out.acked_parts(), 0);
    assert_eq!(out.ack(0), Ok(false));
    assert_eq!(out.ack(1), Ok(false));
    assert_eq!(out.acked_parts(), 2);
    out.cancel();
    assert!(out.can_ack());
    assert!(out.can_send_pending());
}
