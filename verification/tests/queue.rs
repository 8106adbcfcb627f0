use std::cell::RefCell;
use std::io;
use std::ops::Deref;
use std::sync::mpsc::channel;

use ultinet::packet::buffer::PacketBuffer;
use ultinet::packet::channel::Inbox;
use ultinet::packet::queue::PacketQueue;
use ultinet::packet::serialize::SerializedPacket;
use ultinet::packet::socket::{NonBlocking, Outbox};
use ultinet::packet::{NonZeroBatchSize, PacketId, SeqIndexAckedBeforeSent};

/// Takes a number of datagrams before it is busy, or fails.
struct Network {
    sent: RefCell<Vec<Vec<u8>>>,
    room: usize,
    broken: bool,
}

impl Network {
    fn with_room(room: usize) -> Network {
        Network { sent: RefCell::new(Vec::new()), room, broken: false }
    }
}

struct Socket<'a>(&'a Network);

impl NonBlocking for Socket<'_> {
    fn send(&self, data: &[u8]) -> io::Result<bool> {
        if self.0.sent.borrow().len() == self.0.room {
            if self.0.broken {
                return Err(io::Error::new(io::ErrorKind::Other, "broken"));
            }
            return Ok(false);
        }
        self.0.sent.borrow_mut().push(data.to_vec());
        Ok(true)
    }
}

fn parts(count: usize) -> Vec<PacketBuffer> {
    let mut parts: Vec<PacketBuffer> = Vec::new();
    let mut part = PacketBuffer::new(PacketId::from_bytes([7; 16]));
    for i in 0..count {
        let mut next = part.new_next();
        part.append(&[i as u8]);
        std::mem::swap(&mut part, &mut next);
        parts.push(next);
    }
    parts
}

fn datagrams(count: usize) -> Vec<Vec<u8>> {
    parts(count).iter().map(|part| part.deref().to_vec()).collect()
}

fn vec_queue(count: usize) -> PacketQueue {
    PacketQueue::new(SerializedPacket::Vec(parts(count)))
}

fn batch(size: u16) -> NonZeroBatchSize {
    NonZeroBatchSize::new(size).unwrap()
}

#[test]
fn queue_keeps_the_order_of_the_parts() {
    let mut queue = vec_queue(3);
    assert_eq!(queue.unacked(10), datagrams(3));
    assert_eq!(queue.unacked(2), datagrams(2));
    assert_eq!(queue.unacked(0).len(), 0);
}

#[test]
fn acks_are_for_the_part_with_that_index() {
    let mut queue = vec_queue(4);
    assert_eq!(queue.ack(0), Ok(false));
    assert_eq!(queue.first_unacked(), 1);
    assert_eq!(queue.ack(1), Ok(false));
    assert_eq!(queue.first_unacked(), 2);
    assert_eq!(queue.unacked(10), datagrams(4)[2..]);
}

#[test]
fn acks_out_of_order_are_not_lost() {
    let mut queue = vec_queue(4);
    assert_eq!(queue.ack(2), Ok(false));
    assert_eq!(queue.first_unacked(), 0);
    assert_eq!(queue.unacked(2), datagrams(2));
    let all = datagrams(4);
    assert_eq!(queue.unacked(10), vec![all[0].clone(), all[1].clone(), all[3].clone()]);
    assert_eq!(queue.ack(0), Ok(false));
    assert_eq!(queue.first_unacked(), 1);
    assert_eq!(queue.ack(1), Ok(false));
    assert_eq!(queue.first_unacked(), 3);
    assert_eq!(queue.ack(3), Ok(false));
    assert_eq!(queue.first_unacked(), 4);
    assert_eq!(queue.unacked(10).len(), 0);
}

#[test]
fn order_of_acks_does_not_matter() {
    let mut a = vec_queue(3);
    let mut b = vec_queue(3);
    assert_eq!((a.ack(0), a.ack(2)), (Ok(false), Ok(false)));
    assert_eq!((b.ack(2), b.ack(0)), (Ok(false), Ok(false)));
    assert_eq!(a.first_unacked(), b.first_unacked());
    assert_eq!(a.unacked(10), b.unacked(10));
}

#[test]
fn duplicate_acks_are_told_apart() {
    let mut queue = vec_queue(3);
    assert_eq!(queue.ack(1), Ok(false));
    assert_eq!(queue.ack(1), Ok(true));
    assert_eq!(queue.ack(0), Ok(false));
    assert_eq!(queue.first_unacked(), 2);
    assert_eq!(queue.ack(0), Ok(true));
    assert_eq!(queue.ack(1), Ok(true));
    assert_eq!(queue.first_unacked(), 2);
    assert_eq!(queue.unacked(10), datagrams(3)[2..]);
}

#[test]
fn ack_of_an_unknown_part_is_an_error() {
    let mut queue = vec_queue(2);
    assert_eq!(queue.ack(2), Err(SeqIndexAckedBeforeSent { seq_index: 2 }));
    assert_eq!(queue.ack(0), Ok(false));
    assert_eq!(queue.ack(2), Err(SeqIndexAckedBeforeSent { seq_index: 2 }));
    assert_eq!(queue.ack(u32::MAX), Err(SeqIndexAckedBeforeSent { seq_index: u32::MAX }));
    assert_eq!(queue.unacked(10), datagrams(2)[1..]);
    assert_eq!(vec_queue(0).ack(0), Err(SeqIndexAckedBeforeSent { seq_index: 0 }));
}

#[test]
fn channel_is_asked_for_no_more_than_is_needed() {
    let (tx, rx) = channel();
    for part in parts(5) {
        tx.send(part).unwrap();
    }
    let mut queue = PacketQueue::new(SerializedPacket::Channel(Inbox::new(rx)));
    assert_eq!(queue.ack(0), Err(SeqIndexAckedBeforeSent { seq_index: 0 }));
    assert_eq!(queue.unacked(2), datagrams(2));
    assert_eq!(queue.ack(2), Err(SeqIndexAckedBeforeSent { seq_index: 2 }));
    assert_eq!(queue.unacked(2), datagrams(2));
    assert_eq!(queue.ack(1), Ok(false));
    let all = datagrams(5);
    assert_eq!(queue.unacked(2), vec![all[0].clone(), all[2].clone()]);
    assert_eq!(queue.ack(3), Err(SeqIndexAckedBeforeSent { seq_index: 3 }));
    drop(tx);
    assert_eq!(
        queue.unacked(10),
        vec![all[0].clone(), all[2].clone(), all[3].clone(), all[4].clone()]
    );
}

#[test]
fn channel_without_senders_is_empty() {
    let (tx, rx) = channel();
    drop(tx);
    let mut queue = PacketQueue::new(SerializedPacket::Channel(Inbox::new(rx)));
    let network = Network::with_room(10);
    assert_eq!(queue.send_unacked(batch(3), &mut Outbox::new(Socket(&network))).unwrap(), (0, true));
    assert_eq!(network.sent.borrow().len(), 0);
}

#[test]
fn batch_is_limited_by_its_size() {
    let mut queue = vec_queue(5);
    let network = Network::with_room(10);
    assert_eq!(queue.send_unacked(batch(3), &mut Outbox::new(Socket(&network))).unwrap(), (3, true));
    assert_eq!(*network.sent.borrow(), datagrams(3));
}

#[test]
fn batch_is_limited_by_what_is_left() {
    let mut queue = vec_queue(5);
    assert_eq!(queue.ack(1), Ok(false));
    let network = Network::with_room(10);
    assert_eq!(queue.send_unacked(batch(9), &mut Outbox::new(Socket(&network))).unwrap(), (4, true));
    let all = datagrams(5);
    assert_eq!(
        *network.sent.borrow(),
        vec![all[0].clone(), all[2].clone(), all[3].clone(), all[4].clone()]
    );
}

#[test]
fn batch_ends_when_the_socket_is_busy() {
    let mut queue = vec_queue(5);
    let network = Network::with_room(2);
    assert_eq!(queue.send_unacked(batch(5), &mut Outbox::new(Socket(&network))).unwrap(), (2, false));
    assert_eq!(*network.sent.borrow(), datagrams(2));
    assert_eq!(queue.send_unacked(batch(5), &mut Outbox::new(Socket(&network))).unwrap(), (0, false));
}

#[test]
fn batch_ends_when_the_socket_fails() {
    let mut queue = vec_queue(5);
    let mut network = Network::with_room(2);
    network.broken = true;
    let error = queue.send_unacked(batch(5), &mut Outbox::new(Socket(&network))).unwrap_err();
    assert_eq!(error.to_string(), "broken");
    assert_eq!(*network.sent.borrow(), datagrams(2));
}

#[test]
fn nothing_is_sent_once_all_parts_are_acked() {
    let mut queue = vec_queue(2);
    assert_eq!(queue.ack(1), Ok(false));
    assert_eq!(queue.ack(0), Ok(false));
    let network = Network::with_room(0);
    assert_eq!(queue.send_unacked(batch(1), &mut Outbox::new(Socket(&network))).unwrap(), (0, true));
}

#[test]
fn asking_again_yields_the_same_datagrams() {
    let (tx, rx) = channel();
    for part in parts(3) {
        tx.send(part).unwrap();
    }
    let mut queue = PacketQueue::new(SerializedPacket::Channel(Inbox::new(rx)));
    assert_eq!(queue.unacked(2), datagrams(2));
    assert_eq!(queue.unacked(2), datagrams(2));
    drop(tx);
    assert_eq!(queue.unacked(5), datagrams(3));
    assert_eq!(queue.unacked(5), datagrams(3));
}

#[test]
fn channel_is_like_a_list() {
    let (tx, rx) = channel();
    for part in parts(4) {
        tx.send(part).unwrap();
    }
    drop(tx);
    let mut fed = PacketQueue::new(SerializedPacket::Channel(Inbox::new(rx)));
    let mut list = vec_queue(4);
    assert_eq!(fed.unacked(2), list.unacked(2));
    for seq_index in [1, 0] {
        assert_eq!(fed.ack(seq_index), list.ack(seq_index));
    }
    assert_eq!(fed.unacked(9), list.unacked(9));
    assert_eq!(fed.ack(3), list.ack(3));
    assert_eq!(fed.unacked(9), list.unacked(9));
    assert_eq!(fed.first_unacked(), list.first_unacked());
}

#[test]
fn inbox_hands_over_packets_in_order() {
    let (tx, rx) = channel();
    for part in parts(2) {
        tx.send(part).unwrap();
    }
    drop(tx);
    let mut inbox = Inbox::new(rx);
    let all = datagrams(2);
    assert_eq!(inbox.recv().unwrap().deref(), &all[0][..]);
    assert_eq!(inbox.recv().unwrap().deref(), &all[1][..]);
    assert!(inbox.recv().is_none());
    assert!(inbox.recv().is_none());
}

#[test]
fn outbox_returns_what_the_socket_replied() {
    let mut network = Network::with_room(1);
    network.broken = true;
    let mut outbox = Outbox::new(Socket(&network));
    assert!(outbox.send(&[1, 2]).unwrap());
    assert_eq!(outbox.send(&[3]).unwrap_err().to_string(), "broken");
    assert_eq!(*network.sent.borrow(), vec![vec![1, 2]]);
}

#[test]
fn ordinary_queues_can_take_acks() {
    let mut queue = vec_queue(2);
    assert!(queue.can_ack());
    assert_eq!(queue.ack(0), Ok(false));
    assert!(queue.can_ack());
}
