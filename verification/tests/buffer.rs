use std::ops::{Deref, DerefMut};

use ultinet::packet::buffer::PacketBuffer;
use ultinet::packet::{
    PacketId, PacketKind, HEADER_LEN, PACKET_BUFFER_SIZE, PART_PACKET_PAYLOAD_SIZE,
};

const ID: [u8; 16] = [10, 11, 12, 13, 14, 15, 16, 17, 18, 19, 20, 21, 22, 23, 24, 25];

fn header(kind: PacketKind, seq_index: u32) -> Vec<u8> {
    let mut header = vec![u8::from(kind)];
    header.extend_from_slice(&ID);
    header.extend_from_slice(&seq_index.to_le_bytes());
    header
}

fn new_buffer() -> PacketBuffer {
    PacketBuffer::new(PacketId::from_bytes(ID))
}

#[test]
fn sizes_fit_together() {
    assert_eq!(HEADER_LEN, 21);
    assert_eq!(HEADER_LEN + PART_PACKET_PAYLOAD_SIZE, PACKET_BUFFER_SIZE);
}

#[test]
fn new_buffer_holds_only_a_header() {
    let buffer = new_buffer();
    assert_eq!(buffer.deref(), &header(PacketKind::Part, 0)[..]);
    let bytes: &[u8] = buffer.as_ref();
    assert_eq!(bytes.len(), HEADER_LEN);
}

#[test]
fn unused_storage_is_zero() {
    let mut buffer = new_buffer();
    assert_eq!(buffer.skip(&[1, 2, 3]).len(), 0);
    assert_eq!(&buffer[HEADER_LEN..], &[0, 0, 0]);
}

#[test]
fn append_continues_where_the_payload_ends() {
    let mut buffer = new_buffer();
    assert_eq!(buffer.append(&[1, 2, 3]).len(), 0);
    assert_eq!(buffer.append(&[]).len(), 0);
    assert_eq!(buffer.append(&[4, 5]).len(), 0);
    assert_eq!(&buffer[..HEADER_LEN], &header(PacketKind::Part, 0)[..]);
    assert_eq!(&buffer[HEADER_LEN..], &[1, 2, 3, 4, 5]);
}

#[test]
fn append_returns_what_does_not_fit() {
    let mut buffer = new_buffer();
    let data: Vec<u8> = (0..PART_PACKET_PAYLOAD_SIZE + 3).map(|i| (i % 251) as u8).collect();
    let rest = buffer.append(&data);
    assert_eq!(rest, &data[PART_PACKET_PAYLOAD_SIZE..]);
    assert_eq!(buffer.len(), PACKET_BUFFER_SIZE);
    assert_eq!(&buffer[HEADER_LEN..], &data[..PART_PACKET_PAYLOAD_SIZE]);
    assert_eq!(buffer.append(&[7]), &[7]);
    assert_eq!(buffer.skip(&[7]), &[7]);
}

#[test]
fn append_fills_a_buffer_exactly() {
    let mut buffer = new_buffer();
    let data = vec![9; PART_PACKET_PAYLOAD_SIZE];
    assert_eq!(buffer.append(&data).len(), 0);
    assert_eq!(buffer.len(), PACKET_BUFFER_SIZE);
}

#[test]
fn data_is_put_together_again_from_its_parts() {
    let data: Vec<u8> = (0..3 * PART_PACKET_PAYLOAD_SIZE + 5).map(|i| (i % 253) as u8).collect();
    let mut parts: Vec<PacketBuffer> = Vec::new();
    let mut buffer = new_buffer();
    let mut rest = buffer.append(&data);
    while !rest.is_empty() {
        let mut next = buffer.new_next();
        rest = next.append(rest);
        parts.push(buffer);
        buffer = next;
    }
    buffer.mark_last();
    parts.push(buffer);

    assert_eq!(parts.len(), 4);
    let mut payload: Vec<u8> = Vec::new();
    for (i, part) in parts.iter().enumerate() {
        let kind = if i == 3 { PacketKind::LastPart } else { PacketKind::Part };
        assert_eq!(&part[..HEADER_LEN], &header(kind, i as u32)[..]);
        payload.extend_from_slice(&part[HEADER_LEN..]);
    }
    assert_eq!(payload, data);
}

#[test]
fn next_keeps_the_storage_of_the_payload() {
    let mut buffer = new_buffer();
    let data: Vec<u8> = (0..PART_PACKET_PAYLOAD_SIZE).map(|i| (i % 249) as u8).collect();
    buffer.append(&data);
    buffer.next();
    assert_eq!(buffer.deref(), &header(PacketKind::Part, 1)[..]);
    assert_eq!(buffer.skip(&data[..4]).len(), 0);
    assert_eq!(&buffer[HEADER_LEN..], &data[..4]);
    assert_eq!(buffer.append(&[200]).len(), 0);
    assert_eq!(&buffer[HEADER_LEN..], &[data[0], data[1], data[2], data[3], 200]);
}

#[test]
fn index_carries_over_into_the_next_byte() {
    let mut buffer = new_buffer();
    for _ in 0..255 {
        buffer = buffer.new_next();
    }
    assert_eq!(&buffer[17..21], &[255, 0, 0, 0]);
    buffer = buffer.new_next();
    assert_eq!(&buffer[17..21], &[0, 1, 0, 0]);
    buffer.deref_mut()[17..21].copy_from_slice(&[255, 255, 255, 0]);
    assert_eq!(&buffer.new_next()[17..21], &[0, 0, 0, 1]);
}

#[test]
fn copy_holds_the_same_bytes() {
    let mut buffer = new_buffer();
    buffer.append(&[1, 2, 3]);
    buffer.mark_last();
    let mut copy = buffer.copy();
    assert_eq!(copy.deref(), buffer.deref());
    copy.append(&[4]);
    assert_eq!(&copy[HEADER_LEN..], &[1, 2, 3, 4]);
    assert_eq!(&buffer[HEADER_LEN..], &[1, 2, 3]);
}

#[test]
fn copy_does_not_take_over_unused_storage() {
    let mut buffer = new_buffer();
    buffer.append(&vec![8; PART_PACKET_PAYLOAD_SIZE]);
    buffer.next();
    let mut copy = buffer.copy();
    copy.skip(&[0, 0]);
    assert_eq!(&copy[HEADER_LEN..], &[0, 0]);
}

#[test]
fn bytes_can_be_changed_in_place() {
    let mut buffer = new_buffer();
    buffer.append(&[1, 2, 3]);
    buffer.deref_mut()[HEADER_LEN + 1] = 9;
    assert_eq!(&buffer[HEADER_LEN..], &[1, 9, 3]);
}

#[test]
fn kinds_have_different_codes() {
    assert_eq!(u8::from(PacketKind::Part), 0);
    assert_eq!(u8::from(PacketKind::LastPart), 1);
    assert_eq!(u8::from(PacketKind::Done), 2);
}

#[test]
fn bytes_can_be_borrowed_in_both_ways() {
    let mut buffer = new_buffer();
    buffer.append(&[1, 2]);
    let bytes: &mut [u8] = buffer.as_mut();
    bytes[HEADER_LEN] = 5;
    let bytes: &[u8] = buffer.as_ref();
    assert_eq!(&bytes[HEADER_LEN..], &[5, 2]);
}
