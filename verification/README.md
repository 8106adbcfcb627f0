# ultinet

Reliable delivery of packets of any size over unreliable datagrams, from the sender's side, verified
with Verus.

A packet is split into parts that each fit into a datagram. The parts are sent in batches, whose size
adapts to how many of them are acked, and are sent again until all of them are acked.

- `src/packet.rs`: the types and sizes that everything else is made of
- `src/packet/wire.rs`: the layout of datagrams
- `src/packet/buffer.rs`: a part of a packet
- `src/packet/queue.rs`: the parts of a packet that still have to be acked
- `src/packet/send.rs`: a packet on its way out
- `src/packet/laws.rs`: what holds of several operations together
- `src/packet/aligned.rs`, `channel.rs`, `clock.rs`, `socket.rs`: what is taken from elsewhere, and
  what is believed of it
- `app/`: measuring throughput and formatting, which is not verified
