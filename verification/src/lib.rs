//! Sends packets of any size over a socket that neither keeps datagrams in order nor delivers all of
//! them.

pub mod packet;
