//! Protocol core of a peer-to-peer file-sharing overlay.
//!
//! Nodes gossip the peers that they know, ask each other for files over a
//! control channel, and move the bytes of a file over a stream or, with
//! stop-and-wait, over plain datagrams. This library holds what the nodes
//! say to each other and what they decide: the wire formats, the peer
//! registry, the admission of transfers and the state machines of the
//! sessions. It opens no socket and no file; the program around it does,
//! and hands each datagram in and carries each decision out.
//!
//! - [`text`] and [`number`]: fields, lines and decimal numbers of the
//!   textual packets.
//! - [`udp::headers`]: the tags and headers of every packet.
//! - [`node`], [`registry`] and [`peer_list`]: peers, the peers that a node
//!   knows, and the peer list that announces them.
//! - [`networking`]: addresses, limits, the count of transfers and the
//!   delay for peers that ask again.
//! - [`udp`]: routing, gossip and the negotiation of a transfer.
//! - [`udp::reliable`] and [`udp::lossless`]: stop-and-wait, and what it
//!   achieves where nothing is lost.
//! - [`tcp`]: who is served over a stream.
//! - [`random`]: random ports and names.

pub mod networking;
pub mod node;
pub mod number;
pub mod peer_list;
pub mod random;
pub mod registry;
pub mod tcp;
pub mod text;
pub mod udp;
