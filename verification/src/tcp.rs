//! The stream backend: who is served over a connected stream.
//!
//! The copy of the bytes itself is left to the operating system's stream;
//! what is decided here is whether a stream that was just accepted is
//! served at all.

use crate::networking::{
    delay_for, delay_to_avoid_surfers, update_client_number, ClientCounter, Ipv4,
};
use crate::node::NodeView;
use crate::registry::{has_address, prior_comms_of, Registry};
use crate::text::chars_of;
use crate::udp::headers::{parse_tcp_header, PacketHeader, TCPHeader};
use crate::udp::{file_is_shared, string_views};
use vstd::prelude::*;

verus! {

/// What is done with a stream that was accepted, with the file name as a
/// sequence of characters.
pub enum TcpActionView {
    Serve { file_name: Seq<char>, delay_ms: u64 },
    Refuse,
}

/// What is done with a stream that was accepted.
pub enum TcpAction {
    /// Copy `file_name` to the stream, pausing `delay_ms` milliseconds
    /// after each buffer.
    Serve { file_name: String, delay_ms: u64 },
    /// Close the stream.
    Refuse,
}

impl View for TcpAction {
    type V = TcpActionView;

    open spec fn view(&self) -> TcpActionView {
        match self {
            TcpAction::Serve { file_name, delay_ms } => TcpActionView::Serve {
                file_name: file_name@,
                delay_ms: *delay_ms,
            },
            TcpAction::Refuse => TcpActionView::Refuse,
        }
    }
}

/// What is done with a stream from `peer_ip` whose first packet is
/// `packet`.
///
/// The stream is served where the packet is a request for a stream
/// transfer, there is room for one more transfer, and the peer is known or
/// the file that it names is shared. The peer is known by its address and
/// the control port that the packet gives. A peer with earlier exchanges
/// is served with the congestion delay.
pub open spec fn tcp_action(
    has_room: bool,
    nodes: Seq<NodeView>,
    files: Seq<Seq<char>>,
    packet: Seq<char>,
    peer_ip: Ipv4,
) -> TcpActionView {
    match parse_tcp_header(packet) {
        Some(h) => if h.conn_type == PacketHeader::TCPGET && has_room && (has_address(
            nodes,
            peer_ip,
            h.udp_get_port,
        ) || files.contains(h.file_name)) {
            TcpActionView::Serve {
                file_name: h.file_name,
                delay_ms: delay_for(prior_comms_of(nodes, peer_ip, h.udp_get_port)),
            }
        } else {
            TcpActionView::Refuse
        },
        None => TcpActionView::Refuse,
    }
}

/// One step of the stream server: what to do with a stream from `peer_ip`
/// whose first packet is `packet`. Where the stream is served, the count
/// of transfers goes up by one; it does not change otherwise.
pub fn tcp_server_step(
    counter: &mut ClientCounter,
    nodes: &Registry,
    files: &Vec<String>,
    packet: &str,
    peer_ip: Ipv4,
) -> (action: TcpAction)
    ensures
        action@ == tcp_action(
            old(counter).active() < old(counter).limit(),
            nodes@,
            string_views(files@),
            packet@,
            peer_ip,
        ),
        final(counter).limit() == old(counter).limit(),
        final(counter).active() <= final(counter).limit(),
        final(counter).active() == (if action is Serve {
            old(counter).active() + 1
        } else {
            old(counter).active() as int
        }),
{
    let _active = counter.current();
    let data_header = match TCPHeader::from_string(packet.to_owned()) {
        Some(h) => h,
        None => {
            return TcpAction::Refuse;
        },
    };
    if data_header.conn_type != PacketHeader::TCPGET || !counter.has_room() {
        return TcpAction::Refuse;
    }
    let prior_comms: u16 = match nodes.prior_comms(peer_ip, data_header.udp_get_port) {
        Some(count) => count,
        None => {
            let file_name = chars_of(data_header.file_name.as_str());
            if !file_is_shared(files, file_name.as_slice()) {
                return TcpAction::Refuse;
            }
            0
        },
    };
    update_client_number(counter, true);
    TcpAction::Serve {
        file_name: data_header.file_name,
        delay_ms: delay_to_avoid_surfers(prior_comms),
    }
}

} // verus!
