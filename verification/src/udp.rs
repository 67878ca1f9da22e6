//! The control plane: discovery gossip and the negotiation of transfers.
//!
//! The node's sockets, threads and clocks live outside this library. Each
//! function here is one decision of the control plane: it takes what has
//! arrived and says what is to be done.

pub mod get;
pub mod headers;
pub mod lossless;
pub mod reliable;

use crate::networking::{check_clients, exchange_recorded, ClientCounter, Ipv4};
use crate::node::{node_list_text, parse_node_list, Node, NodeView};
use crate::number::{decimal, is_digit, lemma_decimal, parse_u16, push_decimal, read_u16};
use crate::peer_list::{announced, lemma_node_list_lines, name_is_plain};
use crate::registry::{
    has_address, is_at, lemma_merged_has, lemma_merged_prefix, merged, unique_addresses,
    Registry,
};
use crate::text::{
    chars_of, has_no, has_prefix, lemma_lines_three, lemma_lines_two, lines, lines_of, same_chars,
    split, split_chars, string_of, trim, trim_chars, views,
};
use crate::udp::headers::{lemma_classify_tag, ConnectionType, PacketHeader, StdinHeader};
use vstd::prelude::*;

verus! {

/// The views of a sequence of strings.
pub open spec fn string_views(strings: Seq<String>) -> Seq<Seq<char>> {
    Seq::new(strings.len(), |i: int| strings[i]@)
}

/// Where the reader of the control socket hands a datagram.
#[derive(Clone, Copy, PartialEq, Eq, Structural, Debug)]
pub enum Route {
    /// A peer list: to the gossip.
    Discovery,
    /// A request for a file or the answer to one: to the negotiation.
    Negotiation,
    /// Anything else is dropped.
    Dropped,
}

/// Where a datagram of the given kind is handed.
pub open spec fn route_of(kind: PacketHeader) -> Route {
    match kind {
        PacketHeader::Disc => Route::Discovery,
        PacketHeader::GET => Route::Negotiation,
        PacketHeader::GETACK => Route::Negotiation,
        _ => Route::Dropped,
    }
}

/// Where the reader of the control socket hands the datagram `data`.
pub fn main_server_step(data: &str) -> (route: Route)
    ensures
        route == route_of(PacketHeader::classify(data@)),
{
    match PacketHeader::packet_type(data) {
        PacketHeader::Disc => Route::Discovery,
        PacketHeader::GET => Route::Negotiation,
        PacketHeader::GETACK => Route::Negotiation,
        _ => Route::Dropped,
    }
}

/// The backend that moves the bytes of a file.
#[derive(Clone, Copy, PartialEq, Eq, Structural, Debug)]
pub enum Transport {
    /// A copy over a connected stream.
    Tcp,
    /// Stop-and-wait over datagrams.
    StopAndWait,
    /// The configured backend does not exist yet: a copy over a connected
    /// stream takes its place.
    UnsupportedFallsBackToTcp,
}

/// The backend for a configured connection type. Go-back-n and selective
/// repeat are not there yet and fall back to the stream.
pub open spec fn transport_of(conn_type: ConnectionType) -> Transport {
    match conn_type {
        ConnectionType::TCP => Transport::Tcp,
        ConnectionType::SAndW => Transport::StopAndWait,
        ConnectionType::GoBackN => Transport::UnsupportedFallsBackToTcp,
        ConnectionType::SRepeat => Transport::UnsupportedFallsBackToTcp,
    }
}

/// The backend for a configured connection type.
pub fn select_transport(conn_type: ConnectionType) -> (t: Transport)
    ensures
        t == transport_of(conn_type),
{
    match conn_type {
        ConnectionType::TCP => Transport::Tcp,
        ConnectionType::SAndW => Transport::StopAndWait,
        ConnectionType::GoBackN => Transport::UnsupportedFallsBackToTcp,
        ConnectionType::SRepeat => Transport::UnsupportedFallsBackToTcp,
    }
}

/// The request for a file: the tag, then the file's name.
pub open spec fn get_request_text(file_name: Seq<char>) -> Seq<char> {
    PacketHeader::GET.tag() + file_name
}

/// The answer to a request: the tag, the data port on a line of its own,
/// then the file's name.
pub open spec fn ack_text(data_port: u16, file_name: Seq<char>) -> Seq<char> {
    PacketHeader::GETACK.tag() + decimal(data_port as nat) + seq!['\n'] + file_name
}

/// The request for the file `file_name`.
pub fn get_request(file_name: &[char]) -> (s: String)
    ensures
        s@ == get_request_text(file_name@),
{
    let mut out = chars_of(PacketHeader::get());
    let mut i: usize = 0;
    while i < file_name.len()
        invariant
            i <= file_name.len(),
            out@ == PacketHeader::GET.tag() + file_name@.take(i as int),
        decreases file_name.len() - i,
    {
        out.push(file_name[i]);
        proof {
            assert(out@ =~= PacketHeader::GET.tag() + file_name@.take(i + 1));
        }
        i += 1;
    }
    proof {
        assert(file_name@.take(file_name.len() as int) =~= file_name@);
    }
    string_of(out.as_slice())
}

/// The answer that offers `file_name` on the port `data_port`.
pub fn ack_response(data_port: u16, file_name: &[char]) -> (s: String)
    ensures
        s@ == ack_text(data_port, file_name@),
{
    let mut out = chars_of(PacketHeader::ack());
    push_decimal(&mut out, data_port as u32);
    out.push('\n');
    let ghost head = out@;
    let mut i: usize = 0;
    while i < file_name.len()
        invariant
            i <= file_name.len(),
            head == PacketHeader::GETACK.tag() + decimal(data_port as nat) + seq!['\n'],
            out@ == head + file_name@.take(i as int),
        decreases file_name.len() - i,
    {
        out.push(file_name[i]);
        proof {
            assert(out@ =~= head + file_name@.take(i + 1));
        }
        i += 1;
    }
    proof {
        assert(file_name@.take(file_name.len() as int) =~= file_name@);
    }
    string_of(out.as_slice())
}

/// Whether the shared directory, whose files are `files`, holds a file
/// named `name`.
pub fn file_is_shared(files: &Vec<String>, name: &[char]) -> (r: bool)
    ensures
        r == string_views(files@).contains(name@),
{
    let mut i: usize = 0;
    while i < files.len()
        invariant
            i <= files.len(),
            forall|k: int| 0 <= k < i ==> string_views(files@)[k] != name@,
        decreases files.len() - i,
    {
        let file = chars_of(files[i].as_str());
        if same_chars(file.as_slice(), name) {
            proof {
                assert(string_views(files@)[i as int] == name@);
            }
            return true;
        }
        i += 1;
    }
    false
}

/// What the negotiation does about a datagram, with texts as sequences of
/// characters.
pub enum ControlActionView {
    Reply { ip: Ipv4, port: u16, response: Seq<char> },
    Fetch { transport: Transport, ip: Ipv4, port: u16, file_name: Seq<char> },
    Ignore,
}

/// What the negotiation does about a datagram.
pub enum ControlAction {
    /// Send `response` to the requester at `ip` and `port`: the request is
    /// accepted.
    Reply { ip: Ipv4, port: u16, response: String },
    /// Fetch `file_name` from the data socket at `ip` and `port` over
    /// `transport`: a holder has answered.
    Fetch { transport: Transport, ip: Ipv4, port: u16, file_name: String },
    /// Do nothing. A request that is declined gets no answer.
    Ignore,
}

impl View for ControlAction {
    type V = ControlActionView;

    open spec fn view(&self) -> ControlActionView {
        match self {
            ControlAction::Reply { ip, port, response } => ControlActionView::Reply {
                ip: *ip,
                port: *port,
                response: response@,
            },
            ControlAction::Fetch { transport, ip, port, file_name } => ControlActionView::Fetch {
                transport: *transport,
                ip: *ip,
                port: *port,
                file_name: file_name@,
            },
            ControlAction::Ignore => ControlActionView::Ignore,
        }
    }
}

/// What the negotiation does about the datagram `data` from `ip` and
/// `port`.
///
/// A request names its file on its second line. It is accepted where the
/// shared directory holds that file and there is room for one more
/// transfer; the answer then offers the file on `data_port`. A request
/// that is declined is ignored.
///
/// An answer gives the holder's data port on its second line and the file
/// on its third. The file is then fetched from that port at the sender's
/// address over the configured transport. An answer without these lines,
/// or with a port that is no number, is ignored, as is every other
/// datagram.
pub open spec fn control_action(
    data: Seq<char>,
    ip: Ipv4,
    port: u16,
    files: Seq<Seq<char>>,
    has_room: bool,
    data_port: u16,
    conn_type: ConnectionType,
) -> ControlActionView {
    let ls = lines(data);
    match PacketHeader::classify(data) {
        PacketHeader::GET => if ls.len() >= 2 && files.contains(ls[1]) && has_room {
            ControlActionView::Reply { ip, port, response: ack_text(data_port, ls[1]) }
        } else {
            ControlActionView::Ignore
        },
        PacketHeader::GETACK => if ls.len() >= 3 && parse_u16(ls[1]) is Some {
            ControlActionView::Fetch {
                transport: transport_of(conn_type),
                ip,
                port: parse_u16(ls[1])->0,
                file_name: ls[2],
            }
        } else {
            ControlActionView::Ignore
        },
        _ => ControlActionView::Ignore,
    }
}

/// One step of the negotiation: what to do about the datagram `data` that
/// came from `ip` and `port`. Where a request is accepted, the exchange is
/// recorded in the registry; nothing else changes the registry.
pub fn get_server_step(
    nodes: &mut Registry,
    counter: &ClientCounter,
    files: &Vec<String>,
    data: &str,
    ip: Ipv4,
    port: u16,
    data_port: u16,
    conn_type: ConnectionType,
) -> (action: ControlAction)
    ensures
        action@ == control_action(
            data@,
            ip,
            port,
            string_views(files@),
            counter.active() < counter.limit(),
            data_port,
            conn_type,
        ),
        unique_addresses(final(nodes)@),
        action is Reply ==> exchange_recorded(old(nodes)@, final(nodes)@, ip, port),
        !(action is Reply) ==> final(nodes)@ == old(nodes)@,
{
    let _known = nodes.len();
    let chars = chars_of(data);
    let kind = PacketHeader::packet_type_of(chars.as_slice());
    let all = lines_of(chars.as_slice());
    match kind {
        PacketHeader::GET => {
            if all.len() < 2 {
                return ControlAction::Ignore;
            }
            proof {
                assert(views(all@)[1] == all@[1]@);
            }
            let file_name = all[1].as_slice();
            if file_is_shared(files, file_name) && counter.has_room() {
                let response = ack_response(data_port, file_name);
                check_clients(ip, port, nodes);
                ControlAction::Reply { ip, port, response }
            } else {
                ControlAction::Ignore
            }
        },
        PacketHeader::GETACK => {
            if all.len() < 3 {
                return ControlAction::Ignore;
            }
            proof {
                assert(views(all@)[1] == all@[1]@);
                assert(views(all@)[2] == all@[2]@);
            }
            match read_u16(all[1].as_slice()) {
                Some(holder_port) => ControlAction::Fetch {
                    transport: select_transport(conn_type),
                    ip,
                    port: holder_port,
                    file_name: string_of(all[2].as_slice()),
                },
                None => ControlAction::Ignore,
            }
        },
        _ => ControlAction::Ignore,
    }
}

/// What the operator asks for, with texts as sequences of characters.
pub enum ClientCommandView {
    List,
    Get { file_name: Seq<char>, request: Seq<char> },
    Nothing,
}

/// What the operator asks for.
pub enum ClientCommand {
    /// Show the known peers.
    List,
    /// Send `request` to every known peer, asking for `file_name`.
    Get { file_name: String, request: String },
    /// The input is no command.
    Nothing,
}

impl View for ClientCommand {
    type V = ClientCommandView;

    open spec fn view(&self) -> ClientCommandView {
        match self {
            ClientCommand::List => ClientCommandView::List,
            ClientCommand::Get { file_name, request } => ClientCommandView::Get {
                file_name: file_name@,
                request: request@,
            },
            ClientCommand::Nothing => ClientCommandView::Nothing,
        }
    }
}

/// Reads a line that the operator typed. The words of the line stand
/// between spaces. A first word that begins with `list` asks for the
/// known peers. One that begins with `get` asks for the file that the
/// second word names, without the white space around it; without a second
/// word it asks for nothing.
pub open spec fn client_command(input: Seq<char>) -> ClientCommandView {
    let words = split(input, ' ');
    if StdinHeader::list_word().is_prefix_of(words[0]) {
        ClientCommandView::List
    } else if StdinHeader::get_word().is_prefix_of(words[0]) && words.len() >= 2 {
        ClientCommandView::Get {
            file_name: trim(words[1]),
            request: get_request_text(trim(words[1])),
        }
    } else {
        ClientCommandView::Nothing
    }
}

/// One step of the operator's side: what the line `input` asks for.
pub fn get_client_step(input: &str) -> (command: ClientCommand)
    ensures
        command@ == client_command(input@),
{
    let chars = chars_of(input);
    let words = split_chars(chars.as_slice(), ' ');
    proof {
        assert(views(words@)[0] == words@[0]@);
    }
    let arg = words[0].as_slice();
    if has_prefix(arg, chars_of(StdinHeader::list()).as_slice()) {
        ClientCommand::List
    } else if has_prefix(arg, chars_of(StdinHeader::get()).as_slice()) && words.len() >= 2 {
        proof {
            assert(views(words@)[1] == words@[1]@);
        }
        let file_name = trim_chars(words[1].as_slice());
        let request = get_request(file_name.as_slice());
        ClientCommand::Get { file_name: string_of(file_name.as_slice()), request }
    } else {
        ClientCommand::Nothing
    }
}

/// The registry after the peer lists `messages` were taken in, in order.
/// Each list is read without its header line; a peer at the node's own
/// address `own` is left out, and a peer whose address is known is left as
/// it is.
pub open spec fn gossip_merged(
    s: Seq<NodeView>,
    messages: Seq<Seq<char>>,
    own: (Ipv4, u16),
) -> Seq<NodeView>
    decreases messages.len(),
{
    if messages.len() == 0 {
        s
    } else {
        merged(
            gossip_merged(s, messages.drop_last(), own),
            parse_node_list(messages.last(), true),
            Some(own),
        )
    }
}

/// One round of the gossip: takes the peer lists `inbound` that have
/// arrived since the last round into the registry, and gives the peer
/// list that is now sent to every peer of the registry.
pub fn discovery_step(
    nodes: &mut Registry,
    inbound: &Vec<String>,
    own_ip: Ipv4,
    own_port: u16,
) -> (payload: String)
    ensures
        final(nodes)@ == gossip_merged(old(nodes)@, string_views(inbound@), (own_ip, own_port)),
        unique_addresses(final(nodes)@),
        payload@ == node_list_text(final(nodes)@),
{
    let ghost messages = string_views(inbound@);
    let ghost own = (own_ip, own_port);
    let _known = nodes.len();
    let mut i: usize = 0;
    proof {
        assert(messages.take(0) =~= Seq::<Seq<char>>::empty());
    }
    while i < inbound.len()
        invariant
            i <= inbound.len(),
            messages == string_views(inbound@),
            own == (own_ip, own_port),
            nodes@ == gossip_merged(old(nodes)@, messages.take(i as int), own),
            unique_addresses(nodes@),
        decreases inbound.len() - i,
    {
        let received = Node::multiple_from_string(inbound[i].clone(), true);
        let peers = received.snapshot();
        proof {
            assert(messages.take(i + 1).drop_last() =~= messages.take(i as int));
            assert(messages.take(i + 1).last() == inbound@[i as int]@);
        }
        nodes.merge(&peers, Some((own_ip, own_port)));
        i += 1;
    }
    proof {
        assert(messages.take(inbound.len() as int) =~= messages);
    }
    Node::nodes_to_string(nodes)
}

/// Gossip changes no entry that the registry holds: what it held stays in
/// place, names and counters included.
pub proof fn lemma_gossip_keeps(s: Seq<NodeView>, messages: Seq<Seq<char>>, own: (Ipv4, u16))
    ensures
        s.is_prefix_of(gossip_merged(s, messages, own)),
    decreases messages.len(),
{
    if messages.len() == 0 {
        assert(s.subrange(0, s.len() as int) =~= s);
    } else {
        lemma_gossip_keeps(s, messages.drop_last(), own);
        let before = gossip_merged(s, messages.drop_last(), own);
        let after = gossip_merged(s, messages, own);
        lemma_merged_prefix(before, parse_node_list(messages.last(), true), Some(own));
        assert(after.subrange(0, s.len() as int) =~= before.subrange(0, s.len() as int));
    }
}

/// One round of gossip from a node whose registry is `theirs` to a node
/// at the address `own` whose registry is `ours`: afterwards the second
/// node knows every address that the first one knows, but for its own,
/// and still holds all that it held. This holds where the names of
/// `theirs` are plain.
pub proof fn lemma_gossip_round(ours: Seq<NodeView>, theirs: Seq<NodeView>, own: (Ipv4, u16))
    requires
        forall|k: int| 0 <= k < theirs.len() ==> name_is_plain(#[trigger] theirs[k].name),
    ensures
        ({
            let after = gossip_merged(ours, seq![node_list_text(theirs)], own);
            &&& ours.is_prefix_of(after)
            &&& forall|k: int|
                0 <= k < theirs.len() && (theirs[k].ip, theirs[k].port) != own ==> has_address(
                    after,
                    (#[trigger] theirs[k]).ip,
                    theirs[k].port,
                )
        }),
{
    let messages = seq![node_list_text(theirs)];
    let after = gossip_merged(ours, messages, own);
    let heard = parse_node_list(node_list_text(theirs), true);
    assert(messages.drop_last() =~= Seq::<Seq<char>>::empty());
    assert(gossip_merged(ours, messages.drop_last(), own) == ours);
    assert(after == merged(ours, heard, Some(own)));
    lemma_merged_prefix(ours, heard, Some(own));
    lemma_node_list_lines(theirs);
    let fresh = announced(theirs);
    assert(heard == merged(Seq::empty(), fresh, None));
    assert forall|k: int|
        0 <= k < theirs.len() && (theirs[k].ip, theirs[k].port) != own implies has_address(
        after,
        (#[trigger] theirs[k]).ip,
        theirs[k].port,
    ) by {
        let ip = theirs[k].ip;
        let port = theirs[k].port;
        assert(fresh[k].ip == ip && fresh[k].port == port);
        lemma_merged_has(Seq::empty(), fresh, None, k);
        let j = choose|j: int| 0 <= j < heard.len() && is_at(#[trigger] heard[j], ip, port);
        lemma_merged_has(ours, heard, Some(own), j);
    }
}

/// A request that was written for a file is read by a holder as a request
/// for that file: it is answered where the holder shares the file and has
/// room, and ignored otherwise. This holds of every file name that is not
/// empty and holds no line feed.
pub proof fn lemma_request_is_read(
    file_name: Seq<char>,
    ip: Ipv4,
    port: u16,
    files: Seq<Seq<char>>,
    has_room: bool,
    data_port: u16,
    conn_type: ConnectionType,
)
    requires
        file_name.len() > 0,
        has_no(file_name, '\n'),
    ensures
        control_action(
            get_request_text(file_name),
            ip,
            port,
            files,
            has_room,
            data_port,
            conn_type,
        ) == (if files.contains(file_name) && has_room {
            ControlActionView::Reply { ip, port, response: ack_text(data_port, file_name) }
        } else {
            ControlActionView::Ignore
        }),
{
    let word = seq!['G', 'E', 'T'];
    lemma_classify_tag(PacketHeader::GET, file_name);
    lemma_lines_two(word, file_name);
    assert(get_request_text(file_name) =~= word + seq!['\n'] + file_name);
}

/// The answer that a holder writes is read by the requester as the order
/// to fetch the file from the holder's data port. This holds of every
/// file name that is not empty and holds no line feed.
pub proof fn lemma_answer_is_followed(
    holder_port: u16,
    file_name: Seq<char>,
    ip: Ipv4,
    port: u16,
    files: Seq<Seq<char>>,
    has_room: bool,
    data_port: u16,
    conn_type: ConnectionType,
)
    requires
        file_name.len() > 0,
        has_no(file_name, '\n'),
    ensures
        control_action(
            ack_text(holder_port, file_name),
            ip,
            port,
            files,
            has_room,
            data_port,
            conn_type,
        ) == (ControlActionView::Fetch {
            transport: transport_of(conn_type),
            ip,
            port: holder_port,
            file_name,
        }),
{
    let word = seq!['A', 'C', 'K'];
    let number = decimal(holder_port as nat);
    lemma_decimal(holder_port as nat);
    assert(has_no(number, '\n') && number.last() != '\r') by {
        assert forall|i: int| 0 <= i < number.len() implies number[i] != '\n' by {
            assert(is_digit(number[i]));
        }
        assert(is_digit(number[number.len() - 1]));
    }
    lemma_classify_tag(PacketHeader::GETACK, number + seq!['\n'] + file_name);
    lemma_lines_three(word, number, file_name);
    let text = ack_text(holder_port, file_name);
    assert(text =~= word + seq!['\n'] + number + seq!['\n'] + file_name);
    assert(text =~= PacketHeader::GETACK.tag() + (number + seq!['\n'] + file_name));
}

} // verus!
