//! Addresses, limits and the anti-abuse policy shared by the transports.

use crate::node::{
    address_of, is_sneaky_name, lemma_sneaky_name, parse_address, Node, NodeView,
    SNEAKY_SUFFIX_LEN,
};
use crate::number::{decimal, push_decimal};
use crate::random::{random_in_range, random_suffix};
use crate::registry::{
    bump, exchanged, has_address, is_at, lemma_position, position, unique_addresses, upserted,
    Registry,
};
use crate::text::{chars_of, string_of};
use vstd::prelude::*;

verus! {

/// Pause between two units of data sent to a peer that has asked before.
pub const CONGESTION_DELAY_MS: u64 = 500;

/// Port of the control socket.
pub const UDP_GET_PORT: u16 = 3222;

/// Pause between two gossip rounds.
pub const DISCOVERY_INTERVAL_MS: u64 = 1000;

/// Size of a datagram buffer, and of one chunk of file data.
pub const BUF_SIZE: usize = 8192;

/// Most transfers that are served at the same time.
pub const MAX_DATA_CLIENTS: u16 = 3;

/// Lowest data port that is chosen at random.
pub const PORT_MIN: u16 = 2000;

/// First port above those that are chosen at random.
pub const PORT_MAX: u16 = 5000;

/// An IPv4 address, by its four octets.
#[derive(Clone, Copy, PartialEq, Eq, Structural, Debug, Hash)]
pub struct Ipv4 {
    pub a: u8,
    pub b: u8,
    pub c: u8,
    pub d: u8,
}

impl Ipv4 {
    /// The address `a.b.c.d`.
    pub fn new(a: u8, b: u8, c: u8, d: u8) -> (ip: Ipv4)
        ensures
            ip == (Ipv4 { a, b, c, d }),
    {
        Ipv4 { a, b, c, d }
    }

    /// The dotted decimal text of the address.
    pub open spec fn text(self) -> Seq<char> {
        decimal(self.a as nat) + seq!['.'] + decimal(self.b as nat) + seq!['.'] + decimal(
            self.c as nat,
        ) + seq!['.'] + decimal(self.d as nat)
    }

    /// Appends the dotted decimal text of the address to `out`.
    pub fn push_text(&self, out: &mut Vec<char>)
        ensures
            final(out)@ == old(out)@ + self.text(),
    {
        push_decimal(out, self.a as u32);
        out.push('.');
        push_decimal(out, self.b as u32);
        out.push('.');
        push_decimal(out, self.c as u32);
        out.push('.');
        push_decimal(out, self.d as u32);
        proof {
            assert(final(out)@ =~= old(out)@ + self.text());
        }
    }
}

/// The address of the local host.
pub fn localhost() -> (ip: Ipv4)
    ensures
        ip == (Ipv4 { a: 127, b: 0, c: 0, d: 1 }),
{
    Ipv4 { a: 127, b: 0, c: 0, d: 1 }
}

/// The text `ip:port` of a socket address.
pub open spec fn address_text(ip: Ipv4, port: u16) -> Seq<char> {
    ip.text() + seq![':'] + decimal(port as nat)
}

/// The text `ip:port` of a socket address.
pub fn ip_port_string(ip: Ipv4, port: u16) -> (s: String)
    ensures
        s@ == address_text(ip, port),
{
    let mut out: Vec<char> = Vec::new();
    ip.push_text(&mut out);
    out.push(':');
    push_decimal(&mut out, port as u32);
    proof {
        assert(out@ =~= address_text(ip, port));
    }
    string_of(out.as_slice())
}

/// The pause, in milliseconds, between two units of data sent to a peer
/// with `prior_comms` earlier exchanges: none on its first exchange, the
/// congestion delay afterwards.
pub open spec fn delay_for(prior_comms: u16) -> u64 {
    if prior_comms > 0 {
        CONGESTION_DELAY_MS
    } else {
        0
    }
}

/// The pause, in milliseconds, between two units of data sent to a peer
/// with `prior_comms` earlier exchanges.
pub fn delay_to_avoid_surfers(prior_comms: u16) -> (delay: u64)
    ensures
        delay == delay_for(prior_comms),
{
    if prior_comms > 0 {
        CONGESTION_DELAY_MS
    } else {
        0
    }
}

/// A data port chosen at random among those from `PORT_MIN` up to, and
/// without, `PORT_MAX`.
pub fn random_data_port() -> (port: u16)
    ensures
        PORT_MIN <= port < PORT_MAX,
{
    random_in_range(PORT_MIN, PORT_MAX)
}

/// The port to try after `port` could not be bound: the next one, until
/// the range of ports is used up.
pub fn next_bind_port(port: u16) -> (next: Option<u16>)
    ensures
        next == (if port + 1 < PORT_MAX {
            Some((port + 1) as u16)
        } else {
            None
        }),
{
    if port < PORT_MAX - 1 {
        Some(port + 1)
    } else {
        None
    }
}

/// The peer behind a packet from `ip` and `port`, and whether it was
/// unknown until now. A known peer is given as the registry holds it; an
/// unknown one gets a random name and no exchange yet.
pub fn node_at(nodes: &Registry, ip: Ipv4, port: u16) -> (r: (Node, bool))
    ensures
        r.1 == !has_address(nodes@, ip, port),
        !r.1 ==> r.0@ == nodes@[position(nodes@, ip, port)],
        r.1 ==> r.0.ip == ip && r.0.port == port && r.0.prior_communications == 0
            && is_sneaky_name(r.0.name@),
{
    match nodes.position(ip, port) {
        Some(i) => (nodes.get(i).clone(), false),
        None => {
            let suffix = random_suffix(SNEAKY_SUFFIX_LEN);
            proof {
                lemma_sneaky_name(suffix@);
            }
            (Node::sneaky_at(ip, port, suffix.as_slice()), true)
        },
    }
}

/// The peer behind a packet from the socket address `addr`, written
/// `ip:port`, and whether it was unknown until now; nothing where `addr`
/// is no such address.
pub fn node_of_packet(nodes: &Registry, addr: &str) -> (r: Option<(Node, bool)>)
    ensures
        match parse_address(addr@) {
            Some((ip, port)) => r is Some && ({
                let (node, was_sneaky) = r->0;
                &&& was_sneaky == !has_address(nodes@, ip, port)
                &&& !was_sneaky ==> node@ == nodes@[position(nodes@, ip, port)]
                &&& was_sneaky ==> node.ip == ip && node.port == port && node.prior_communications
                    == 0 && is_sneaky_name(node.name@)
            }),
            None => r is None,
        },
{
    let chars = chars_of(addr);
    match address_of(chars.as_slice()) {
        Some((ip, port)) => Some(node_at(nodes, ip, port)),
        None => None,
    }
}

/// The counter that the registry holds for the peer at `ip` and `port`
/// after an exchange with it.
pub open spec fn counter_after_exchange(before: Seq<NodeView>, ip: Ipv4, port: u16) -> u16 {
    if has_address(before, ip, port) {
        bump(before[position(before, ip, port)].prior_communications)
    } else {
        0
    }
}

/// Records an exchange with `current_node` in the registry and gives the
/// counter that the registry now holds for it: zero for a peer that is
/// new to the registry, one more than before for a known one.
pub fn update_nodes(current_node: Node, nodes: &mut Registry) -> (count: u16)
    ensures
        final(nodes)@ == upserted(old(nodes)@, current_node@),
        unique_addresses(final(nodes)@),
        count == counter_after_exchange(old(nodes)@, current_node.ip, current_node.port),
{
    proof {
        lemma_position(nodes@, current_node.ip, current_node.port);
    }
    nodes.upsert(current_node)
}

/// What an exchange with the peer at `ip` and `port` does to the
/// registry. A known peer keeps its place and its name, and its counter
/// goes up by one. An unknown peer is added at the end under a random
/// name, with a counter of zero. No other entry changes.
pub open spec fn exchange_recorded(
    before: Seq<NodeView>,
    after: Seq<NodeView>,
    ip: Ipv4,
    port: u16,
) -> bool {
    if has_address(before, ip, port) {
        let p = position(before, ip, port);
        after == before.update(p, exchanged(before[p], before[p].prior_communications))
    } else {
        &&& after.len() == before.len() + 1
        &&& after == before.push(after.last())
        &&& after.last().ip == ip
        &&& after.last().port == port
        &&& after.last().prior_communications == 0
        &&& is_sneaky_name(after.last().name)
    }
}

/// An exchange with a peer changes no address and lowers no counter. The
/// counter of a known peer goes up by exactly one, unless it holds the
/// largest value that it can, and every other entry stays as it is.
pub proof fn lemma_exchange_counts(
    before: Seq<NodeView>,
    after: Seq<NodeView>,
    ip: Ipv4,
    port: u16,
)
    requires
        exchange_recorded(before, after, ip, port),
    ensures
        after.len() >= before.len(),
        forall|k: int|
            0 <= k < before.len() ==> (#[trigger] after[k]).same_address(before[k])
                && after[k].prior_communications >= before[k].prior_communications,
        forall|k: int|
            0 <= k < before.len() && !is_at(before[k], ip, port) ==> #[trigger] after[k]
                == before[k],
        has_address(before, ip, port) ==> ({
            let p = position(before, ip, port);
            &&& after[p].prior_communications == bump(before[p].prior_communications)
            &&& before[p].prior_communications < u16::MAX ==> after[p].prior_communications
                == before[p].prior_communications + 1
        }),
{
    lemma_position(before, ip, port);
}

/// Records an exchange with the peer at `ip` and `port`, which is added
/// under a random name where it is unknown. Gives whether it was unknown,
/// and the counter that the registry now holds for it.
pub fn check_clients(ip: Ipv4, port: u16, nodes: &mut Registry) -> (r: (bool, u16))
    ensures
        unique_addresses(final(nodes)@),
        exchange_recorded(old(nodes)@, final(nodes)@, ip, port),
        r.0 == !has_address(old(nodes)@, ip, port),
        r.1 == counter_after_exchange(old(nodes)@, ip, port),
{
    proof {
        lemma_position(nodes@, ip, port);
    }
    let (current_node, was_sneaky) = node_at(nodes, ip, port);
    let prior_comms = update_nodes(current_node, nodes);
    (was_sneaky, prior_comms)
}

/// The number of transfers that a node serves at the moment, and the most
/// that it serves at once.
pub struct ClientCounter {
    active: u16,
    limit: u16,
}

impl ClientCounter {
    #[verifier::type_invariant]
    spec fn wf(self) -> bool {
        self.active <= self.limit
    }

    /// Number of transfers that are served at the moment.
    pub closed spec fn active(self) -> u16 {
        self.active
    }

    /// Most transfers that are served at once.
    pub closed spec fn limit(self) -> u16 {
        self.limit
    }

    /// A counter without transfers, for at most `limit` at once.
    pub fn new(limit: u16) -> (c: ClientCounter)
        ensures
            c.active() == 0,
            c.limit() == limit,
    {
        ClientCounter { active: 0, limit }
    }

    /// Number of transfers that are served at the moment. It never exceeds
    /// the limit.
    pub fn current(&self) -> (n: u16)
        ensures
            n == self.active(),
            n <= self.limit(),
    {
        proof {
            use_type_invariant(self);
        }
        self.active
    }

    /// Whether one more transfer can be admitted.
    pub fn has_room(&self) -> (r: bool)
        ensures
            r == (self.active() < self.limit()),
    {
        self.active < self.limit
    }
}

/// Counts one transfer more where `increment` is set, and one less where
/// it is not. The count is compared and changed in one step: it goes up
/// only where it is below the limit, and down only where it is above zero;
/// the result says whether it changed. So the count never exceeds the
/// limit.
pub fn update_client_number(counter: &mut ClientCounter, increment: bool) -> (changed: bool)
    ensures
        final(counter).limit() == old(counter).limit(),
        final(counter).active() <= final(counter).limit(),
        increment ==> changed == (old(counter).active() < old(counter).limit()),
        !increment ==> changed == (old(counter).active() > 0),
        changed && increment ==> final(counter).active() == old(counter).active() + 1,
        changed && !increment ==> final(counter).active() == old(counter).active() - 1,
        !changed ==> final(counter).active() == old(counter).active(),
{
    proof {
        use_type_invariant(&*counter);
    }
    if increment {
        if counter.active < counter.limit {
            counter.active = counter.active + 1;
            true
        } else {
            false
        }
    } else {
        if counter.active > 0 {
            counter.active = counter.active - 1;
            true
        } else {
            false
        }
    }
}

} // verus!
