//! A peer of the overlay and the text forms in which peers are exchanged.

use crate::networking::{address_text, ip_port_string, Ipv4};
use crate::number::{decimal, parse_u16, parse_u8, push_decimal, read_u16, read_u8};
use crate::random::{is_alphanumeric, random_suffix};
use crate::registry::{merged, node_views, unique_addresses, Registry};
use crate::text::{chars_of, same_chars, split, split_chars, string_of, views};
use crate::udp::headers::PacketHeader;
use vstd::prelude::*;
use vstd::std_specs::cmp::PartialEqSpecImpl;

verus! {

/// What a `Node` holds, with its name as a sequence of characters.
pub struct NodeView {
    pub name: Seq<char>,
    pub ip: Ipv4,
    pub port: u16,
    pub prior_communications: u16,
}

/// A peer: a display name, the address and port of its control socket, and
/// the number of exchanges that this node has had with it.
#[derive(Debug)]
pub struct Node {
    pub name: String,
    pub ip: Ipv4,
    pub port: u16,
    pub prior_communications: u16,
}

impl View for Node {
    type V = NodeView;

    open spec fn view(&self) -> NodeView {
        NodeView {
            name: self.name@,
            ip: self.ip,
            port: self.port,
            prior_communications: self.prior_communications,
        }
    }
}

impl NodeView {
    /// Two peers are the same peer where address and port agree; the name
    /// and the counter do not matter.
    pub open spec fn same_address(self, other: NodeView) -> bool {
        self.ip == other.ip && self.port == other.port
    }

    /// The text `ip:port` of the peer's control socket.
    pub open spec fn address(self) -> Seq<char> {
        address_text(self.ip, self.port)
    }

    /// The line `name ip port` that stands for the peer in a peer list.
    pub open spec fn line(self) -> Seq<char> {
        self.name + seq![' '] + self.ip.text() + seq![' '] + decimal(self.port as nat)
    }
}

impl Clone for Node {
    fn clone(&self) -> (n: Node)
        ensures
            n == *self,
    {
        Node {
            name: self.name.clone(),
            ip: self.ip,
            port: self.port,
            prior_communications: self.prior_communications,
        }
    }
}

impl PartialEq for Node {
    fn eq(&self, other: &Node) -> (r: bool) {
        self.ip == other.ip && self.port == other.port
    }
}

impl Eq for Node {

}

impl PartialEqSpecImpl for Node {
    open spec fn obeys_eq_spec() -> bool {
        true
    }

    open spec fn eq_spec(&self, other: &Node) -> bool {
        self.ip == other.ip && self.port == other.port
    }
}

impl Default for Node {
    fn default() -> (n: Node)
        ensures
            n@ == (NodeView {
                name: Seq::empty(),
                ip: Ipv4 { a: 0, b: 0, c: 0, d: 0 },
                port: 0,
                prior_communications: 0,
            }),
    {
        Node { name: String::new(), ip: Ipv4 { a: 0, b: 0, c: 0, d: 0 }, port: 0, prior_communications: 0 }
    }
}

/// The numbers between the dots of `s`, where each of them is a decimal
/// number that fits 8 bits.
pub open spec fn parse_octets(s: Seq<char>) -> Option<Seq<u8>> {
    let parts = split(s, '.');
    if forall|k: int| 0 <= k < parts.len() ==> parse_u8(#[trigger] parts[k]) is Some {
        Some(Seq::new(parts.len(), |k: int| parse_u8(parts[k])->0))
    } else {
        None
    }
}

/// Reads an IPv4 address: four numbers that fit 8 bits, with a dot between
/// each two.
pub open spec fn parse_ipv4(s: Seq<char>) -> Option<Ipv4> {
    match parse_octets(s) {
        Some(v) => if v.len() == 4 {
            Some(Ipv4 { a: v[0], b: v[1], c: v[2], d: v[3] })
        } else {
            None
        },
        None => None,
    }
}

/// Reads a socket address `ip:port`. Anything after a second colon is
/// ignored.
pub open spec fn parse_address(s: Seq<char>) -> Option<(Ipv4, u16)> {
    let parts = split(s, ':');
    if parts.len() >= 2 && parse_ipv4(parts[0]) is Some && parse_u16(parts[1]) is Some {
        Some((parse_ipv4(parts[0])->0, parse_u16(parts[1])->0))
    } else {
        None
    }
}

/// Reads one line `name ip port` of a peer list. Fields after the third
/// are ignored. The peer that is read has had no exchange yet.
pub open spec fn parse_node_line(line: Seq<char>) -> Option<NodeView> {
    let parts = split(line, ' ');
    if parts.len() >= 3 && parse_ipv4(parts[1]) is Some && parse_u16(parts[2]) is Some {
        Some(
            NodeView {
                name: parts[0],
                ip: parse_ipv4(parts[1])->0,
                port: parse_u16(parts[2])->0,
                prior_communications: 0,
            },
        )
    } else {
        None
    }
}

/// The numbers between the dots of `s`.
pub fn octets_of(s: &[char]) -> (r: Option<Vec<u8>>)
    ensures
        match r {
            Some(v) => parse_octets(s@) == Some(v@),
            None => parse_octets(s@) is None,
        },
{
    let parts = split_chars(s, '.');
    let ghost pieces = split(s@, '.');
    let mut out: Vec<u8> = Vec::new();
    let mut i: usize = 0;
    while i < parts.len()
        invariant
            i <= parts.len(),
            views(parts@) == pieces,
            pieces == split(s@, '.'),
            out.len() == i,
            forall|k: int| 0 <= k < i ==> parse_u8(#[trigger] pieces[k]) == Some(out@[k]),
        decreases parts.len() - i,
    {
        proof {
            assert(pieces[i as int] == parts@[i as int]@);
        }
        match read_u8(parts[i].as_slice()) {
            Some(b) => {
                out.push(b);
            },
            None => {
                return None;
            },
        }
        i += 1;
    }
    proof {
        assert(out@ =~= Seq::new(pieces.len(), |k: int| parse_u8(pieces[k])->0));
    }
    Some(out)
}

/// Reads an IPv4 address in dotted decimal text.
pub fn ipv4_of(s: &[char]) -> (r: Option<Ipv4>)
    ensures
        r == parse_ipv4(s@),
{
    match octets_of(s) {
        Some(v) => {
            if v.len() == 4 {
                Some(Ipv4 { a: v[0], b: v[1], c: v[2], d: v[3] })
            } else {
                None
            }
        },
        None => None,
    }
}

/// Reads a socket address `ip:port`.
pub fn address_of(s: &[char]) -> (r: Option<(Ipv4, u16)>)
    ensures
        r == parse_address(s@),
{
    let parts = split_chars(s, ':');
    if parts.len() < 2 {
        return None;
    }
    proof {
        assert(views(parts@)[0] == parts@[0]@);
        assert(views(parts@)[1] == parts@[1]@);
    }
    let ip = match ipv4_of(parts[0].as_slice()) {
        Some(ip) => ip,
        None => {
            return None;
        },
    };
    match read_u16(parts[1].as_slice()) {
        Some(port) => Some((ip, port)),
        None => None,
    }
}

/// The numbers between the dots of `ip_str`, or nothing where one of them
/// is no decimal number that fits 8 bits.
pub fn str_to_u8_vector(ip_str: &str) -> (r: Option<Vec<u8>>)
    ensures
        match r {
            Some(v) => parse_octets(ip_str@) == Some(v@),
            None => parse_octets(ip_str@) is None,
        },
{
    let chars = chars_of(ip_str);
    octets_of(chars.as_slice())
}

impl Node {
    /// A peer with no exchange yet, or nothing where `ip_str` is no IPv4
    /// address.
    pub fn new(name_str: &str, ip_str: &str, port: u16) -> (r: Option<Node>)
        ensures
            match r {
                Some(n) => parse_ipv4(ip_str@) is Some && n@ == (NodeView {
                    name: name_str@,
                    ip: parse_ipv4(ip_str@)->0,
                    port,
                    prior_communications: 0,
                }),
                None => parse_ipv4(ip_str@) is None,
            },
    {
        let chars = chars_of(ip_str);
        match ipv4_of(chars.as_slice()) {
            Some(ip) => Some(
                Node { name: name_str.to_owned(), ip, port, prior_communications: 0 },
            ),
            None => None,
        }
    }

    /// Reads one line `name ip port` of a peer list.
    pub fn from_line(line: &[char]) -> (r: Option<Node>)
        ensures
            match r {
                Some(n) => parse_node_line(line@) == Some(n@),
                None => parse_node_line(line@) is None,
            },
    {
        let parts = split_chars(line, ' ');
        if parts.len() < 3 {
            return None;
        }
        proof {
            assert(views(parts@)[0] == parts@[0]@);
            assert(views(parts@)[1] == parts@[1]@);
            assert(views(parts@)[2] == parts@[2]@);
        }
        let ip = match ipv4_of(parts[1].as_slice()) {
            Some(ip) => ip,
            None => {
                return None;
            },
        };
        let port = match read_u16(parts[2].as_slice()) {
            Some(port) => port,
            None => {
                return None;
            },
        };
        Some(Node { name: string_of(parts[0].as_slice()), ip, port, prior_communications: 0 })
    }

    /// Whether `other_str` is the text `ip:port` of this peer's socket.
    pub fn has_same_address(&self, other_str: &str) -> (r: bool)
        ensures
            r == (self@.address() == other_str@),
    {
        let mine = chars_of(self.to_short_string().as_str());
        let other = chars_of(other_str);
        same_chars(mine.as_slice(), other.as_slice())
    }

    /// The text `ip:port` of this peer's socket.
    pub fn to_short_string(&self) -> (s: String)
        ensures
            s@ == self@.address(),
    {
        ip_port_string(self.ip, self.port)
    }

    /// The line `name ip port` that stands for this peer in a peer list.
    pub fn to_string(&self) -> (s: String)
        ensures
            s@ == self@.line(),
    {
        let mut out = chars_of(self.name.as_str());
        out.push(' ');
        self.ip.push_text(&mut out);
        out.push(' ');
        push_decimal(&mut out, self.port as u32);
        proof {
            assert(out@ =~= self@.line());
        }
        string_of(out.as_slice())
    }
}

/// The word that opens the name of a peer that was not announced.
pub open spec fn sneaky_prefix() -> Seq<char> {
    seq!['S', 'n', 'e', 'a', 'k', 'y', '-']
}

/// Number of random letters and digits in such a name.
pub const SNEAKY_SUFFIX_LEN: usize = 8;

/// A peer that was met before it was announced has a name made of the word
/// `Sneaky-` and eight letters or digits.
pub open spec fn is_sneaky_name(name: Seq<char>) -> bool {
    &&& name.len() == sneaky_prefix().len() + SNEAKY_SUFFIX_LEN
    &&& sneaky_prefix().is_prefix_of(name)
    &&& forall|i: int| sneaky_prefix().len() <= i < name.len() ==> is_alphanumeric(#[trigger] name[i])
}

/// The peers that the lines `lines[from..]` of a peer list stand for, in
/// order. A line that is no peer is passed over.
pub open spec fn parse_node_lines(lines: Seq<Seq<char>>) -> Seq<NodeView>
    decreases lines.len(),
{
    if lines.len() == 0 {
        Seq::empty()
    } else {
        let before = parse_node_lines(lines.drop_last());
        match parse_node_line(lines.last()) {
            Some(n) => before.push(n),
            None => before,
        }
    }
}

/// The lines of a peer list that may hold peers: what stands between the
/// line feeds of `data`, without the first such piece where `trim` says
/// that it is the header.
pub open spec fn node_list_lines(data: Seq<char>, trim: bool) -> Seq<Seq<char>> {
    let all = split(data, '\n');
    if trim {
        all.skip(1)
    } else {
        all
    }
}

/// The registry that a peer list gives: its peers in order, each address
/// once, the first mention of an address winning.
pub open spec fn parse_node_list(data: Seq<char>, trim: bool) -> Seq<NodeView> {
    merged(Seq::empty(), parse_node_lines(node_list_lines(data, trim)), None)
}

/// The lines `name ip port`, each closed by a line feed, that stand for
/// the peers of `nodes`.
pub open spec fn node_lines_text(nodes: Seq<NodeView>) -> Seq<char>
    decreases nodes.len(),
{
    if nodes.len() == 0 {
        Seq::empty()
    } else {
        nodes[0].line() + seq!['\n'] + node_lines_text(nodes.skip(1))
    }
}

/// The peer list that announces `nodes`: the discovery tag, then one line
/// for each peer.
pub open spec fn node_list_text(nodes: Seq<NodeView>) -> Seq<char> {
    PacketHeader::Disc.tag() + node_lines_text(nodes)
}

impl Node {
    /// The peer list that announces the peers of `nodes`.
    pub fn nodes_to_string(nodes: &Registry) -> (s: String)
        ensures
            s@ == node_list_text(nodes@),
    {
        let mut out = chars_of(PacketHeader::discovery());
        let n = nodes.len();
        let mut i: usize = 0;
        proof {
            assert(nodes@.skip(0) =~= nodes@);
        }
        while i < n
            invariant
                i <= n,
                n == nodes@.len(),
                out@ + node_lines_text(nodes@.skip(i as int)) == node_list_text(nodes@),
            decreases n - i,
        {
            let node = nodes.get(i);
            let mut line = chars_of(node.to_string().as_str());
            let ghost before = out@;
            out.append(&mut line);
            out.push('\n');
            proof {
                let rest = nodes@.skip(i as int);
                assert(rest[0] == node@);
                assert(rest.skip(1) =~= nodes@.skip(i + 1));
                assert(out@ =~= before + node@.line() + seq!['\n']);
                assert(out@ + node_lines_text(nodes@.skip(i + 1)) =~= before + node_lines_text(
                    rest,
                ));
            }
            i += 1;
        }
        proof {
            assert(out@ + Seq::<char>::empty() =~= out@);
        }
        string_of(out.as_slice())
    }

    /// The registry that the peer list `data` gives. Where `trim` is set,
    /// the first line is the header and is passed over, as is every line
    /// that is no peer.
    pub fn multiple_from_string(data: String, trim: bool) -> (nodes: Registry)
        ensures
            nodes@ == parse_node_list(data@, trim),
            unique_addresses(nodes@),
    {
        let chars = chars_of(data.as_str());
        let all = split_chars(chars.as_slice(), '\n');
        let start: usize = if trim {
            1
        } else {
            0
        };
        let ghost lines = node_list_lines(data@, trim);
        proof {
            assert(lines =~= views(all@).skip(start as int));
        }
        let mut found: Vec<Node> = Vec::new();
        let mut i: usize = start;
        proof {
            assert(lines.take(0) =~= Seq::<Seq<char>>::empty());
            assert(node_views(found@) =~= parse_node_lines(lines.take(0)));
        }
        while i < all.len()
            invariant
                start <= i <= all.len(),
                lines == views(all@).skip(start as int),
                node_views(found@) == parse_node_lines(lines.take(i - start)),
            decreases all.len() - i,
        {
            let ghost before = found@;
            proof {
                assert(lines.take(i + 1 - start).drop_last() =~= lines.take(i - start));
                assert(lines.take(i + 1 - start).last() == all@[i as int]@);
            }
            match Node::from_line(all[i].as_slice()) {
                Some(node) => {
                    found.push(node);
                    proof {
                        assert(node_views(found@) =~= node_views(before).push(node@));
                    }
                },
                None => {},
            }
            i += 1;
        }
        proof {
            assert(lines.take(all.len() - start) =~= lines);
        }
        let mut nodes = Registry::new();
        nodes.merge(&found, None);
        nodes
    }

    /// The peer at the socket address `line`, written `ip:port`, under the
    /// name that `suffix` completes; nothing where `line` is no such
    /// address.
    pub fn sneaky_with_suffix(line: &str, suffix: &[char]) -> (r: Option<Node>)
        ensures
            match r {
                Some(n) => parse_address(line@) == Some((n.ip, n.port)) && n.name@
                    == sneaky_prefix() + suffix@ && n.prior_communications == 0,
                None => parse_address(line@) is None,
            },
    {
        let chars = chars_of(line);
        match address_of(chars.as_slice()) {
            Some((ip, port)) => Some(Node::sneaky_at(ip, port, suffix)),
            None => None,
        }
    }

    /// The peer at `ip` and `port` under the name that `suffix` completes.
    pub fn sneaky_at(ip: Ipv4, port: u16, suffix: &[char]) -> (n: Node)
        ensures
            n@ == (NodeView {
                name: sneaky_prefix() + suffix@,
                ip,
                port,
                prior_communications: 0,
            }),
    {
        proof {
            reveal_strlit("Sneaky-");
        }
        let mut name = chars_of("Sneaky-");
        let mut i: usize = 0;
        while i < suffix.len()
            invariant
                i <= suffix.len(),
                name@ == sneaky_prefix() + suffix@.take(i as int),
            decreases suffix.len() - i,
        {
            name.push(suffix[i]);
            proof {
                assert(name@ =~= sneaky_prefix() + suffix@.take(i + 1));
            }
            i += 1;
        }
        proof {
            assert(suffix@.take(suffix.len() as int) =~= suffix@);
        }
        Node { name: string_of(name.as_slice()), ip, port, prior_communications: 0 }
    }

    /// A peer that was not announced, at the socket address `line`,
    /// written `ip:port`, under a random name; nothing where `line` is no
    /// such address.
    pub fn new_sneaky(line: &str) -> (r: Option<Node>)
        ensures
            match r {
                Some(n) => parse_address(line@) == Some((n.ip, n.port)) && n.prior_communications
                    == 0 && is_sneaky_name(n.name@),
                None => parse_address(line@) is None,
            },
    {
        let suffix = random_suffix(SNEAKY_SUFFIX_LEN);
        let r = Node::sneaky_with_suffix(line, suffix.as_slice());
        proof {
            lemma_sneaky_name(suffix@);
        }
        r
    }
}

/// The sneaky prefix followed by eight letters or digits is a sneaky name.
pub proof fn lemma_sneaky_name(suffix: Seq<char>)
    requires
        suffix.len() == SNEAKY_SUFFIX_LEN,
        forall|i: int| 0 <= i < suffix.len() ==> is_alphanumeric(#[trigger] suffix[i]),
    ensures
        is_sneaky_name(sneaky_prefix() + suffix),
{
    let name = sneaky_prefix() + suffix;
    assert(name.subrange(0, sneaky_prefix().len() as int) =~= sneaky_prefix());
    assert forall|i: int| sneaky_prefix().len() <= i < name.len() implies is_alphanumeric(
        #[trigger] name[i],
    ) by {
        assert(name[i] == suffix[i - 7]);
    }
}

} // verus!
