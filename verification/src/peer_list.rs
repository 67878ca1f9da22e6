//! What is written is read back: addresses, the lines of a peer list and
//! the peer list itself.

use crate::networking::{address_text, Ipv4};
use crate::node::{
    node_lines_text, node_list_lines, node_list_text, parse_address, parse_ipv4, parse_node_line,
    parse_node_lines, parse_node_list, parse_octets, NodeView,
};
use crate::number::{decimal, is_digit, lemma_decimal, parse_u16, parse_u8};
use crate::registry::{first_met, has_address, is_at, lemma_merged_all, unique_addresses};
use crate::text::{lemma_split_cons, lemma_split_single, split};
use vstd::prelude::*;

verus! {

/// A name that can stand in a peer list: it holds neither a space nor a
/// line feed.
pub open spec fn name_is_plain(name: Seq<char>) -> bool {
    forall|i: int| 0 <= i < name.len() ==> #[trigger] name[i] != ' ' && name[i] != '\n'
}

/// The peers as a peer list announces them: with a counter of zero.
pub open spec fn announced(nodes: Seq<NodeView>) -> Seq<NodeView> {
    Seq::new(nodes.len(), |k: int| first_met(nodes[k]))
}

/// The lines that stand for the peers, one each.
pub open spec fn node_lines(nodes: Seq<NodeView>) -> Seq<Seq<char>> {
    Seq::new(nodes.len(), |k: int| nodes[k].line())
}

/// Decimal text holds nothing but digits.
pub proof fn lemma_decimal_has_no(n: nat, c: char)
    requires
        !is_digit(c),
    ensures
        forall|i: int| 0 <= i < decimal(n).len() ==> decimal(n)[i] != c,
{
    lemma_decimal(n);
    assert forall|i: int| 0 <= i < decimal(n).len() implies decimal(n)[i] != c by {
        assert(is_digit(decimal(n)[i]));
    }
}

/// The dotted text of an address holds nothing but digits and dots.
pub proof fn lemma_ip_text_has_no(ip: Ipv4, c: char)
    requires
        !is_digit(c),
        c != '.',
    ensures
        forall|i: int| 0 <= i < ip.text().len() ==> ip.text()[i] != c,
{
    lemma_decimal_has_no(ip.a as nat, c);
    lemma_decimal_has_no(ip.b as nat, c);
    lemma_decimal_has_no(ip.c as nat, c);
    lemma_decimal_has_no(ip.d as nat, c);
}

/// The dotted text of an address is read back as that address.
pub proof fn lemma_ipv4_round_trip(ip: Ipv4)
    ensures
        parse_ipv4(ip.text()) == Some(ip),
{
    let a = decimal(ip.a as nat);
    let b = decimal(ip.b as nat);
    let c = decimal(ip.c as nat);
    let d = decimal(ip.d as nat);
    lemma_decimal_has_no(ip.a as nat, '.');
    lemma_decimal_has_no(ip.b as nat, '.');
    lemma_decimal_has_no(ip.c as nat, '.');
    lemma_decimal_has_no(ip.d as nat, '.');
    lemma_split_single(d, '.');
    lemma_split_cons(c, '.', d);
    lemma_split_cons(b, '.', c + seq!['.'] + d);
    lemma_split_cons(a, '.', b + seq!['.'] + (c + seq!['.'] + d));
    assert(ip.text() =~= a + seq!['.'] + (b + seq!['.'] + (c + seq!['.'] + d)));
    let parts = split(ip.text(), '.');
    assert(parts =~= seq![a, b, c, d]);
    lemma_decimal(ip.a as nat);
    lemma_decimal(ip.b as nat);
    lemma_decimal(ip.c as nat);
    lemma_decimal(ip.d as nat);
    assert(parse_u8(parts[0]) == Some(ip.a));
    assert(parse_u8(parts[1]) == Some(ip.b));
    assert(parse_u8(parts[2]) == Some(ip.c));
    assert(parse_u8(parts[3]) == Some(ip.d));
    assert(parse_octets(ip.text()) is Some);
    let v = parse_octets(ip.text())->0;
    assert(v.len() == 4);
    assert(v[0] == ip.a && v[1] == ip.b && v[2] == ip.c && v[3] == ip.d);
}

/// The text `ip:port` of a socket address is read back as that address.
pub proof fn lemma_address_round_trip(ip: Ipv4, port: u16)
    ensures
        parse_address(address_text(ip, port)) == Some((ip, port)),
{
    lemma_ip_text_has_no(ip, ':');
    lemma_decimal_has_no(port as nat, ':');
    lemma_split_single(decimal(port as nat), ':');
    lemma_split_cons(ip.text(), ':', decimal(port as nat));
    let parts = split(address_text(ip, port), ':');
    assert(parts =~= seq![ip.text(), decimal(port as nat)]);
    lemma_ipv4_round_trip(ip);
    lemma_decimal(port as nat);
}

/// Two socket addresses with the same text are the same address.
pub proof fn lemma_address_text_injective(ip1: Ipv4, port1: u16, ip2: Ipv4, port2: u16)
    requires
        address_text(ip1, port1) == address_text(ip2, port2),
    ensures
        ip1 == ip2,
        port1 == port2,
{
    lemma_address_round_trip(ip1, port1);
    lemma_address_round_trip(ip2, port2);
}

/// A registry holds a peer whose socket address has the text of `ip` and
/// `port` exactly where it holds a peer at `ip` and `port`: looking a peer
/// up by the text of its address and by the address itself agree.
pub proof fn lemma_lookup_by_text(s: Seq<NodeView>, ip: Ipv4, port: u16)
    ensures
        has_address(s, ip, port) <==> exists|i: int|
            0 <= i < s.len() && (#[trigger] s[i]).address() == address_text(ip, port),
{
    if has_address(s, ip, port) {
        let i = choose|i: int| 0 <= i < s.len() && is_at(#[trigger] s[i], ip, port);
        assert(s[i].address() == address_text(ip, port));
    }
    if exists|i: int| 0 <= i < s.len() && (#[trigger] s[i]).address() == address_text(ip, port) {
        let i = choose|i: int|
            0 <= i < s.len() && (#[trigger] s[i]).address() == address_text(ip, port);
        lemma_address_text_injective(s[i].ip, s[i].port, ip, port);
        assert(is_at(s[i], ip, port));
    }
}

/// The line of a peer with a plain name holds no line feed and is read
/// back as that peer, with a counter of zero.
pub proof fn lemma_node_line_round_trip(n: NodeView)
    requires
        name_is_plain(n.name),
    ensures
        parse_node_line(n.line()) == Some(first_met(n)),
        forall|i: int| 0 <= i < n.line().len() ==> n.line()[i] != '\n',
{
    let ip = n.ip.text();
    let port = decimal(n.port as nat);
    lemma_ip_text_has_no(n.ip, ' ');
    lemma_decimal_has_no(n.port as nat, ' ');
    lemma_ip_text_has_no(n.ip, '\n');
    lemma_decimal_has_no(n.port as nat, '\n');
    lemma_split_single(port, ' ');
    lemma_split_cons(ip, ' ', port);
    lemma_split_cons(n.name, ' ', ip + seq![' '] + port);
    assert(n.line() =~= n.name + seq![' '] + (ip + seq![' '] + port));
    let parts = split(n.line(), ' ');
    assert(parts =~= seq![n.name, ip, port]);
    lemma_ipv4_round_trip(n.ip);
    lemma_decimal(n.port as nat);
    assert(parse_u16(parts[2]) == Some(n.port));
    assert forall|i: int| 0 <= i < n.line().len() implies n.line()[i] != '\n' by {
        if i < n.name.len() {
            assert(n.line()[i] == n.name[i]);
        } else if i == n.name.len() {
        } else if i < n.name.len() + 1 + ip.len() {
            assert(n.line()[i] == ip[i - n.name.len() - 1]);
        } else if i == n.name.len() + 1 + ip.len() {
        } else {
            assert(n.line()[i] == port[i - n.name.len() - ip.len() - 2]);
        }
    }
}

/// The lines of peers with plain names are cut apart at their line feeds,
/// with an empty piece after the last.
pub proof fn lemma_node_lines_split(nodes: Seq<NodeView>)
    requires
        forall|k: int| 0 <= k < nodes.len() ==> name_is_plain(#[trigger] nodes[k].name),
    ensures
        split(node_lines_text(nodes), '\n') == node_lines(nodes).push(Seq::empty()),
    decreases nodes.len(),
{
    if nodes.len() == 0 {
        assert(split(Seq::<char>::empty(), '\n') =~= seq![Seq::<char>::empty()]);
        assert(node_lines(nodes).push(Seq::empty()) =~= seq![Seq::<char>::empty()]);
    } else {
        let rest = nodes.skip(1);
        assert forall|k: int| 0 <= k < rest.len() implies name_is_plain(#[trigger] rest[k].name) by {
            assert(rest[k] == nodes[k + 1]);
        }
        lemma_node_lines_split(rest);
        lemma_node_line_round_trip(nodes[0]);
        lemma_split_cons(nodes[0].line(), '\n', node_lines_text(rest));
        assert(seq![nodes[0].line()] + node_lines(rest).push(Seq::empty()) =~= node_lines(
            nodes,
        ).push(Seq::empty()));
    }
}

/// The lines of peers with plain names are read back as these peers.
pub proof fn lemma_parse_node_lines(nodes: Seq<NodeView>)
    requires
        forall|k: int| 0 <= k < nodes.len() ==> name_is_plain(#[trigger] nodes[k].name),
    ensures
        parse_node_lines(node_lines(nodes)) == announced(nodes),
    decreases nodes.len(),
{
    if nodes.len() == 0 {
        assert(announced(nodes) =~= Seq::<NodeView>::empty());
    } else {
        let shorter = nodes.drop_last();
        assert forall|k: int| 0 <= k < shorter.len() implies name_is_plain(
            #[trigger] shorter[k].name,
        ) by {
            assert(shorter[k] == nodes[k]);
        }
        lemma_parse_node_lines(shorter);
        lemma_node_line_round_trip(nodes.last());
        assert(node_lines(nodes).drop_last() =~= node_lines(shorter));
        assert(node_lines(nodes).last() == nodes.last().line());
        assert(announced(shorter).push(first_met(nodes.last())) =~= announced(nodes));
    }
}

/// The peer list of peers with plain names holds, after its header, the
/// lines that are read back as these peers.
pub proof fn lemma_node_list_lines(nodes: Seq<NodeView>)
    requires
        forall|k: int| 0 <= k < nodes.len() ==> name_is_plain(#[trigger] nodes[k].name),
    ensures
        parse_node_lines(node_list_lines(node_list_text(nodes), true)) == announced(nodes),
{
    let head = seq!['D', 'I', 'S', 'C'];
    let body = node_lines_text(nodes);
    assert(node_list_text(nodes) =~= head + seq!['\n'] + body);
    lemma_split_cons(head, '\n', body);
    lemma_node_lines_split(nodes);
    let lines = node_list_lines(node_list_text(nodes), true);
    assert(lines =~= node_lines(nodes).push(Seq::empty()));
    lemma_parse_node_lines(nodes);
    assert(lines.drop_last() =~= node_lines(nodes));
    assert(split(Seq::<char>::empty(), ' ') =~= seq![Seq::<char>::empty()]);
    assert(parse_node_line(lines.last()) is None);
}

/// A peer list of peers with plain names and unique addresses is read
/// back as these peers, in their order, each with a counter of zero.
pub proof fn lemma_node_list_round_trip(nodes: Seq<NodeView>)
    requires
        unique_addresses(nodes),
        forall|k: int| 0 <= k < nodes.len() ==> name_is_plain(#[trigger] nodes[k].name),
    ensures
        parse_node_list(node_list_text(nodes), true) == announced(nodes),
{
    lemma_node_list_lines(nodes);
    let fresh = announced(nodes);
    let all = Seq::<NodeView>::empty() + fresh;
    assert(all =~= fresh);
    assert forall|i: int, j: int| 0 <= i < j < all.len() implies !(#[trigger] all[i]).same_address(
        #[trigger] all[j],
    ) by {
        assert(!nodes[i].same_address(nodes[j]));
    }
    lemma_merged_all(Seq::empty(), fresh);
}

} // verus!
