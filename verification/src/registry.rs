//! The peer registry: the peers that a node knows, each address once.

use crate::networking::Ipv4;
use crate::node::{Node, NodeView};
use vstd::prelude::*;

verus! {

/// The views of a sequence of peers.
pub open spec fn node_views(nodes: Seq<Node>) -> Seq<NodeView> {
    Seq::new(nodes.len(), |i: int| nodes[i]@)
}

/// No two entries have the same address and port.
pub open spec fn unique_addresses(s: Seq<NodeView>) -> bool {
    forall|i: int, j: int| 0 <= i < j < s.len() ==> !(#[trigger] s[i]).same_address(#[trigger] s[j])
}

/// Whether the entry `n` is the peer at `ip` and `port`.
pub open spec fn is_at(n: NodeView, ip: Ipv4, port: u16) -> bool {
    n.ip == ip && n.port == port
}

/// Whether some entry is the peer at `ip` and `port`.
pub open spec fn has_address(s: Seq<NodeView>, ip: Ipv4, port: u16) -> bool {
    exists|i: int| 0 <= i < s.len() && is_at(#[trigger] s[i], ip, port)
}

/// Index of the first entry at `ip` and `port`, or `s.len()` where there is
/// none.
pub open spec fn position(s: Seq<NodeView>, ip: Ipv4, port: u16) -> int
    decreases s.len(),
{
    if s.len() == 0 {
        0
    } else if is_at(s[0], ip, port) {
        0
    } else {
        1 + position(s.skip(1), ip, port)
    }
}

/// `position` lies within the sequence, points at an entry of that address
/// unless it is the length, and no entry before it has that address.
pub proof fn lemma_position(s: Seq<NodeView>, ip: Ipv4, port: u16)
    ensures
        0 <= position(s, ip, port) <= s.len(),
        position(s, ip, port) < s.len() ==> is_at(s[position(s, ip, port)], ip, port),
        forall|j: int| 0 <= j < position(s, ip, port) ==> !is_at(#[trigger] s[j], ip, port),
        has_address(s, ip, port) <==> position(s, ip, port) < s.len(),
    decreases s.len(),
{
    if s.len() > 0 && !is_at(s[0], ip, port) {
        lemma_position(s.skip(1), ip, port);
        let r = position(s.skip(1), ip, port);
        assert forall|j: int| 0 <= j < 1 + r implies !is_at(#[trigger] s[j], ip, port) by {
            if j > 0 {
                assert(s.skip(1)[j - 1] == s[j]);
            }
        }
        if r < s.skip(1).len() {
            assert(s.skip(1)[r] == s[r + 1]);
        }
    }
    let p = position(s, ip, port);
    if p < s.len() {
        assert(is_at(s[p], ip, port));
    }
}

/// The earlier exchanges with the peer at `ip` and `port`: the counter that
/// the registry holds for it, and none where it is unknown.
pub open spec fn prior_comms_of(s: Seq<NodeView>, ip: Ipv4, port: u16) -> u16 {
    if has_address(s, ip, port) {
        s[position(s, ip, port)].prior_communications
    } else {
        0
    }
}

/// The counter after one more exchange: one more, and unchanged once it
/// has reached the largest value that it can hold.
pub open spec fn bump(count: u16) -> u16 {
    if count < u16::MAX {
        (count + 1) as u16
    } else {
        count
    }
}

/// The entry that stands for `n` after an exchange with it: the record is
/// `n` itself, with the counter that follows `earlier`.
pub open spec fn exchanged(n: NodeView, earlier: u16) -> NodeView {
    NodeView { prior_communications: bump(earlier), ..n }
}

/// The entry that stands for `n` when it is first met.
pub open spec fn first_met(n: NodeView) -> NodeView {
    NodeView { prior_communications: 0, ..n }
}

/// The registry after an exchange with `n`. Where an entry has the address
/// of `n`, it is replaced by `n` with the entry's counter plus one. Where
/// none has, `n` is added with a counter of zero.
pub open spec fn upserted(s: Seq<NodeView>, n: NodeView) -> Seq<NodeView> {
    let p = position(s, n.ip, n.port);
    if 0 <= p < s.len() {
        s.update(p, exchanged(n, s[p].prior_communications))
    } else {
        s.push(first_met(n))
    }
}

/// The registry after `n` was heard of: `n` is added unless its address is
/// known already.
pub open spec fn inserted(s: Seq<NodeView>, n: NodeView) -> Seq<NodeView> {
    if has_address(s, n.ip, n.port) {
        s
    } else {
        s.push(n)
    }
}

/// The registry after the peers of `incoming` were heard of, in order. A
/// peer at the node's own address `own` is left out.
pub open spec fn merged(s: Seq<NodeView>, incoming: Seq<NodeView>, own: Option<(Ipv4, u16)>) -> Seq<
    NodeView,
>
    decreases incoming.len(),
{
    if incoming.len() == 0 {
        s
    } else {
        let before = merged(s, incoming.drop_last(), own);
        let n = incoming.last();
        if own == Some((n.ip, n.port)) {
            before
        } else {
            inserted(before, n)
        }
    }
}

/// The peers that a node knows. No two of them have the same address and
/// port.
pub struct Registry {
    nodes: Vec<Node>,
}

impl View for Registry {
    type V = Seq<NodeView>;

    closed spec fn view(&self) -> Seq<NodeView> {
        node_views(self.nodes@)
    }
}

impl Registry {
    #[verifier::type_invariant]
    spec fn wf(self) -> bool {
        unique_addresses(node_views(self.nodes@))
    }

    /// A registry without peers.
    pub fn new() -> (r: Registry)
        ensures
            r@ == Seq::<NodeView>::empty(),
    {
        let r = Registry { nodes: Vec::new() };
        proof {
            assert(r@ =~= Seq::<NodeView>::empty());
        }
        r
    }

    /// Number of peers.
    pub fn len(&self) -> (n: usize)
        ensures
            n == self@.len(),
            unique_addresses(self@),
    {
        proof {
            use_type_invariant(self);
        }
        self.nodes.len()
    }

    /// The peer at index `i`.
    pub fn get(&self, i: usize) -> (n: &Node)
        requires
            i < self@.len(),
        ensures
            n@ == self@[i as int],
    {
        &self.nodes[i]
    }

    /// Index of the peer at `ip` and `port`.
    pub fn position(&self, ip: Ipv4, port: u16) -> (r: Option<usize>)
        ensures
            match r {
                Some(i) => i == position(self@, ip, port) && i < self@.len(),
                None => position(self@, ip, port) == self@.len(),
            },
            r is Some <==> has_address(self@, ip, port),
    {
        let mut i: usize = 0;
        while i < self.nodes.len()
            invariant
                i <= self.nodes.len(),
                forall|j: int| 0 <= j < i ==> !is_at(#[trigger] self@[j], ip, port),
            decreases self.nodes.len() - i,
        {
            if self.nodes[i].ip == ip && self.nodes[i].port == port {
                proof {
                    assert(is_at(self@[i as int], ip, port));
                    lemma_position(self@, ip, port);
                }
                return Some(i);
            }
            i += 1;
        }
        proof {
            lemma_position(self@, ip, port);
        }
        None
    }

    /// The counter of the peer at `ip` and `port`, or nothing where it is
    /// unknown.
    pub fn prior_comms(&self, ip: Ipv4, port: u16) -> (r: Option<u16>)
        ensures
            r is Some <==> has_address(self@, ip, port),
            r matches Some(count) ==> count == prior_comms_of(self@, ip, port),
    {
        match self.position(ip, port) {
            Some(i) => Some(self.nodes[i].prior_communications),
            None => None,
        }
    }

    /// Whether a peer has the socket address `address`, written `ip:port`.
    pub fn contains(&self, address: &str) -> (r: bool)
        ensures
            r == exists|i: int| 0 <= i < self@.len() && (#[trigger] self@[i]).address() == address@,
    {
        let mut i: usize = 0;
        while i < self.nodes.len()
            invariant
                i <= self.nodes.len(),
                forall|j: int| 0 <= j < i ==> (#[trigger] self@[j]).address() != address@,
            decreases self.nodes.len() - i,
        {
            if self.nodes[i].has_same_address(address) {
                proof {
                    assert(self@[i as int].address() == address@);
                }
                return true;
            }
            i += 1;
        }
        false
    }

    /// Adds a peer whose address is not known yet.
    fn push_new(&mut self, node: Node)
        requires
            !has_address(old(self)@, node.ip, node.port),
        ensures
            final(self)@ == old(self)@.push(node@),
            unique_addresses(final(self)@),
    {
        proof {
            use_type_invariant(&*self);
        }
        let ghost before = self@;
        let ghost stored = node@;
        let mut nodes: Vec<Node> = Vec::new();
        proof {
            assert(unique_addresses(node_views(nodes@)));
        }
        std::mem::swap(&mut self.nodes, &mut nodes);
        nodes.push(node);
        proof {
            assert(node_views(nodes@) =~= before.push(stored));
            lemma_push_unique(before, stored);
        }
        self.nodes = nodes;
    }

    /// Records an exchange with `node` and gives the counter that the
    /// registry now holds for it.
    pub fn upsert(&mut self, node: Node) -> (count: u16)
        ensures
            final(self)@ == upserted(old(self)@, node@),
            unique_addresses(final(self)@),
            count == final(self)@[position(old(self)@, node.ip, node.port)].prior_communications,
    {
        proof {
            use_type_invariant(&*self);
            lemma_position(self@, node.ip, node.port);
        }
        let ghost before = self@;
        let mut node = node;
        match self.position(node.ip, node.port) {
            Some(i) => {
                let earlier = self.nodes[i].prior_communications;
                let count: u16 = if earlier < u16::MAX {
                    earlier + 1
                } else {
                    earlier
                };
                node.prior_communications = count;
                let ghost stored = node@;
                let mut nodes: Vec<Node> = Vec::new();
                proof {
                    assert(unique_addresses(node_views(nodes@)));
                }
                std::mem::swap(&mut self.nodes, &mut nodes);
                nodes.set(i, node);
                proof {
                    assert(node_views(nodes@) =~= before.update(i as int, stored));
                    lemma_update_unique(before, i as int, stored);
                }
                self.nodes = nodes;
                count
            },
            None => {
                node.prior_communications = 0;
                self.push_new(node);
                0
            },
        }
    }

    /// Adds `node` unless its address is known, and says whether it was
    /// added.
    pub fn insert_if_absent(&mut self, node: Node) -> (added: bool)
        ensures
            final(self)@ == inserted(old(self)@, node@),
            unique_addresses(final(self)@),
            added == !has_address(old(self)@, node.ip, node.port),
    {
        proof {
            use_type_invariant(&*self);
        }
        let ghost before = self@;
        match self.position(node.ip, node.port) {
            Some(_) => false,
            None => {
                self.push_new(node);
                true
            },
        }
    }

    /// Adds the peers of `incoming` that are not known yet, but for one at
    /// the node's own address `own`.
    pub fn merge(&mut self, incoming: &Vec<Node>, own: Option<(Ipv4, u16)>)
        ensures
            final(self)@ == merged(old(self)@, node_views(incoming@), own),
            unique_addresses(final(self)@),
    {
        proof {
            use_type_invariant(&*self);
        }
        let ghost all = node_views(incoming@);
        let mut i: usize = 0;
        proof {
            assert(all.take(0) =~= Seq::<NodeView>::empty());
        }
        while i < incoming.len()
            invariant
                i <= incoming.len(),
                all == node_views(incoming@),
                self@ == merged(old(self)@, all.take(i as int), own),
                unique_addresses(self@),
            decreases incoming.len() - i,
        {
            let n = &incoming[i];
            proof {
                assert(all.take(i + 1).drop_last() =~= all.take(i as int));
                assert(all.take(i + 1).last() == n@);
            }
            let is_own = match own {
                Some((ip, port)) => n.ip == ip && n.port == port,
                None => false,
            };
            if !is_own {
                self.insert_if_absent(n.clone());
            }
            i += 1;
        }
        proof {
            assert(all.take(incoming.len() as int) =~= all);
        }
    }

    /// A copy of the peers, for use while the registry itself is free to
    /// change.
    pub fn snapshot(&self) -> (peers: Vec<Node>)
        ensures
            node_views(peers@) == self@,
            unique_addresses(self@),
    {
        proof {
            use_type_invariant(self);
        }
        let mut peers: Vec<Node> = Vec::new();
        let mut i: usize = 0;
        while i < self.nodes.len()
            invariant
                i <= self.nodes.len(),
                peers.len() == i,
                node_views(peers@) == self@.take(i as int),
            decreases self.nodes.len() - i,
        {
            let ghost before = peers@;
            peers.push(self.nodes[i].clone());
            proof {
                assert forall|k: int| 0 <= k < i + 1 implies node_views(peers@)[k] == self@[k] by {
                    if k < i {
                        assert(node_views(before)[k] == self@.take(i as int)[k]);
                    }
                }
                assert(node_views(peers@) =~= self@.take(i + 1));
            }
            i += 1;
        }
        proof {
            assert(self@.take(self@.len() as int) =~= self@);
        }
        peers
    }
}

/// Replacing an entry by one of the same address keeps addresses unique.
pub proof fn lemma_update_unique(s: Seq<NodeView>, i: int, n: NodeView)
    requires
        unique_addresses(s),
        0 <= i < s.len(),
        s[i].same_address(n),
    ensures
        unique_addresses(s.update(i, n)),
{
    let t = s.update(i, n);
    assert forall|a: int, b: int| 0 <= a < b < t.len() implies !(#[trigger] t[a]).same_address(
        #[trigger] t[b],
    ) by {
        assert(!s[a].same_address(s[b]));
    }
}

/// Adding an entry whose address is new keeps addresses unique.
pub proof fn lemma_push_unique(s: Seq<NodeView>, n: NodeView)
    requires
        unique_addresses(s),
        !has_address(s, n.ip, n.port),
    ensures
        unique_addresses(s.push(n)),
{
    let t = s.push(n);
    assert forall|a: int, b: int| 0 <= a < b < t.len() implies !(#[trigger] t[a]).same_address(
        #[trigger] t[b],
    ) by {
        if b < s.len() {
            assert(!s[a].same_address(s[b]));
        } else {
            assert(!is_at(s[a], n.ip, n.port));
        }
    }
}

/// An exchange with a peer keeps the addresses of the registry unique.
pub proof fn lemma_upserted_unique(s: Seq<NodeView>, n: NodeView)
    requires
        unique_addresses(s),
    ensures
        unique_addresses(upserted(s, n)),
{
    lemma_position(s, n.ip, n.port);
    let p = position(s, n.ip, n.port);
    if 0 <= p < s.len() {
        lemma_update_unique(s, p, exchanged(n, s[p].prior_communications));
    } else {
        lemma_push_unique(s, first_met(n));
    }
}

/// Hearing of peers changes no entry that the registry holds: what it
/// held stays in place, names and counters included.
pub proof fn lemma_merged_prefix(s: Seq<NodeView>, incoming: Seq<NodeView>, own: Option<(Ipv4, u16)>)
    ensures
        s.is_prefix_of(merged(s, incoming, own)),
    decreases incoming.len(),
{
    if incoming.len() == 0 {
        assert(s.subrange(0, s.len() as int) =~= s);
    } else {
        lemma_merged_prefix(s, incoming.drop_last(), own);
        let before = merged(s, incoming.drop_last(), own);
        let after = merged(s, incoming, own);
        assert(before.is_prefix_of(after)) by {
            assert(after.subrange(0, before.len() as int) =~= before);
        }
        assert(after.subrange(0, s.len() as int) =~= before.subrange(0, s.len() as int));
    }
}

/// An address that a prefix holds is held by the whole.
pub proof fn lemma_prefix_has_address(s: Seq<NodeView>, t: Seq<NodeView>, ip: Ipv4, port: u16)
    requires
        s.is_prefix_of(t),
        has_address(s, ip, port),
    ensures
        has_address(t, ip, port),
{
    let i = choose|i: int| 0 <= i < s.len() && is_at(#[trigger] s[i], ip, port);
    assert(t.subrange(0, s.len() as int)[i] == t[i]);
    assert(is_at(t[i], ip, port));
}

/// After the registry heard of peers, it holds the address of each of
/// them that is not the node's own.
pub proof fn lemma_merged_has(
    s: Seq<NodeView>,
    incoming: Seq<NodeView>,
    own: Option<(Ipv4, u16)>,
    k: int,
)
    requires
        0 <= k < incoming.len(),
        own != Some((incoming[k].ip, incoming[k].port)),
    ensures
        has_address(merged(s, incoming, own), incoming[k].ip, incoming[k].port),
    decreases incoming.len(),
{
    let before = merged(s, incoming.drop_last(), own);
    let after = merged(s, incoming, own);
    let n = incoming.last();
    let ip = incoming[k].ip;
    let port = incoming[k].port;
    if k == incoming.len() - 1 {
        if !has_address(before, ip, port) {
            assert(after == before.push(n));
            assert(is_at(after[before.len() as int], ip, port));
        }
    } else {
        assert(incoming.drop_last()[k] == incoming[k]);
        lemma_merged_has(s, incoming.drop_last(), own, k);
        assert(before.is_prefix_of(after)) by {
            assert(after.subrange(0, before.len() as int) =~= before);
        }
        lemma_prefix_has_address(before, after, ip, port);
    }
}

/// Hearing of peers keeps the addresses of the registry unique.
pub proof fn lemma_merged_unique(s: Seq<NodeView>, incoming: Seq<NodeView>, own: Option<(Ipv4, u16)>)
    requires
        unique_addresses(s),
    ensures
        unique_addresses(merged(s, incoming, own)),
    decreases incoming.len(),
{
    if incoming.len() > 0 {
        lemma_merged_unique(s, incoming.drop_last(), own);
        let before = merged(s, incoming.drop_last(), own);
        let n = incoming.last();
        if own != Some((n.ip, n.port)) && !has_address(before, n.ip, n.port) {
            lemma_push_unique(before, n);
        }
    }
}

/// Peers with addresses that are unique, among themselves and against the
/// registry, are all added, in their order.
pub proof fn lemma_merged_all(s: Seq<NodeView>, incoming: Seq<NodeView>)
    requires
        unique_addresses(s + incoming),
    ensures
        merged(s, incoming, None) == s + incoming,
    decreases incoming.len(),
{
    if incoming.len() == 0 {
        assert(s + incoming =~= s);
    } else {
        let all = s + incoming;
        let shorter = s + incoming.drop_last();
        assert forall|i: int, j: int| 0 <= i < j < shorter.len() implies !(
        #[trigger] shorter[i]).same_address(#[trigger] shorter[j]) by {
            assert(shorter[i] == all[i] && shorter[j] == all[j]);
        }
        lemma_merged_all(s, incoming.drop_last());
        let n = incoming.last();
        assert(all[all.len() - 1] == n);
        if has_address(shorter, n.ip, n.port) {
            let i = choose|i: int| 0 <= i < shorter.len() && is_at(#[trigger] shorter[i], n.ip, n.port);
            assert(shorter[i] == all[i]);
            assert(all[i].same_address(all[all.len() - 1]));
        }
        assert(shorter.push(n) =~= all);
    }
}

/// An exchange with a peer changes no address and lowers no counter. The
/// entry of a known peer has its counter raised by one, unless the counter
/// holds the largest value that it can; the other entries stay as they
/// are.
pub proof fn lemma_upsert_counts(s: Seq<NodeView>, n: NodeView)
    ensures
        upserted(s, n).len() >= s.len(),
        forall|k: int|
            0 <= k < s.len() ==> (#[trigger] upserted(s, n)[k]).same_address(s[k]) && upserted(
                s,
                n,
            )[k].prior_communications >= s[k].prior_communications,
        forall|k: int|
            0 <= k < s.len() && k != position(s, n.ip, n.port) ==> #[trigger] upserted(s, n)[k]
                == s[k],
        has_address(s, n.ip, n.port) ==> ({
            let p = position(s, n.ip, n.port);
            &&& upserted(s, n)[p].prior_communications == bump(s[p].prior_communications)
            &&& s[p].prior_communications < u16::MAX ==> upserted(s, n)[p].prior_communications
                == s[p].prior_communications + 1
        }),
        !has_address(s, n.ip, n.port) ==> upserted(s, n) == s.push(first_met(n)),
{
    lemma_position(s, n.ip, n.port);
}

} // verus!
