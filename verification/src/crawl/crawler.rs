//! The steps of a crawl that need no network: reading a reply, taking note of
//! a probed validator, and learning keys from quorum sets.

use vstd::prelude::*;
use vstd::string::*;
use crate::crawl::core_types::{
    distinct_identities, has_identity, node_views, targets, targets_of, CrawledNode, Crawler,
    NodeView,
};
use crate::quorum::{node_refs, zero_key, McQuorumSet, NodeId, NodeRef, PublicKey};
use crate::uri::{is_peer_uri, node_reference, node_reference_of, peer_address, peer_uri, peer_uri_of};
use crate::uri_set::UriSet;

verus! {

/// A validator's answer to the request for its latest consensus message.
#[derive(Debug)]
pub struct GetLatestMsgResponse {
    /// The message as it came over the wire; empty if the validator has not
    /// sent one yet.
    pub payload: Vec<u8>,
}

/// The quorum set that a reply carries: none if the payload is empty, else
/// what the wire decoder made of the payload.
pub open spec fn carried_quorum_set(
    payload: Seq<u8>,
    decoded: Option<McQuorumSet>,
) -> Option<McQuorumSet> {
    if payload.len() == 0 {
        None
    } else {
        decoded
    }
}

impl Crawler {
    /// The quorum set of the consensus message in `response`. `decoded` is
    /// what the wire decoder made of the payload, `None` if it could not read
    /// it. An empty payload carries no quorum set, whatever `decoded` holds.
    pub fn deserialise_payload_to_quorum_set(
        response: &GetLatestMsgResponse,
        decoded: Option<McQuorumSet>,
    ) -> (quorum_set: Option<McQuorumSet>)
        ensures
            quorum_set == carried_quorum_set(response.payload@, decoded),
    {
        if response.payload.len() == 0 {
            None
        } else {
            decoded
        }
    }

    /// Whether a validator with this host and port is held.
    pub fn holds(&self, domain: &String, port: u16) -> (held: bool)
        ensures
            held == has_identity(self.nodes(), (domain@, port)),
    {
        let mut i: usize = 0;
        while i < self.mobcoin_nodes.len()
            invariant
                i <= self.mobcoin_nodes@.len(),
                forall|j: int| 0 <= j < i ==> (#[trigger] self.nodes()[j]).identity() != (domain@, port),
            decreases self.mobcoin_nodes@.len() - i,
        {
            let node = &self.mobcoin_nodes[i];
            if node.port == port && node.domain == *domain {
                assert(self.nodes()[i as int].identity() == (domain@, port));
                return true;
            }
            i += 1;
        }
        false
    }

    /// Takes note of a probed validator: `crawled_node` moves from the
    /// addresses that wait to those that were probed; `node` joins the
    /// validators unless one with its host and port is held already; and
    /// every address that its quorum set leads to, nested sets included, and
    /// that has not been probed, waits from now on.
    pub fn handle_discovered_node(&mut self, crawled_node: &String, node: CrawledNode)
        requires
            old(self).wf(),
            peer_address(crawled_node@) == Some(node@.identity()),
        ensures
            final(self).wf(),
            final(self).crawled@ == old(self).crawled@.insert(crawled_node@),
            final(self).to_crawl@ == old(self).to_crawl@.remove(crawled_node@).union(
                targets(node@.quorum_set).difference(final(self).crawled@),
            ),
            final(self).nodes() == if has_identity(old(self).nodes(), node@.identity()) {
                old(self).nodes()
            } else {
                old(self).nodes().push(node@)
            },
            final(self).reachable_nodes == old(self).reachable_nodes,
            final(self).bootstrap_peers == old(self).bootstrap_peers,
            final(self).crawl_duration == old(self).crawl_duration,
            final(self).crawl_time == old(self).crawl_time,
    {
        let ghost pre = *self;
        let ghost added = node@;
        self.to_crawl.remove(crawled_node);
        self.crawled.insert(crawled_node.clone());
        let members = node.quorum_set.nodes();
        if !self.holds(&node.domain, node.port) {
            self.mobcoin_nodes.push(node);
            assert(self.nodes() =~= pre.nodes().push(added));
        }
        enqueue(&mut self.to_crawl, &self.crawled, &members);
        proof {
            lemma_step_keeps_wf(pre, *self, crawled_node@, added);
        }
    }
}

/// Puts every address that `members` lead to and that has not been probed
/// among those that wait.
fn enqueue(to_crawl: &mut UriSet, crawled: &UriSet, members: &Vec<NodeId>)
    requires
        old(to_crawl).wf(),
    ensures
        final(to_crawl).wf(),
        final(to_crawl)@ == old(to_crawl)@.union(
            targets_of(node_refs(members@)).difference(crawled@),
        ),
{
    let ghost refs = node_refs(members@);
    let ghost before = to_crawl@;
    let mut k: usize = 0;
    assert(to_crawl@ =~= before.union(targets_of(refs.take(0)).difference(crawled@)));
    while k < members.len()
        invariant
            k <= members@.len(),
            refs == node_refs(members@),
            to_crawl.wf(),
            to_crawl@ == before.union(targets_of(refs.take(k as int)).difference(crawled@)),
        decreases members@.len() - k,
    {
        let address = peer_uri(members[k].responder_id.as_str());
        assert(address@ == peer_uri_of(refs[k as int].responder_id));
        let ghost reached = targets_of(refs.take(k as int));
        if is_peer_uri(address.as_str()) && !crawled.contains(&address) {
            to_crawl.insert(address);
        }
        k += 1;
        proof {
            let next = targets_of(refs.take(k as int));
            let uri = peer_uri_of(refs[k - 1].responder_id);
            assert forall|x: Seq<char>| next.contains(x) <==> (reached.contains(x) || (x == uri
                && peer_address(uri).is_some())) by {
                if next.contains(x) {
                    let j = choose|j: int|
                        0 <= j < refs.take(k as int).len() && peer_uri_of(
                            #[trigger] refs.take(k as int)[j].responder_id,
                        ) == x;
                    if j < k - 1 {
                        assert(refs.take(k - 1)[j] == refs.take(k as int)[j]);
                    }
                }
                if reached.contains(x) {
                    let j = choose|j: int|
                        0 <= j < refs.take(k - 1).len() && peer_uri_of(
                            #[trigger] refs.take(k - 1)[j].responder_id,
                        ) == x;
                    assert(refs.take(k as int)[j] == refs.take(k - 1)[j]);
                }
                if x == uri && peer_address(uri).is_some() {
                    assert(refs.take(k as int)[k - 1] == refs[k - 1]);
                }
            }
            assert(to_crawl@ =~= before.union(next.difference(crawled@)));
        }
    }
    assert(refs.take(members@.len() as int) =~= refs);
}

/// The step of `handle_discovered_node` keeps a crawl well formed.
proof fn lemma_step_keeps_wf(pre: Crawler, post: Crawler, uri: Seq<char>, node: NodeView)
    requires
        pre.wf(),
        peer_address(uri) == Some(node.identity()),
        post.to_crawl.wf(),
        post.crawled.wf(),
        post.bootstrap_peers == pre.bootstrap_peers,
        post.reachable_nodes == pre.reachable_nodes,
        post.crawled@ == pre.crawled@.insert(uri),
        post.to_crawl@ == pre.to_crawl@.remove(uri).union(
            targets(node.quorum_set).difference(post.crawled@),
        ),
        post.nodes() == if has_identity(pre.nodes(), node.identity()) {
            pre.nodes()
        } else {
            pre.nodes().push(node)
        },
    ensures
        post.wf(),
{
    pre.crawled.lemma_finite();
    assert forall|x: Seq<char>| pre.known(x) implies post.known(x) by {}
    assert forall|i: int| 0 <= i < post.nodes().len() implies post.probed_at(
        #[trigger] post.nodes()[i].identity(),
    ) by {
        if i < pre.nodes().len() {
            assert(post.nodes()[i] == pre.nodes()[i]);
            assert(pre.probed_at(pre.nodes()[i].identity()));
            let w = choose|w: Seq<char>|
                pre.crawled@.contains(w) && #[trigger] peer_address(w) == Some(
                    pre.nodes()[i].identity(),
                );
            assert(post.crawled@.contains(w));
        } else {
            assert(post.crawled@.contains(uri));
        }
    }
    assert forall|i: int| 0 <= i < post.nodes().len() implies post.follows(
        #[trigger] post.nodes()[i].quorum_set,
    ) by {
        if i < pre.nodes().len() {
            assert(post.nodes()[i] == pre.nodes()[i]);
            assert(pre.follows(pre.nodes()[i].quorum_set));
        } else {
            assert(post.nodes()[i] == node);
        }
    }
    assert(distinct_identities(post.nodes())) by {
        if !has_identity(pre.nodes(), node.identity()) {
            assert forall|i: int, j: int|
                0 <= i < post.nodes().len() && 0 <= j < post.nodes().len() && i != j implies (
            #[trigger] post.nodes()[i]).identity() != (#[trigger] post.nodes()[j]).identity() by {
                if i < pre.nodes().len() && j < pre.nodes().len() {
                    assert(pre.nodes()[i].identity() != pre.nodes()[j].identity());
                } else if i < pre.nodes().len() {
                    assert(pre.nodes()[i].identity() != node.identity());
                } else {
                    assert(pre.nodes()[j].identity() != node.identity());
                }
            }
        }
    }
}

/// The key of the first of `members`, from position `from` on, that is
/// crawled under the address `reference`.
pub open spec fn first_key_from(members: Seq<NodeRef>, reference: Seq<char>, from: int) -> Option<
    Seq<u8>,
>
    decreases members.len() - from,
{
    if from < 0 || from >= members.len() {
        None
    } else if peer_uri_of(members[from].responder_id) == reference {
        Some(members[from].public_key)
    } else {
        first_key_from(members, reference, from + 1)
    }
}

/// The address by which other validators refer to `node`.
pub open spec fn reference_of(node: NodeView) -> Seq<char> {
    node_reference_of(node.domain, node.port)
}

/// The key that the quorum sets of the validators from position `from` on,
/// other than validator `i` itself, give for validator `i`: that of the first
/// member, in the first such quorum set, that refers to it.
pub open spec fn key_from_others(nodes: Seq<NodeView>, i: int, from: int) -> Option<Seq<u8>>
    decreases nodes.len() - from,
{
    if from < 0 || from >= nodes.len() {
        None
    } else if from != i && first_key_from(
        nodes[from].quorum_set.nodes(),
        reference_of(nodes[i]),
        0,
    ).is_some() {
        first_key_from(nodes[from].quorum_set.nodes(), reference_of(nodes[i]), 0)
    } else {
        key_from_others(nodes, i, from + 1)
    }
}

/// The key of validator `i` once the quorum sets of the others have been
/// read: a validator whose key is not known takes the first key that another
/// one's quorum set gives for it; any other keeps its key.
pub open spec fn attributed_key(nodes: Seq<NodeView>, i: int) -> Seq<u8> {
    if nodes[i].public_key == zero_key() {
        match key_from_others(nodes, i, 0) {
            Some(key) => key,
            None => nodes[i].public_key,
        }
    } else {
        nodes[i].public_key
    }
}

/// The validators with the keys that the others' quorum sets give them.
pub open spec fn with_keys(nodes: Seq<NodeView>) -> Seq<NodeView> {
    Seq::new(
        nodes.len(),
        |i: int|
            NodeView {
                public_key: attributed_key(nodes, i),
                domain: nodes[i].domain,
                port: nodes[i].port,
                quorum_set: nodes[i].quorum_set,
                online: nodes[i].online,
                latest_block: nodes[i].latest_block,
                network_block_version: nodes[i].network_block_version,
                minimum_fee: nodes[i].minimum_fee,
            },
    )
}

/// The key of the first of `members` that is crawled under `reference`.
fn first_key(members: &Vec<NodeId>, reference: &String) -> (key: Option<PublicKey>)
    ensures
        match key {
            Some(k) => first_key_from(node_refs(members@), reference@, 0) == Some(k@),
            None => first_key_from(node_refs(members@), reference@, 0) is None,
        },
{
    let ghost refs = node_refs(members@);
    let mut k: usize = 0;
    while k < members.len()
        invariant
            k <= members@.len(),
            refs == node_refs(members@),
            first_key_from(refs, reference@, 0) == first_key_from(refs, reference@, k as int),
        decreases members@.len() - k,
    {
        let address = peer_uri(members[k].responder_id.as_str());
        assert(address@ == peer_uri_of(refs[k as int].responder_id));
        if address == *reference {
            assert(refs[k as int].public_key == members@[k as int].public_key@);
            return Some(members[k].public_key);
        }
        k += 1;
    }
    None
}

impl Crawler {
    /// The key that the quorum sets of the other validators give for
    /// validator `i`, if any does.
    fn key_for(&self, i: usize, reference: &String) -> (key: Option<PublicKey>)
        requires
            i < self.mobcoin_nodes@.len(),
            reference@ == reference_of(self.nodes()[i as int]),
        ensures
            match key {
                Some(k) => key_from_others(self.nodes(), i as int, 0) == Some(k@),
                None => key_from_others(self.nodes(), i as int, 0) is None,
            },
    {
        let mut j: usize = 0;
        while j < self.mobcoin_nodes.len()
            invariant
                j <= self.mobcoin_nodes@.len(),
                i < self.mobcoin_nodes@.len(),
                reference@ == reference_of(self.nodes()[i as int]),
                key_from_others(self.nodes(), i as int, 0) == key_from_others(
                    self.nodes(),
                    i as int,
                    j as int,
                ),
            decreases self.mobcoin_nodes@.len() - j,
        {
            if j != i {
                let members = self.mobcoin_nodes[j].quorum_set.nodes();
                assert(node_refs(members@) == self.nodes()[j as int].quorum_set.nodes());
                let found = first_key(&members, reference);
                if found.is_some() {
                    return found;
                }
            }
            j += 1;
        }
        None
    }

    /// The validators with their keys filled in. A validator is told its key
    /// by the others: where a member of another validator's quorum set,
    /// nested sets included, is crawled under this validator's address, its
    /// key is taken. The first such member counts; a validator that no other
    /// names keeps the all-zero key.
    pub fn get_public_keys_from_quorum_sets(&self) -> (nodes: Vec<CrawledNode>)
        ensures
            node_views(nodes@) == with_keys(self.nodes()),
    {
        let mut nodes: Vec<CrawledNode> = Vec::new();
        let mut i: usize = 0;
        while i < self.mobcoin_nodes.len()
            invariant
                i <= self.mobcoin_nodes@.len(),
                nodes@.len() == i,
                forall|j: int| 0 <= j < i ==> (#[trigger] nodes@[j])@ == with_keys(self.nodes())[j],
            decreases self.mobcoin_nodes@.len() - i,
        {
            let mut node = self.mobcoin_nodes[i].clone();
            assert(node@ == self.nodes()[i as int]);
            if node.public_key.is_unknown() {
                let reference = node_reference(node.domain.as_str(), node.port);
                match self.key_for(i, &reference) {
                    Some(key) => {
                        node.public_key = key;
                    },
                    None => {},
                }
            }
            assert(node@ == with_keys(self.nodes())[i as int]);
            nodes.push(node);
            i += 1;
        }
        assert(node_views(nodes@) =~= with_keys(self.nodes()));
        nodes
    }
}

/// A key found among `members` is the key of one of them, and that one is
/// crawled under `reference`.
pub proof fn lemma_first_key_is_a_members(members: Seq<NodeRef>, reference: Seq<char>, from: int)
    requires
        0 <= from,
        first_key_from(members, reference, from).is_some(),
    ensures
        exists|k: int|
            from <= k < members.len() && peer_uri_of(#[trigger] members[k].responder_id)
                == reference && members[k].public_key == first_key_from(
                members,
                reference,
                from,
            ).unwrap(),
    decreases members.len() - from,
{
    if peer_uri_of(members[from].responder_id) != reference {
        lemma_first_key_is_a_members(members, reference, from + 1);
    }
}

/// Whether member `k` of the quorum set of validator `j`, counted through
/// nested sets, refers to validator `i` and carries `key`.
pub open spec fn names_with_key(nodes: Seq<NodeView>, j: int, k: int, i: int, key: Seq<u8>) -> bool {
    &&& 0 <= j < nodes.len()
    &&& j != i
    &&& 0 <= k < nodes[j].quorum_set.nodes().len()
    &&& peer_uri_of(nodes[j].quorum_set.nodes()[k].responder_id) == reference_of(nodes[i])
    &&& nodes[j].quorum_set.nodes()[k].public_key == key
}

/// A key taken from the others is in the quorum set of one of them.
pub proof fn lemma_key_from_others_is_named(nodes: Seq<NodeView>, i: int, from: int)
    requires
        0 <= from,
        key_from_others(nodes, i, from).is_some(),
    ensures
        exists|j: int, k: int| #[trigger]
            names_with_key(nodes, j, k, i, key_from_others(nodes, i, from).unwrap()),
    decreases nodes.len() - from,
{
    let found = first_key_from(nodes[from].quorum_set.nodes(), reference_of(nodes[i]), 0);
    if from != i && found.is_some() {
        lemma_first_key_is_a_members(nodes[from].quorum_set.nodes(), reference_of(nodes[i]), 0);
        let k = choose|k: int|
            0 <= k < nodes[from].quorum_set.nodes().len() && peer_uri_of(
                #[trigger] nodes[from].quorum_set.nodes()[k].responder_id,
            ) == reference_of(nodes[i]) && nodes[from].quorum_set.nodes()[k].public_key
                == found.unwrap();
        assert(names_with_key(nodes, from, k, i, key_from_others(nodes, i, from).unwrap()));
    } else {
        lemma_key_from_others_is_named(nodes, i, from + 1);
    }
}

/// Key attribution is sound: a validator whose key was not known and that
/// has a key afterwards got it from another validator, whose quorum set holds
/// a member that is crawled under this validator's address and carries that
/// key. Attribution changes nothing but keys.
pub proof fn lemma_key_attribution_sound(nodes: Seq<NodeView>, i: int)
    requires
        0 <= i < nodes.len(),
        nodes[i].public_key == zero_key(),
        with_keys(nodes)[i].public_key != zero_key(),
    ensures
        exists|j: int, k: int| #[trigger]
            names_with_key(with_keys(nodes), j, k, i, with_keys(nodes)[i].public_key),
{
    lemma_key_from_others_is_named(nodes, i, 0);
    let (j, k) = choose|j: int, k: int| #[trigger]
        names_with_key(nodes, j, k, i, key_from_others(nodes, i, 0).unwrap());
    assert(names_with_key(with_keys(nodes), j, k, i, with_keys(nodes)[i].public_key));
}

} // verus!
