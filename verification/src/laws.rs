//! What holds of every crawl, whatever the network answers and in whatever
//! order the addresses are probed.

use vstd::prelude::*;
use crate::crawl::core_types::{has_identity, targets, Crawler, NodeView};
use crate::crawl::net::{
    empty_quorum_set, lemma_probe_step, probe_recorded, probes_of, reply_node, reply_quorum_set,
    ProbeOutcome, ProbeReply,
};
use crate::io::report::{
    base64_standard, network_latest_block, network_minimum_fee, reported, reported_inner,
    reported_validators, Verdict,
};
use crate::quorum::{
    direct_nodes, flat_nodes, lemma_nested_nodes_are_named, nested_sets, MemberView, QuorumSetView,
};
use crate::uri::{peer_address, peer_uri_of};
use crate::uri_set::texts;

verus! {

/// No address is probed twice: the probed addresses hold each address once,
/// none of them waits to be probed, and recording a probe of one of them
/// changes nothing.
pub proof fn lemma_no_double_probe(
    crawler: Crawler,
    peer: Seq<char>,
    outcome: ProbeOutcome,
    after: Crawler,
)
    requires
        crawler.wf(),
        crawler.crawled@.contains(peer),
        probe_recorded(crawler, peer, outcome, after),
    ensures
        texts(crawler.crawled.items@).no_duplicates(),
        crawler.to_crawl@.disjoint(crawler.crawled@),
        after.crawled@ == crawler.crawled@,
        after.to_crawl@ == crawler.to_crawl@,
        after.nodes() == crawler.nodes(),
        after.reachable_nodes == crawler.reachable_nodes,
{
}

/// Closure: once no address waits, every member of every quorum set of every
/// validator found, nested sets included, whose responder identifier names a
/// peer has been probed, under its own address and so at its host and port.
pub proof fn lemma_closed_at_rest(crawler: Crawler, i: int, k: int)
    requires
        crawler.wf(),
        crawler.to_crawl@ == Set::<Seq<char>>::empty(),
        0 <= i < crawler.nodes().len(),
        0 <= k < crawler.nodes()[i].quorum_set.nodes().len(),
        peer_address(peer_uri_of(crawler.nodes()[i].quorum_set.nodes()[k].responder_id)).is_some(),
    ensures
        crawler.crawled@.contains(
            peer_uri_of(crawler.nodes()[i].quorum_set.nodes()[k].responder_id),
        ),
        crawler.probed_at(
            peer_address(
                peer_uri_of(crawler.nodes()[i].quorum_set.nodes()[k].responder_id),
            ).unwrap(),
        ),
{
    let quorum_set = crawler.nodes()[i].quorum_set;
    let uri = peer_uri_of(quorum_set.nodes()[k].responder_id);
    assert(crawler.follows(quorum_set));
    assert(targets(quorum_set).contains(uri));
    assert(crawler.known(uri));
}

/// Monotonicity: a recorded probe takes nothing away. Every address probed
/// before is probed after, and the validators found before are the first of
/// those found after, unchanged.
pub proof fn lemma_nothing_is_forgotten(
    before: Crawler,
    peer: Seq<char>,
    outcome: ProbeOutcome,
    after: Crawler,
)
    requires
        before.wf(),
        probe_recorded(before, peer, outcome, after),
    ensures
        before.crawled@.subset_of(after.crawled@),
        before.nodes().is_prefix_of(after.nodes()),
{
    lemma_probe_step(before, peer, outcome, after);
}

/// A network as a crawl meets it: how the probe of each address ends.
pub type Network = spec_fn(Seq<char>) -> ProbeOutcome;

/// The validator that the network shows at `uri`, if a channel to it can be
/// set up.
pub open spec fn node_at(net: Network, uri: Seq<char>) -> Option<NodeView> {
    match net(uri) {
        ProbeOutcome::ChannelFailed => None,
        ProbeOutcome::Replied(reply) => Some(reply_node(uri, reply)),
    }
}

/// The addresses that the validator at `uri` leads to.
pub open spec fn leads_to(net: Network, uri: Seq<char>) -> Set<Seq<char>> {
    match net(uri) {
        ProbeOutcome::ChannelFailed => Set::empty(),
        ProbeOutcome::Replied(reply) => targets(reply_quorum_set(reply)),
    }
}

/// Whether `uri` is reached from the bootstrap addresses in at most `steps`
/// steps, each from a validator to an address that its quorum set leads to.
pub open spec fn reached_in(net: Network, bootstrap: Set<Seq<char>>, uri: Seq<char>, steps: nat) -> bool
    decreases steps,
{
    if steps == 0 {
        bootstrap.contains(uri) && peer_address(uri).is_some()
    } else {
        reached_in(net, bootstrap, uri, (steps - 1) as nat) || exists|via: Seq<char>|
            reached_in(net, bootstrap, via, (steps - 1) as nat) && #[trigger] leads_to(
                net,
                via,
            ).contains(uri)
    }
}

/// Whether `uri` is reached from the bootstrap addresses.
pub open spec fn reached(net: Network, bootstrap: Set<Seq<char>>, uri: Seq<char>) -> bool {
    exists|steps: nat| reached_in(net, bootstrap, uri, steps)
}

/// Whether the network showed `node` at an address that was probed.
pub open spec fn seen(crawler: Crawler, net: Network, node: NodeView) -> bool {
    exists|uri: Seq<char>| crawler.crawled@.contains(uri) && #[trigger] node_at(net, uri) == Some(node)
}

/// Whether a crawl holds what the network shows and nothing else: every
/// address it knows is reached from the bootstrap addresses; what the probed
/// addresses lead to is known; every validator held was seen at a probed
/// address; and for every validator seen at a probed address one with its
/// host and port is held.
pub open spec fn faithful(crawler: Crawler, net: Network) -> bool {
    &&& forall|uri: Seq<char>| #[trigger]
        crawler.known(uri) ==> reached(net, crawler.bootstrap_peers@, uri)
    &&& forall|uri: Seq<char>, target: Seq<char>|
        crawler.crawled@.contains(uri) && #[trigger] leads_to(net, uri).contains(target)
            ==> crawler.known(target)
    &&& forall|i: int| 0 <= i < crawler.nodes().len() ==> seen(crawler, net, #[trigger] crawler.nodes()[i])
    &&& forall|uri: Seq<char>|
        crawler.crawled@.contains(uri) && (#[trigger] node_at(net, uri)).is_some() ==> has_identity(
            crawler.nodes(),
            node_at(net, uri).unwrap().identity(),
        )
}

/// Whether a crawl has just been set up: the bootstrap addresses that name a
/// peer wait, nothing was probed and nothing found.
pub open spec fn fresh(crawler: Crawler) -> bool {
    &&& crawler.wf()
    &&& crawler.to_crawl@ == crawler.bootstrap_peers@.filter(
        |uri: Seq<char>| peer_address(uri).is_some(),
    )
    &&& crawler.crawled@ == Set::<Seq<char>>::empty()
    &&& crawler.nodes().len() == 0
    &&& crawler.reachable_nodes == 0
}

/// A crawl that has just been set up is faithful to any network.
pub proof fn lemma_fresh_is_faithful(crawler: Crawler, net: Network)
    requires
        fresh(crawler),
    ensures
        faithful(crawler, net),
        crawler.accounting_exact(),
        crawler.probed_once_each(),
{
    assert forall|uri: Seq<char>| #[trigger] crawler.known(uri) implies reached(
        net,
        crawler.bootstrap_peers@,
        uri,
    ) by {
        assert(reached_in(net, crawler.bootstrap_peers@, uri, 0));
    }
}

/// Recording what the network answers keeps a crawl faithful to it.
pub proof fn lemma_step_is_faithful(before: Crawler, net: Network, peer: Seq<char>, after: Crawler)
    requires
        before.wf(),
        after.wf(),
        faithful(before, net),
        probe_recorded(before, peer, net(peer), after),
    ensures
        faithful(after, net),
{
    if before.to_crawl@.contains(peer) {
        let bootstrap = before.bootstrap_peers@;
        assert(after.bootstrap_peers@ == bootstrap);
        assert forall|uri: Seq<char>| before.known(uri) implies after.known(uri) by {}
        assert forall|uri: Seq<char>| #[trigger] after.known(uri) implies reached(net, bootstrap, uri) by {
            if !before.known(uri) {
                assert(leads_to(net, peer).contains(uri));
                assert(before.known(peer));
                let steps = choose|steps: nat| reached_in(net, bootstrap, peer, steps);
                assert(reached_in(net, bootstrap, uri, steps + 1));
            }
        }
        assert forall|uri: Seq<char>, target: Seq<char>|
            after.crawled@.contains(uri) && #[trigger] leads_to(net, uri).contains(
                target,
            ) implies after.known(target) by {
            if uri != peer {
                assert(before.known(target));
            }
        }
        assert forall|i: int| 0 <= i < after.nodes().len() implies seen(
            after,
            net,
            #[trigger] after.nodes()[i],
        ) by {
            if i < before.nodes().len() {
                assert(after.nodes()[i] == before.nodes()[i]);
                assert(seen(before, net, before.nodes()[i]));
                let at = choose|at: Seq<char>|
                    before.crawled@.contains(at) && #[trigger] node_at(net, at) == Some(before.nodes()[i]);
                assert(after.crawled@.contains(at));
            } else {
                assert(after.crawled@.contains(peer));
                assert(node_at(net, peer) == Some(after.nodes()[i]));
            }
        }
        assert forall|uri: Seq<char>|
            after.crawled@.contains(uri) && (#[trigger] node_at(net, uri)).is_some() implies has_identity(
            after.nodes(),
            node_at(net, uri).unwrap().identity(),
        ) by {
            let identity = node_at(net, uri).unwrap().identity();
            if uri != peer {
                assert(has_identity(before.nodes(), identity));
                let i = choose|i: int|
                    0 <= i < before.nodes().len() && #[trigger] before.nodes()[i].identity() == identity;
                assert(after.nodes()[i].identity() == identity);
            } else if has_identity(before.nodes(), identity) {
            } else {
                assert(after.nodes()[before.nodes().len() as int].identity() == identity);
            }
        }
    } else {
        assert forall|uri: Seq<char>| after.known(uri) == before.known(uri) by {}
    }
}

/// An address that is reached from the bootstrap addresses has been probed
/// once a faithful crawl has come to rest.
pub proof fn lemma_reached_is_probed(
    crawler: Crawler,
    net: Network,
    uri: Seq<char>,
    steps: nat,
)
    requires
        crawler.wf(),
        faithful(crawler, net),
        crawler.to_crawl@ == Set::<Seq<char>>::empty(),
        reached_in(net, crawler.bootstrap_peers@, uri, steps),
    ensures
        crawler.crawled@.contains(uri),
    decreases steps,
{
    if steps == 0 {
        assert(crawler.bootstrap_peers@.contains(uri));
        assert(crawler.known(uri));
    } else if reached_in(net, crawler.bootstrap_peers@, uri, (steps - 1) as nat) {
        lemma_reached_is_probed(crawler, net, uri, (steps - 1) as nat);
    } else {
        let via = choose|via: Seq<char>|
            reached_in(net, crawler.bootstrap_peers@, via, (steps - 1) as nat) && #[trigger] leads_to(
                net,
                via,
            ).contains(uri);
        lemma_reached_is_probed(crawler, net, via, (steps - 1) as nat);
        assert(crawler.known(uri));
    }
}

/// A validator that a faithful crawl holds is held by every other crawl of
/// the same network that probed the same addresses, none of them twice under
/// two names.
proof fn lemma_held_by_the_other(a: Crawler, b: Crawler, net: Network, i: int)
    requires
        a.wf(),
        b.wf(),
        faithful(a, net),
        faithful(b, net),
        a.crawled@ == b.crawled@,
        a.probed_once_each(),
        0 <= i < a.nodes().len(),
    ensures
        b.nodes().contains(a.nodes()[i]),
{
    let node = a.nodes()[i];
    assert(seen(a, net, node));
    let uri = choose|uri: Seq<char>| a.crawled@.contains(uri) && #[trigger] node_at(net, uri) == Some(node);
    assert(b.crawled@.contains(uri));
    assert(has_identity(b.nodes(), node.identity()));
    let j = choose|j: int| 0 <= j < b.nodes().len() && #[trigger] b.nodes()[j].identity() == node.identity();
    assert(seen(b, net, b.nodes()[j]));
    let other = choose|other: Seq<char>|
        b.crawled@.contains(other) && #[trigger] node_at(net, other) == Some(b.nodes()[j]);
    assert(peer_address(uri).is_some());
    assert(peer_address(other).is_some());
    assert(peer_address(uri) == Some(node.identity()));
    assert(peer_address(other) == Some(b.nodes()[j].identity()));
    if uri != other {
        assert(a.crawled@.contains(other));
        assert(peer_address(uri) != peer_address(other));
    }
    assert(b.nodes()[j] == node);
}

/// Determinism: two crawls that started from the same bootstrap addresses,
/// are faithful to the same network and have come to rest have probed the
/// same addresses. If no two of these addresses name the same host and port,
/// they have found the same validators.
pub proof fn lemma_same_final_set(a: Crawler, b: Crawler, net: Network)
    requires
        a.wf(),
        b.wf(),
        faithful(a, net),
        faithful(b, net),
        a.bootstrap_peers@ == b.bootstrap_peers@,
        a.to_crawl@ == Set::<Seq<char>>::empty(),
        b.to_crawl@ == Set::<Seq<char>>::empty(),
    ensures
        a.crawled@ == b.crawled@,
        a.probed_once_each() ==> a.nodes().to_set() == b.nodes().to_set(),
{
    assert forall|uri: Seq<char>| a.crawled@.contains(uri) implies b.crawled@.contains(uri) by {
        assert(a.known(uri));
        let steps = choose|steps: nat| reached_in(net, a.bootstrap_peers@, uri, steps);
        lemma_reached_is_probed(b, net, uri, steps);
    }
    assert forall|uri: Seq<char>| b.crawled@.contains(uri) implies a.crawled@.contains(uri) by {
        assert(b.known(uri));
        let steps = choose|steps: nat| reached_in(net, b.bootstrap_peers@, uri, steps);
        lemma_reached_is_probed(a, net, uri, steps);
    }
    assert(a.crawled@ =~= b.crawled@);
    if a.probed_once_each() {
        assert(b.probed_once_each());
        assert forall|node: NodeView| a.nodes().to_set().contains(node) implies b.nodes().to_set().contains(
            node,
        ) by {
            let i = choose|i: int| 0 <= i < a.nodes().len() && a.nodes()[i] == node;
            lemma_held_by_the_other(a, b, net, i);
        }
        assert forall|node: NodeView| b.nodes().to_set().contains(node) implies a.nodes().to_set().contains(
            node,
        ) by {
            let i = choose|i: int| 0 <= i < b.nodes().len() && b.nodes()[i] == node;
            lemma_held_by_the_other(b, a, net, i);
        }
        assert(a.nodes().to_set() =~= b.nodes().to_set());
    }
}

/// Whether `states` are the states of a crawl of `net` that probes `peers`
/// in this order: it starts with a crawl that has just been set up, and each
/// state but the first is the one before it with the probe of the next
/// address recorded as the network answers it.
pub open spec fn crawl_of(net: Network, states: Seq<Crawler>, peers: Seq<Seq<char>>) -> bool {
    &&& states.len() == peers.len() + 1
    &&& fresh(states[0])
    &&& forall|k: int| 0 <= k < states.len() ==> (#[trigger] states[k]).wf()
    &&& forall|k: int|
        0 <= k < peers.len() ==> probe_recorded(
            states[k],
            #[trigger] peers[k],
            net(peers[k]),
            states[k + 1],
        )
}

/// Every state of a crawl is faithful to the network, has the bootstrap
/// addresses it started with, and counts as reachable exactly the validators
/// held that were online unless two probed addresses name the same host and
/// port.
pub proof fn lemma_crawl_is_faithful(net: Network, states: Seq<Crawler>, peers: Seq<Seq<char>>, k: int)
    requires
        crawl_of(net, states, peers),
        0 <= k < states.len(),
    ensures
        faithful(states[k], net),
        states[k].bootstrap_peers@ == states[0].bootstrap_peers@,
        states[k].accounting_exact() || !states[k].probed_once_each(),
    decreases k,
{
    if k == 0 {
        lemma_fresh_is_faithful(states[0], net);
    } else {
        lemma_crawl_is_faithful(net, states, peers, k - 1);
        assert(probe_recorded(states[k - 1], peers[k - 1], net(peers[k - 1]), states[k]));
        lemma_step_is_faithful(states[k - 1], net, peers[k - 1], states[k]);
        lemma_probe_step(states[k - 1], peers[k - 1], net(peers[k - 1]), states[k]);
    }
}

/// Determinism of the final set: two crawls of the same network from the
/// same bootstrap addresses, in whatever orders they probe, have probed the
/// same addresses when both have come to rest. If no two of these addresses
/// name the same host and port, they have found the same validators.
pub proof fn lemma_order_does_not_matter(
    net: Network,
    first: Seq<Crawler>,
    first_order: Seq<Seq<char>>,
    second: Seq<Crawler>,
    second_order: Seq<Seq<char>>,
)
    requires
        crawl_of(net, first, first_order),
        crawl_of(net, second, second_order),
        first[0].bootstrap_peers@ == second[0].bootstrap_peers@,
        first.last().to_crawl@ == Set::<Seq<char>>::empty(),
        second.last().to_crawl@ == Set::<Seq<char>>::empty(),
    ensures
        first.last().crawled@ == second.last().crawled@,
        first.last().probed_once_each() ==> first.last().nodes().to_set()
            == second.last().nodes().to_set(),
{
    lemma_crawl_is_faithful(net, first, first_order, first.len() - 1);
    lemma_crawl_is_faithful(net, second, second_order, second.len() - 1);
    lemma_same_final_set(first.last(), second.last(), net);
}

/// Reachability accounting: at every state of a crawl in which no two probed
/// addresses name the same host and port, the count of reachable validators
/// is the number of validators held that were online.
pub proof fn lemma_reachability_accounting(
    net: Network,
    states: Seq<Crawler>,
    peers: Seq<Seq<char>>,
    k: int,
)
    requires
        crawl_of(net, states, peers),
        0 <= k < states.len(),
        states[k].probed_once_each(),
    ensures
        states[k].accounting_exact(),
{
    lemma_crawl_is_faithful(net, states, peers, k);
}

/// The probes that `crawl_network` makes are a crawl of the network, if the
/// crawl had just been set up and `probe` ends on every address as the
/// network says.
pub proof fn lemma_probes_are_a_crawl<F: Fn(&String) -> ProbeOutcome>(
    probe: &F,
    net: Network,
    states: Seq<Crawler>,
    peers: Seq<String>,
    outcomes: Seq<ProbeOutcome>,
)
    requires
        probes_of(probe, states, peers, outcomes),
        fresh(states[0]),
        forall|peer: &String, outcome: ProbeOutcome| #[trigger]
            call_ensures(probe, (peer,), outcome) ==> outcome == net(peer@),
    ensures
        crawl_of(net, states, texts(peers)),
{
    let uris = texts(peers);
    assert forall|k: int| 0 <= k < uris.len() implies probe_recorded(
        states[k],
        #[trigger] uris[k],
        net(uris[k]),
        states[k + 1],
    ) by {
        assert(uris[k] == peers[k]@);
        assert(call_ensures(probe, (&peers[k],), outcomes[k]));
        assert(outcomes[k] == net(peers[k]@));
    }
}

/// A crawl without a bootstrap address that names a peer is at rest as it
/// is set up: nothing waits, nothing was found, no validator counts as
/// reachable, there is no agreement on the latest block, and the minimum fee
/// is 0.
pub proof fn lemma_nothing_to_crawl(crawler: Crawler)
    requires
        fresh(crawler),
        forall|uri: Seq<char>| #[trigger] crawler.bootstrap_peers@.contains(uri) ==> peer_address(uri).is_none(),
    ensures
        crawler.to_crawl@ == Set::<Seq<char>>::empty(),
        crawler.nodes() == Seq::<NodeView>::empty(),
        crawler.reachable_nodes == 0,
        network_latest_block(crawler.bootstrap_peers@, crawler.nodes()) == Verdict::Disagreement(
            "no nodes found"@,
        ),
        network_minimum_fee(crawler.nodes()) == 0,
{
    assert(crawler.to_crawl@ =~= Set::<Seq<char>>::empty());
    assert(crawler.nodes() =~= Seq::<NodeView>::empty());
}

/// An address that names no peer is passed over: it never waits and is never
/// probed.
pub proof fn lemma_rejected_is_never_probed(crawler: Crawler, uri: Seq<char>)
    requires
        crawler.wf(),
        peer_address(uri).is_none(),
    ensures
        !crawler.to_crawl@.contains(uri),
        !crawler.crawled@.contains(uri),
{
}

/// A validator that answers with an empty payload is online, has the empty
/// quorum set, and leads to no address.
pub proof fn lemma_empty_payload(peer: Seq<char>, reply: ProbeReply)
    requires
        reply.latest_msg.is_some(),
        reply.latest_msg.unwrap().response.payload@.len() == 0,
    ensures
        reply_node(peer, reply).online,
        reply_node(peer, reply).quorum_set == empty_quorum_set(),
        targets(reply_node(peer, reply).quorum_set) == Set::<Seq<char>>::empty(),
{
    assert(flat_nodes(Seq::<MemberView>::empty()) =~= Seq::empty());
    assert(targets(empty_quorum_set()) =~= Set::<Seq<char>>::empty());
}

/// A crawl follows nested sets: what a set nested in a quorum set leads to,
/// the quorum set leads to, and so does each of its own validators that names
/// a peer. Applied level by level, this holds at any depth.
pub proof fn lemma_nested_sets_are_followed(quorum_set: QuorumSetView, i: int)
    requires
        0 <= i < quorum_set.members.len(),
    ensures
        match quorum_set.members[i] {
            MemberView::Node(node) => peer_address(peer_uri_of(node.responder_id)).is_some()
                ==> targets(quorum_set).contains(peer_uri_of(node.responder_id)),
            MemberView::InnerSet(inner) => targets(inner).subset_of(targets(quorum_set)),
        },
{
    lemma_nested_nodes_are_named(quorum_set.members, i);
    let all = flat_nodes(quorum_set.members);
    match quorum_set.members[i] {
        MemberView::Node(node) => {
            let at = choose|at: int| 0 <= at < all.len() && all[at] == node;
            assert(peer_uri_of(all[at].responder_id) == peer_uri_of(node.responder_id));
        },
        MemberView::InnerSet(inner) => {
            let nested = flat_nodes(inner.members);
            assert forall|uri: Seq<char>| targets(inner).contains(uri) implies targets(
                quorum_set,
            ).contains(uri) by {
                let k = choose|k: int|
                    0 <= k < nested.len() && peer_uri_of(#[trigger] nested[k].responder_id) == uri;
                assert(all.contains(nested[k]));
                let at = choose|at: int| 0 <= at < all.len() && all[at] == nested[k];
                assert(peer_uri_of(all[at].responder_id) == uri);
            }
        },
    }
}

/// A quorum set keeps its shape when it is shown in a report: the threshold
/// is the same; the validators shown are the keys of its own validators, one
/// for one and in member order; and the nested sets shown are its nested
/// sets, one for one and in member order, each shown the same way.
pub proof fn lemma_report_keeps_shape(quorum_set: QuorumSetView)
    ensures
        reported(quorum_set).threshold == quorum_set.threshold,
        reported(quorum_set).validators.len() == direct_nodes(quorum_set.members).len(),
        forall|i: int|
            0 <= i < direct_nodes(quorum_set.members).len() ==> #[trigger] reported(
                quorum_set,
            ).validators[i] == base64_standard(direct_nodes(quorum_set.members)[i].public_key),
        reported(quorum_set).inner_quorum_sets.len() == nested_sets(quorum_set.members).len(),
        forall|i: int|
            0 <= i < nested_sets(quorum_set.members).len() ==> #[trigger] reported(
                quorum_set,
            ).inner_quorum_sets[i] == reported(nested_sets(quorum_set.members)[i]),
{
    lemma_members_keep_shape(quorum_set.members);
}

/// The members of a quorum set keep their order when they are shown in a
/// report.
proof fn lemma_members_keep_shape(members: Seq<MemberView>)
    ensures
        reported_validators(members).len() == direct_nodes(members).len(),
        forall|i: int|
            0 <= i < direct_nodes(members).len() ==> #[trigger] reported_validators(members)[i]
                == base64_standard(direct_nodes(members)[i].public_key),
        reported_inner(members).len() == nested_sets(members).len(),
        forall|i: int|
            0 <= i < nested_sets(members).len() ==> #[trigger] reported_inner(members)[i] == reported(
                nested_sets(members)[i],
            ),
    decreases members.len(),
{
    if members.len() > 0 {
        lemma_members_keep_shape(members.drop_last());
    }
}

} // verus!
