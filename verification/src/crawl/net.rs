//! The crawl itself: what a probe can come back with, what the crawl makes
//! of it, and the loop that probes until nothing waits.

use vstd::prelude::*;
use vstd::string::*;
use crate::crawl::core_types::{count_online, has_identity, targets, CrawledNode, Crawler, NodeView};
use crate::crawl::crawler::{carried_quorum_set, with_keys, GetLatestMsgResponse};
use crate::quorum::{zero_key, McQuorumSet, QuorumSetView};
use crate::uri::{address_or_fallback, peer_address};
use crate::uri_set::texts as texts_of;

verus! {

/// A validator's answer to the request for its last block.
#[derive(Clone, Copy, Debug)]
pub struct LastBlockInfoResponse {
    pub index: u64,
    pub network_block_version: u32,
    pub minimum_fee: u64,
}

/// A validator's answer to the request for its latest message, with what the
/// wire decoder made of the payload: `None` if it could not read it.
#[derive(Debug)]
pub struct LatestMsg {
    pub response: GetLatestMsgResponse,
    pub decoded: Option<McQuorumSet>,
}

/// What the two requests to a validator came back with; `None` for one that
/// failed.
#[derive(Debug)]
pub struct ProbeReply {
    pub latest_msg: Option<LatestMsg>,
    pub last_block_info: Option<LastBlockInfoResponse>,
}

/// How a probe ended.
#[derive(Debug)]
pub enum ProbeOutcome {
    /// No channel to the address could be set up: the peer is passed over.
    ChannelFailed,
    /// Both requests were made.
    Replied(ProbeReply),
}

/// The quorum set without members.
pub open spec fn empty_quorum_set() -> QuorumSetView {
    QuorumSetView { threshold: 0, members: Seq::empty() }
}

/// The quorum set that a reply gives: the one its message carries, or the
/// empty one if the request failed, the payload is empty or cannot be read.
pub open spec fn reply_quorum_set(reply: ProbeReply) -> QuorumSetView {
    match reply.latest_msg {
        Some(msg) => match carried_quorum_set(msg.response.payload@, msg.decoded) {
            Some(quorum_set) => quorum_set@,
            None => empty_quorum_set(),
        },
        None => empty_quorum_set(),
    }
}

/// The validator that a reply from `peer` describes: online if the request
/// for its latest message succeeded, with the block claims of its last-block
/// answer, or zeros if that request failed, and no key yet.
pub open spec fn reply_node(peer: Seq<char>, reply: ProbeReply) -> NodeView {
    NodeView {
        public_key: zero_key(),
        domain: address_or_fallback(peer).0,
        port: address_or_fallback(peer).1,
        quorum_set: reply_quorum_set(reply),
        online: reply.latest_msg.is_some(),
        latest_block: match reply.last_block_info {
            Some(info) => info.index,
            None => 0,
        },
        network_block_version: match reply.last_block_info {
            Some(info) => info.network_block_version,
            None => 0,
        },
        minimum_fee: match reply.last_block_info {
            Some(info) => info.minimum_fee,
            None => 0,
        },
    }
}

/// Whether `post` is `pre` after the probe of `peer` that ended in `outcome`
/// has been recorded.
///
/// An address that does not wait is not probed: nothing changes. One that
/// waits moves to the probed addresses, whatever the outcome. If no channel
/// could be set up, that is all. Otherwise the validator that the reply
/// describes joins those found, unless one with its host and port is held;
/// the addresses that its quorum set leads to, and that have not been probed,
/// wait from now on; and if it was online the count of reachable validators
/// goes up by one.
pub open spec fn probe_recorded(
    pre: Crawler,
    peer: Seq<char>,
    outcome: ProbeOutcome,
    post: Crawler,
) -> bool {
    &&& post.bootstrap_peers == pre.bootstrap_peers
    &&& post.crawl_duration == pre.crawl_duration
    &&& post.crawl_time == pre.crawl_time
    &&& if !pre.to_crawl@.contains(peer) {
        &&& post.to_crawl@ == pre.to_crawl@
        &&& post.crawled@ == pre.crawled@
        &&& post.nodes() == pre.nodes()
        &&& post.reachable_nodes == pre.reachable_nodes
    } else {
        &&& post.crawled@ == pre.crawled@.insert(peer)
        &&& match outcome {
            ProbeOutcome::ChannelFailed => {
                &&& post.to_crawl@ == pre.to_crawl@.remove(peer)
                &&& post.nodes() == pre.nodes()
                &&& post.reachable_nodes == pre.reachable_nodes
            },
            ProbeOutcome::Replied(reply) => {
                let node = reply_node(peer, reply);
                &&& post.to_crawl@ == pre.to_crawl@.remove(peer).union(
                    targets(node.quorum_set).difference(post.crawled@),
                )
                &&& post.nodes() == if has_identity(pre.nodes(), node.identity()) {
                    pre.nodes()
                } else {
                    pre.nodes().push(node)
                }
                &&& post.reachable_nodes == pre.reachable_nodes + if node.online {
                    1int
                } else {
                    0int
                }
            },
        }
    }
}

/// The validator that a reply from `peer` describes.
pub fn node_from_reply(peer: &String, reply: ProbeReply) -> (node: CrawledNode)
    ensures
        node@ == reply_node(peer@, reply),
{
    let ProbeReply { latest_msg, last_block_info } = reply;
    let online = latest_msg.is_some();
    let carried = match latest_msg {
        Some(msg) => {
            let LatestMsg { response, decoded } = msg;
            Crawler::deserialise_payload_to_quorum_set(&response, decoded)
        },
        None => None,
    };
    let quorum_set = match carried {
        Some(quorum_set) => quorum_set,
        None => McQuorumSet::empty(),
    };
    let (latest_block, network_block_version, minimum_fee) = match last_block_info {
        Some(info) => (info.index, info.network_block_version, info.minimum_fee),
        None => (0, 0, 0),
    };
    CrawledNode::new(
        peer.clone(),
        online,
        quorum_set,
        latest_block,
        network_block_version,
        minimum_fee,
    )
}

/// Moving a waiting address to the probed ones keeps a crawl well formed.
proof fn lemma_skip_keeps_wf(pre: Crawler, post: Crawler, peer: Seq<char>)
    requires
        pre.wf(),
        pre.to_crawl@.contains(peer),
        post.to_crawl.wf(),
        post.crawled.wf(),
        post.bootstrap_peers == pre.bootstrap_peers,
        post.reachable_nodes == pre.reachable_nodes,
        post.crawled@ == pre.crawled@.insert(peer),
        post.to_crawl@ == pre.to_crawl@.remove(peer),
        post.nodes() == pre.nodes(),
    ensures
        post.wf(),
{
    pre.crawled.lemma_finite();
    assert forall|x: Seq<char>| pre.known(x) implies post.known(x) by {}
    assert forall|i: int| 0 <= i < post.nodes().len() implies post.probed_at(
        #[trigger] post.nodes()[i].identity(),
    ) by {
        assert(pre.probed_at(pre.nodes()[i].identity()));
        let w = choose|w: Seq<char>|
            pre.crawled@.contains(w) && #[trigger] peer_address(w) == Some(
                pre.nodes()[i].identity(),
            );
        assert(post.crawled@.contains(w));
    }
    assert forall|i: int| 0 <= i < post.nodes().len() implies post.follows(
        #[trigger] post.nodes()[i].quorum_set,
    ) by {
        assert(pre.follows(pre.nodes()[i].quorum_set));
    }
}

impl Crawler {
    /// Records how the probe of `peer` ended. Returns whether `peer` was
    /// waiting, that is whether anything was recorded.
    pub fn record_probe(&mut self, peer: &String, outcome: ProbeOutcome) -> (probed: bool)
        requires
            old(self).wf(),
        ensures
            final(self).wf(),
            probe_recorded(*old(self), peer@, outcome, *final(self)),
            probed == old(self).to_crawl@.contains(peer@),
    {
        if !self.to_crawl.contains(peer) {
            return false;
        }
        let ghost pre = *self;
        let probed_before = self.crawled.len();
        proof {
            pre.crawled.lemma_finite();
            assert(!pre.crawled@.contains(peer@));
        }
        match outcome {
            ProbeOutcome::ChannelFailed => {
                self.to_crawl.remove(peer);
                self.crawled.insert(peer.clone());
                proof {
                    lemma_skip_keeps_wf(pre, *self, peer@);
                }
            },
            ProbeOutcome::Replied(reply) => {
                let node = node_from_reply(peer, reply);
                let online = node.online;
                self.handle_discovered_node(peer, node);
                let probed_now = self.crawled.len();
                assert(probed_now == probed_before + 1);
                if online {
                    self.reachable_nodes = self.reachable_nodes + 1;
                }
            },
        }
        true
    }

    /// Probes `peer` with `probe` and records the outcome, if `peer` waits to
    /// be probed. An address that does not wait is not probed.
    pub fn crawl_node<F: Fn(&String) -> ProbeOutcome>(&mut self, peer: &String, probe: &F) -> (probed:
        bool)
        requires
            old(self).wf(),
            call_requires(probe, (peer,)),
        ensures
            final(self).wf(),
            probed == old(self).to_crawl@.contains(peer@),
            !probed ==> probe_recorded(*old(self), peer@, ProbeOutcome::ChannelFailed, *final(self)),
            probed ==> exists|outcome: ProbeOutcome|
                call_ensures(probe, (peer,), outcome) && probe_recorded(
                    *old(self),
                    peer@,
                    outcome,
                    *final(self),
                ),
    {
        if !self.to_crawl.contains(peer) {
            return false;
        }
        let outcome = probe(peer);
        self.record_probe(peer, outcome)
    }
}

/// Two lists of validators that agree on who was online count the same
/// number of validators online.
pub proof fn lemma_count_online_by_flags(a: Seq<NodeView>, b: Seq<NodeView>)
    requires
        a.len() == b.len(),
        forall|i: int| 0 <= i < a.len() ==> a[i].online == b[i].online,
    ensures
        count_online(a) == count_online(b),
    decreases a.len(),
{
    if a.len() > 0 {
        lemma_count_online_by_flags(a.drop_last(), b.drop_last());
    }
}

/// One more validator counts as one more online exactly if it was online.
pub proof fn lemma_count_online_push(nodes: Seq<NodeView>, node: NodeView)
    ensures
        count_online(nodes.push(node)) == count_online(nodes) + if node.online {
            1nat
        } else {
            0nat
        },
{
    assert(nodes.push(node).drop_last() =~= nodes);
}

/// What one recorded probe does to a crawl. The probed addresses and the
/// validators found never shrink: every address probed before is probed
/// after, and the validators held before are the first of those held after.
/// A probe of a waiting address adds exactly that address. And the count of
/// reachable validators stays the number of validators held that were
/// online, unless two probed addresses name the same host and port.
pub proof fn lemma_probe_step(pre: Crawler, peer: Seq<char>, outcome: ProbeOutcome, post: Crawler)
    requires
        pre.wf(),
        probe_recorded(pre, peer, outcome, post),
    ensures
        pre.crawled@.subset_of(post.crawled@),
        pre.nodes().is_prefix_of(post.nodes()),
        pre.to_crawl@.contains(peer) ==> post.crawled@.len() == pre.crawled@.len() + 1,
        !pre.to_crawl@.contains(peer) ==> post.crawled@.len() == pre.crawled@.len(),
        !pre.probed_once_each() ==> !post.probed_once_each(),
        pre.accounting_exact() ==> post.accounting_exact() || !post.probed_once_each(),
{
    pre.crawled.lemma_finite();
    if !pre.probed_once_each() {
        let (a, b) = choose|a: Seq<char>, b: Seq<char>|
            pre.crawled@.contains(a) && pre.crawled@.contains(b) && a != b && peer_address(
                a,
            ).is_some() && !(#[trigger] peer_address(a) != #[trigger] peer_address(b));
        assert(post.crawled@.contains(a) && post.crawled@.contains(b));
    }
    if pre.to_crawl@.contains(peer) {
        assert(!pre.crawled@.contains(peer));
        match outcome {
            ProbeOutcome::ChannelFailed => {},
            ProbeOutcome::Replied(reply) => {
                let node = reply_node(peer, reply);
                if has_identity(pre.nodes(), node.identity()) {
                    if pre.accounting_exact() && node.online {
                        let i = choose|i: int|
                            0 <= i < pre.nodes().len() && #[trigger] pre.nodes()[i].identity()
                                == node.identity();
                        assert(pre.probed_at(pre.nodes()[i].identity()));
                        let w = choose|w: Seq<char>|
                            pre.crawled@.contains(w) && #[trigger] peer_address(w) == Some(
                                pre.nodes()[i].identity(),
                            );
                        assert(post.crawled@.contains(w) && post.crawled@.contains(peer));
                        assert(w != peer);
                        assert(peer_address(w) == peer_address(peer));
                        assert(!post.probed_once_each());
                    }
                } else {
                    lemma_count_online_push(pre.nodes(), node);
                }
            },
        }
    }
}

/// Filling in keys keeps a crawl well formed.
proof fn lemma_keys_keep_wf(pre: Crawler, post: Crawler)
    requires
        pre.wf(),
        post.nodes() == with_keys(pre.nodes()),
        post.bootstrap_peers == pre.bootstrap_peers,
        post.to_crawl == pre.to_crawl,
        post.crawled == pre.crawled,
        post.reachable_nodes == pre.reachable_nodes,
    ensures
        post.wf(),
{
    assert forall|i: int| 0 <= i < post.nodes().len() implies post.probed_at(
        #[trigger] post.nodes()[i].identity(),
    ) by {
        assert(pre.probed_at(pre.nodes()[i].identity()));
    }
    assert forall|i: int| 0 <= i < post.nodes().len() implies post.follows(
        #[trigger] post.nodes()[i].quorum_set,
    ) by {
        assert(pre.follows(pre.nodes()[i].quorum_set));
    }
    assert forall|i: int, j: int|
        0 <= i < post.nodes().len() && 0 <= j < post.nodes().len() && i != j implies (
    #[trigger] post.nodes()[i]).identity() != (#[trigger] post.nodes()[j]).identity() by {
        assert(pre.nodes()[i].identity() != pre.nodes()[j].identity());
    }
}

/// Whether `states` are the states that a crawl goes through as it probes
/// `peers` in this order with `probe`: each address waits when its turn
/// comes, `probe` can end on it as `outcomes` says, and the next state is the
/// one before with that outcome recorded.
pub open spec fn probes_of<F: Fn(&String) -> ProbeOutcome>(
    probe: &F,
    states: Seq<Crawler>,
    peers: Seq<String>,
    outcomes: Seq<ProbeOutcome>,
) -> bool {
    &&& states.len() == peers.len() + 1
    &&& outcomes.len() == peers.len()
    &&& forall|k: int| 0 <= k < states.len() ==> (#[trigger] states[k]).wf()
    &&& forall|k: int|
        0 <= k < peers.len() ==> {
            &&& states[k].to_crawl@.contains((#[trigger] peers[k])@)
            &&& call_ensures(probe, (&peers[k],), outcomes[k])
            &&& probe_recorded(states[k], peers[k]@, outcomes[k], states[k + 1])
        }
}

/// Whether `after` is `before` with the keys filled in that the validators'
/// quorum sets give, and nothing else changed.
pub open spec fn keys_filled(before: Crawler, after: Crawler) -> bool {
    &&& after.nodes() == with_keys(before.nodes())
    &&& after.bootstrap_peers == before.bootstrap_peers
    &&& after.to_crawl == before.to_crawl
    &&& after.crawled == before.crawled
    &&& after.reachable_nodes == before.reachable_nodes
    &&& after.crawl_duration == before.crawl_duration
    &&& after.crawl_time == before.crawl_time
}

/// One more probe makes a longer crawl.
proof fn lemma_probes_extend<F: Fn(&String) -> ProbeOutcome>(
    probe: &F,
    states: Seq<Crawler>,
    peers: Seq<String>,
    outcomes: Seq<ProbeOutcome>,
    peer: String,
    outcome: ProbeOutcome,
    next: Crawler,
)
    requires
        probes_of(probe, states, peers, outcomes),
        next.wf(),
        states.last().to_crawl@.contains(peer@),
        call_ensures(probe, (&peer,), outcome),
        probe_recorded(states.last(), peer@, outcome, next),
    ensures
        probes_of(probe, states.push(next), peers.push(peer), outcomes.push(outcome)),
{
    let longer = states.push(next);
    assert forall|k: int| 0 <= k < longer.len() implies (#[trigger] longer[k]).wf() by {
        if k < states.len() {
            assert(longer[k] == states[k]);
        }
    }
    let more = peers.push(peer);
    assert forall|k: int| 0 <= k < more.len() implies {
        &&& longer[k].to_crawl@.contains((#[trigger] more[k])@)
        &&& call_ensures(probe, (&more[k],), outcomes.push(outcome)[k])
        &&& probe_recorded(longer[k], more[k]@, outcomes.push(outcome)[k], longer[k + 1])
    } by {
        if k < peers.len() {
            assert(more[k] == peers[k]);
            assert(longer[k] == states[k]);
            assert(longer[k + 1] == states[k + 1]);
        } else {
            assert(longer[k] == states.last());
        }
    }
}

impl Crawler {
    /// Crawls until no address waits, or until `max_probes` addresses have
    /// been probed. Round by round, every address that waits at the start of
    /// a round is handed to `probe` and the outcome recorded; what a round
    /// finds waits for the next. Then the validators are told their keys from
    /// each other's quorum sets. Returns whether the crawl came to rest, that
    /// is whether no address waits any more.
    ///
    /// The crawl ends in the state that some sequence of probes leads to,
    /// each of an address that waited, each recorded as `probe` ended on it,
    /// with the keys filled in. It stops early only when `max_probes` probes
    /// were made.
    pub fn crawl_network<F: Fn(&String) -> ProbeOutcome>(&mut self, probe: &F, max_probes: usize) -> (quiescent:
        bool)
        requires
            old(self).wf(),
            forall|peer: &String| peer_address(peer@).is_some() ==> call_requires(probe, (peer,)),
        ensures
            final(self).wf(),
            quiescent == (final(self).to_crawl@ == Set::<Seq<char>>::empty()),
            exists|states: Seq<Crawler>, peers: Seq<String>, outcomes: Seq<ProbeOutcome>|
                {
                    &&& #[trigger] probes_of(probe, states, peers, outcomes)
                    &&& states[0] == *old(self)
                    &&& keys_filled(states.last(), *final(self))
                    &&& peers.len() <= max_probes
                    &&& quiescent || peers.len() == max_probes
                },
            final(self).crawled@.len() <= old(self).crawled@.len() + max_probes,
            !quiescent ==> final(self).crawled@.len() == old(self).crawled@.len() + max_probes,
            old(self).crawled@.subset_of(final(self).crawled@),
            exists|found: Seq<NodeView>| #[trigger]
                old(self).nodes().is_prefix_of(found) && final(self).nodes() == with_keys(found),
            old(self).accounting_exact() ==> final(self).accounting_exact()
                || !final(self).probed_once_each(),
    {
        let ghost start = *self;
        let ghost mut states: Seq<Crawler> = seq![start];
        let ghost mut peers: Seq<String> = Seq::empty();
        let ghost mut outcomes: Seq<ProbeOutcome> = Seq::empty();
        let mut budget = max_probes;
        proof {
            start.crawled.lemma_finite();
        }
        while budget > 0 && !self.to_crawl.is_empty()
            invariant
                start.wf(),
                self.wf(),
                forall|peer: &String| peer_address(peer@).is_some() ==> call_requires(probe, (peer,)),
                budget <= max_probes,
                probes_of(probe, states, peers, outcomes),
                states[0] == start,
                states.last() == *self,
                peers.len() + budget == max_probes,
                self.crawled@.len() + budget == start.crawled@.len() + max_probes,
                start.crawled@.subset_of(self.crawled@),
                start.nodes().is_prefix_of(self.nodes()),
                start.accounting_exact() ==> self.accounting_exact() || !self.probed_once_each(),
            decreases budget,
        {
            let round = self.to_crawl.to_vec();
            let ghost round_budget = budget;
            let mut i: usize = 0;
            assert(round@.len() > 0) by {
                if round@.len() == 0 {
                    assert(self.to_crawl@ =~= Set::<Seq<char>>::empty());
                }
            }
            while i < round.len() && budget > 0
                invariant
                    start.wf(),
                    self.wf(),
                    forall|peer: &String|
                        peer_address(peer@).is_some() ==> call_requires(probe, (peer,)),
                    i <= round@.len(),
                    round@.len() > 0,
                    budget <= round_budget <= max_probes,
                    i == 0 ==> budget == round_budget && texts_of(round@) == texts_of(
                        self.to_crawl.items@,
                    ),
                    i > 0 ==> budget < round_budget,
                    probes_of(probe, states, peers, outcomes),
                    states[0] == start,
                    states.last() == *self,
                    peers.len() + budget == max_probes,
                    self.crawled@.len() + budget == start.crawled@.len() + max_probes,
                    start.crawled@.subset_of(self.crawled@),
                    start.nodes().is_prefix_of(self.nodes()),
                    start.accounting_exact() ==> self.accounting_exact()
                        || !self.probed_once_each(),
                decreases round@.len() - i,
            {
                let ghost pre = *self;
                let peer = &round[i];
                proof {
                    if i == 0 {
                        assert(texts_of(self.to_crawl.items@)[0] == peer@);
                        assert(self.to_crawl@.contains(peer@));
                    }
                }
                if self.to_crawl.contains(peer) {
                    let probed = self.crawl_node(peer, probe);
                    proof {
                        let outcome = choose|outcome: ProbeOutcome|
                            call_ensures(probe, (peer,), outcome) && probe_recorded(
                                pre,
                                peer@,
                                outcome,
                                *self,
                            );
                        lemma_probe_step(pre, peer@, outcome, *self);
                        lemma_probes_extend(probe, states, peers, outcomes, *peer, outcome, *self);
                        states = states.push(*self);
                        peers = peers.push(*peer);
                        outcomes = outcomes.push(outcome);
                    }
                    budget = budget - 1;
                }
                i += 1;
            }
        }
        let quiescent = self.to_crawl.is_empty();
        let ghost found = self.nodes();
        let ghost crawled = *self;
        let nodes = self.get_public_keys_from_quorum_sets();
        self.mobcoin_nodes = nodes;
        proof {
            lemma_keys_keep_wf(crawled, *self);
            lemma_count_online_by_flags(found, self.nodes());
            assert(start.nodes().is_prefix_of(found) && self.nodes() == with_keys(found));
            assert(probes_of(probe, states, peers, outcomes) && states[0] == start && keys_filled(
                states.last(),
                *self,
            ));
        }
        quiescent
    }
}

} // verus!
