//! What a crawl knows: the validators it has seen and the addresses it has
//! probed or still has to probe.

use vstd::prelude::*;
use vstd::string::*;
use crate::quorum::{McQuorumSet, NodeRef, PublicKey, QuorumSetView, zero_key};
use crate::uri::{address_or_fallback, fragment_mc_url, is_peer_uri, peer_address, peer_uri_of};
use crate::uri_set::{texts, UriSet};

verus! {

/// A validator that the crawl has learned of.
#[derive(Debug, PartialEq, Eq)]
pub struct CrawledNode {
    /// Its signing key; the all-zero key until another validator's quorum set
    /// tells it.
    pub public_key: PublicKey,
    pub domain: String,
    pub port: u16,
    /// Empty if the validator gave none that could be read.
    pub quorum_set: McQuorumSet,
    /// Whether it answered the request for its latest message.
    pub online: bool,
    /// The block index that it claims; 0 if unknown.
    pub latest_block: u64,
    /// The ledger format version that it claims; 0 if unknown.
    pub network_block_version: u32,
    /// The minimum fee that it claims; 0 if unknown.
    pub minimum_fee: u64,
}

/// A validator as contracts see it.
pub struct NodeView {
    pub public_key: Seq<u8>,
    pub domain: Seq<char>,
    pub port: u16,
    pub quorum_set: QuorumSetView,
    pub online: bool,
    pub latest_block: u64,
    pub network_block_version: u32,
    pub minimum_fee: u64,
}

impl NodeView {
    /// What tells validators apart within a crawl: host and port.
    pub open spec fn identity(self) -> (Seq<char>, u16) {
        (self.domain, self.port)
    }
}

impl View for CrawledNode {
    type V = NodeView;

    open spec fn view(&self) -> NodeView {
        NodeView {
            public_key: self.public_key@,
            domain: self.domain@,
            port: self.port,
            quorum_set: self.quorum_set@,
            online: self.online,
            latest_block: self.latest_block,
            network_block_version: self.network_block_version,
            minimum_fee: self.minimum_fee,
        }
    }
}

impl Clone for CrawledNode {
    fn clone(&self) -> (copy: CrawledNode)
        ensures
            copy@ == self@,
    {
        CrawledNode {
            public_key: self.public_key,
            domain: self.domain.clone(),
            port: self.port,
            quorum_set: self.quorum_set.clone(),
            online: self.online,
            latest_block: self.latest_block,
            network_block_version: self.network_block_version,
            minimum_fee: self.minimum_fee,
        }
    }
}

impl CrawledNode {
    /// A validator crawled at `url`, with no key yet. Host and port are those
    /// of `url`, or `0.0.0.0` and `0` if it names no peer.
    pub fn new(
        url: String,
        online: bool,
        quorum_set: McQuorumSet,
        latest_block: u64,
        network_block_version: u32,
        minimum_fee: u64,
    ) -> (node: CrawledNode)
        ensures
            node@ == (NodeView {
                public_key: zero_key(),
                domain: address_or_fallback(url@).0,
                port: address_or_fallback(url@).1,
                quorum_set: quorum_set@,
                online,
                latest_block,
                network_block_version,
                minimum_fee,
            }),
    {
        let (domain, port) = fragment_mc_url(url.as_str());
        CrawledNode {
            public_key: PublicKey::unknown(),
            domain,
            port,
            quorum_set,
            online,
            latest_block,
            network_block_version,
            minimum_fee,
        }
    }
}

/// The views of a sequence of validators, in order.
pub open spec fn node_views(nodes: Seq<CrawledNode>) -> Seq<NodeView> {
    Seq::new(nodes.len(), |i: int| nodes[i]@)
}

/// Whether one of `nodes` has this host and port.
pub open spec fn has_identity(nodes: Seq<NodeView>, identity: (Seq<char>, u16)) -> bool {
    exists|i: int| 0 <= i < nodes.len() && #[trigger] nodes[i].identity() == identity
}

/// Whether no two of `nodes` share host and port.
pub open spec fn distinct_identities(nodes: Seq<NodeView>) -> bool {
    forall|i: int, j: int|
        0 <= i < nodes.len() && 0 <= j < nodes.len() && i != j ==> #[trigger] nodes[i].identity()
            != #[trigger] nodes[j].identity()
}

/// How many of `nodes` were online.
pub open spec fn count_online(nodes: Seq<NodeView>) -> nat
    decreases nodes.len(),
{
    if nodes.len() == 0 {
        0
    } else {
        count_online(nodes.drop_last()) + if nodes.last().online {
            1nat
        } else {
            0nat
        }
    }
}

/// The addresses that a list of validator references leads to: those of the
/// references that name a peer.
pub open spec fn targets_of(members: Seq<NodeRef>) -> Set<Seq<char>> {
    Set::new(
        |uri: Seq<char>|
            peer_address(uri).is_some() && exists|k: int|
                0 <= k < members.len() && peer_uri_of(#[trigger] members[k].responder_id) == uri,
    )
}

/// The addresses that a quorum set leads to: those of its members, nested
/// sets included, that name a peer.
pub open spec fn targets(quorum_set: QuorumSetView) -> Set<Seq<char>> {
    targets_of(quorum_set.nodes())
}

/// How long a crawl took.
#[derive(Clone, Copy, Debug, PartialEq, Eq)]
pub struct CrawlDuration {
    pub secs: u64,
    pub nanos: u32,
}

/// The state of a crawl.
#[derive(Debug)]
pub struct Crawler {
    /// The addresses the crawl was started with, trusted to settle a tie.
    pub bootstrap_peers: UriSet,
    /// The validators found so far.
    pub mobcoin_nodes: Vec<CrawledNode>,
    /// The addresses still to be probed.
    pub to_crawl: UriSet,
    /// The addresses that have been probed.
    pub crawled: UriSet,
    /// How many probes found the validator online.
    pub reachable_nodes: usize,
    /// How long the crawl took.
    pub crawl_duration: CrawlDuration,
    /// When the crawl started.
    pub crawl_time: String,
}

impl Crawler {
    /// The validators found so far, as contracts see them.
    pub open spec fn nodes(&self) -> Seq<NodeView> {
        node_views(self.mobcoin_nodes@)
    }

    /// Whether the crawl has taken note of `uri`: it is waiting to be probed
    /// or has been probed.
    pub open spec fn known(&self, uri: Seq<char>) -> bool {
        self.to_crawl@.contains(uri) || self.crawled@.contains(uri)
    }

    /// Whether an address with this host and port has been probed.
    pub open spec fn probed_at(&self, identity: (Seq<char>, u16)) -> bool {
        exists|uri: Seq<char>| self.crawled@.contains(uri) && #[trigger] peer_address(uri) == Some(identity)
    }

    /// Whether every address that `quorum_set` leads to is known.
    pub open spec fn follows(&self, quorum_set: QuorumSetView) -> bool {
        forall|uri: Seq<char>| #[trigger] targets(quorum_set).contains(uri) ==> self.known(uri)
    }

    /// What holds of a crawl between any two steps:
    /// no address is both waiting and probed; only addresses that name a peer
    /// wait or were probed; every such bootstrap address is known; no two validators share
    /// host and port; each validator's host and port are those of a probed
    /// address; every address that a validator's quorum set leads to is
    /// known; and no more validators were counted online than addresses were
    /// probed.
    pub open spec fn wf(&self) -> bool {
        &&& self.bootstrap_peers.wf()
        &&& self.to_crawl.wf()
        &&& self.crawled.wf()
        &&& self.to_crawl@.disjoint(self.crawled@)
        &&& forall|uri: Seq<char>| #[trigger] self.to_crawl@.contains(uri) ==> peer_address(uri).is_some()
        &&& forall|uri: Seq<char>| #[trigger] self.crawled@.contains(uri) ==> peer_address(uri).is_some()
        &&& forall|uri: Seq<char>|
            #[trigger] self.bootstrap_peers@.contains(uri) && peer_address(uri).is_some()
                ==> self.known(uri)
        &&& distinct_identities(self.nodes())
        &&& forall|i: int|
            0 <= i < self.nodes().len() ==> self.probed_at(#[trigger] self.nodes()[i].identity())
        &&& forall|i: int|
            0 <= i < self.nodes().len() ==> self.follows(#[trigger] self.nodes()[i].quorum_set)
        &&& self.reachable_nodes <= self.crawled@.len()
    }

    /// Whether the count of validators found online is the number of
    /// validators held that were online.
    pub open spec fn accounting_exact(&self) -> bool {
        self.reachable_nodes == count_online(self.nodes())
    }

    /// Whether no two probed addresses name the same host and port.
    pub open spec fn probed_once_each(&self) -> bool {
        forall|a: Seq<char>, b: Seq<char>|
            self.crawled@.contains(a) && self.crawled@.contains(b) && a != b && peer_address(
                a,
            ).is_some() ==> #[trigger] peer_address(a) != #[trigger] peer_address(b)
    }

    /// A crawl that starts from `bootstrap_peers`. Those that name a peer
    /// wait to be probed; the others are kept as given but never probed.
    pub fn new(bootstrap_peers: Vec<String>) -> (crawler: Crawler)
        ensures
            crawler.wf(),
            crawler.bootstrap_peers@ == texts(bootstrap_peers@).to_set(),
            crawler.to_crawl@ == texts(bootstrap_peers@).to_set().filter(
                |uri: Seq<char>| peer_address(uri).is_some(),
            ),
            crawler.crawled@ == Set::<Seq<char>>::empty(),
            crawler.mobcoin_nodes@.len() == 0,
            crawler.reachable_nodes == 0,
            crawler.crawl_duration == (CrawlDuration { secs: 0, nanos: 0 }),
            crawler.crawl_time@ == Seq::<char>::empty(),
    {
        let mut bootstrap = UriSet::new();
        let mut to_crawl = UriSet::new();
        let mut i: usize = 0;
        let ghost given = texts(bootstrap_peers@);
        while i < bootstrap_peers.len()
            invariant
                i <= bootstrap_peers@.len(),
                given == texts(bootstrap_peers@),
                bootstrap.wf(),
                to_crawl.wf(),
                bootstrap@ == given.take(i as int).to_set(),
                to_crawl@ == given.take(i as int).to_set().filter(
                    |uri: Seq<char>| peer_address(uri).is_some(),
                ),
            decreases bootstrap_peers@.len() - i,
        {
            let peer = bootstrap_peers[i].clone();
            assert(peer@ == given[i as int]);
            proof {
                assert(given.take(i + 1) =~= given.take(i as int).push(peer@));
                given.take(i as int).lemma_push_to_set_commute(peer@);
            }
            if is_peer_uri(peer.as_str()) {
                to_crawl.insert(peer.clone());
            }
            bootstrap.insert(peer);
            i += 1;
            assert(to_crawl@ =~= given.take(i as int).to_set().filter(
                |uri: Seq<char>| peer_address(uri).is_some(),
            ));
        }
        assert(given.take(bootstrap_peers@.len() as int) =~= given);
        let crawler = Crawler {
            bootstrap_peers: bootstrap,
            mobcoin_nodes: Vec::new(),
            to_crawl,
            crawled: UriSet::new(),
            reachable_nodes: 0,
            crawl_duration: CrawlDuration { secs: 0, nanos: 0 },
            crawl_time: String::new(),
        };
        assert(crawler.nodes().len() == 0);
        crawler
    }
}

impl Default for Crawler {
    /// A crawl without bootstrap peers: nothing waits, nothing was found.
    fn default() -> (crawler: Crawler)
        ensures
            crawler.wf(),
            crawler.bootstrap_peers@ == Set::<Seq<char>>::empty(),
            crawler.to_crawl@ == Set::<Seq<char>>::empty(),
            crawler.crawled@ == Set::<Seq<char>>::empty(),
            crawler.mobcoin_nodes@.len() == 0,
            crawler.reachable_nodes == 0,
    {
        let crawler = Crawler::new(Vec::new());
        proof {
            let given = texts(Seq::<String>::empty());
            assert(given.to_set() =~= Set::<Seq<char>>::empty());
            assert(crawler.to_crawl@ =~= Set::<Seq<char>>::empty());
        }
        crawler
    }
}

} // verus!
