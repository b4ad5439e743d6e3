//! The report of a crawl.

use vstd::prelude::*;
use vstd::string::*;
use crate::crawl::core_types::{node_views, CrawlDuration, CrawledNode, Crawler, NodeView};
use crate::quorum::{
    lemma_members_view_take, member_view, members_view, McQuorumSet, MemberView, PublicKey,
    QuorumSetMember, QuorumSetView,
};
use crate::uri::{parse_peer_uri, peer_address};
use crate::uri_set::texts;

verus! {

/// A key in base64: what the standard alphabet with padding, as the `base64`
/// crate implements it, makes of the key's bytes.
pub uninterp spec fn base64_standard(bytes: Seq<u8>) -> Seq<char>;

/// Calls `Engine::encode` of the `base64` crate on its `STANDARD` engine. The
/// contract only names the outcome: the same bytes always give the same text.
#[verifier::external_body]
fn encode_key(bytes: &[u8; 32]) -> (text: String)
    ensures
        text@ == base64_standard(bytes@),
{
    base64::Engine::encode(&base64::engine::general_purpose::STANDARD, bytes)
}

/// A signing key as reports show it: in base64.
pub fn key_to_base64(key: &PublicKey) -> (text: String)
    ensures
        text@ == base64_standard(key@),
{
    encode_key(&key.bytes)
}

/// Where a validator is.
#[derive(Debug, PartialEq, Eq)]
pub struct GeoData {
    pub country_name: String,
}

/// A quorum set as reports show it: the validators by their keys in base64,
/// and the nested sets apart from them.
#[derive(Debug, PartialEq, Eq)]
pub struct QuorumSet {
    pub threshold: u64,
    pub validators: Vec<String>,
    pub inner_quorum_sets: Vec<QuorumSet>,
}

/// A reported quorum set as contracts see it.
pub struct ReportedSet {
    pub threshold: nat,
    pub validators: Seq<Seq<char>>,
    pub inner_quorum_sets: Seq<ReportedSet>,
}

/// The views of a sequence of reported quorum sets, in order.
pub open spec fn reported_views(sets: Seq<QuorumSet>) -> Seq<ReportedSet>
    decreases sets,
{
    if sets.len() == 0 {
        Seq::empty()
    } else {
        reported_views(sets.drop_last()).push(
            ReportedSet {
                threshold: sets.last().threshold as nat,
                validators: texts(sets.last().validators@),
                inner_quorum_sets: reported_views(sets.last().inner_quorum_sets@),
            },
        )
    }
}

impl View for QuorumSet {
    type V = ReportedSet;

    open spec fn view(&self) -> ReportedSet {
        ReportedSet {
            threshold: self.threshold as nat,
            validators: texts(self.validators@),
            inner_quorum_sets: reported_views(self.inner_quorum_sets@),
        }
    }
}

/// The keys, in base64, of the validators among `members`, in member order.
/// Nested sets are passed over.
pub open spec fn reported_validators(members: Seq<MemberView>) -> Seq<Seq<char>>
    decreases members,
{
    if members.len() == 0 {
        Seq::empty()
    } else {
        let rest = reported_validators(members.drop_last());
        match members.last() {
            MemberView::Node(node) => rest.push(base64_standard(node.public_key)),
            MemberView::InnerSet(_) => rest,
        }
    }
}

/// The nested sets among `members` as reports show them, in member order.
pub open spec fn reported_inner(members: Seq<MemberView>) -> Seq<ReportedSet>
    decreases members,
{
    if members.len() == 0 {
        Seq::empty()
    } else {
        let rest = reported_inner(members.drop_last());
        match members.last() {
            MemberView::Node(_) => rest,
            MemberView::InnerSet(inner) => rest.push(
                ReportedSet {
                    threshold: inner.threshold,
                    validators: reported_validators(inner.members),
                    inner_quorum_sets: reported_inner(inner.members),
                },
            ),
        }
    }
}

/// A quorum set as reports show it: the same threshold, the keys of its
/// validators in member order, and its nested sets in member order, each
/// shown the same way.
pub open spec fn reported(quorum_set: QuorumSetView) -> ReportedSet {
    ReportedSet {
        threshold: quorum_set.threshold,
        validators: reported_validators(quorum_set.members),
        inner_quorum_sets: reported_inner(quorum_set.members),
    }
}

/// Appending one member to a list appends its key to the validators, or its
/// report to the nested sets.
proof fn lemma_reported_push(members: Seq<MemberView>, member: MemberView)
    ensures
        reported_validators(members.push(member)) == match member {
            MemberView::Node(node) => reported_validators(members).push(
                base64_standard(node.public_key),
            ),
            MemberView::InnerSet(_) => reported_validators(members),
        },
        reported_inner(members.push(member)) == match member {
            MemberView::Node(_) => reported_inner(members),
            MemberView::InnerSet(inner) => reported_inner(members).push(
                ReportedSet {
                    threshold: inner.threshold,
                    validators: reported_validators(inner.members),
                    inner_quorum_sets: reported_inner(inner.members),
                },
            ),
        },
{
    assert(members.push(member).drop_last() =~= members);
}

/// Appending one reported set appends its view.
proof fn lemma_reported_views_push(sets: Seq<QuorumSet>, set: QuorumSet)
    ensures
        reported_views(sets.push(set)) == reported_views(sets).push(set@),
{
    assert(sets.push(set).drop_last() =~= sets);
}

/// Shows the members of a quorum set as reports do: the validators' keys and
/// the nested sets, each in member order.
fn report_members(members: &Vec<QuorumSetMember>) -> (shown: (Vec<String>, Vec<QuorumSet>))
    ensures
        texts(shown.0@) == reported_validators(members_view(members@)),
        reported_views(shown.1@) == reported_inner(members_view(members@)),
    decreases members,
{
    let mut validators: Vec<String> = Vec::new();
    let mut inner_quorum_sets: Vec<QuorumSet> = Vec::new();
    let mut i: usize = 0;
    proof {
        assert(members@.take(0) =~= Seq::empty());
        assert(texts(validators@) =~= Seq::empty());
    }
    while i < members.len()
        invariant
            i <= members@.len(),
            texts(validators@) == reported_validators(members_view(members@.take(i as int))),
            reported_views(inner_quorum_sets@) == reported_inner(
                members_view(members@.take(i as int)),
            ),
        decreases members@.len() - i,
    {
        proof {
            lemma_members_view_take(members@, i as int);
            lemma_reported_push(
                members_view(members@.take(i as int)),
                member_view(members@[i as int]),
            );
        }
        match &members[i] {
            QuorumSetMember::Node(node) => {
                let ghost shown = texts(validators@);
                let key = key_to_base64(&node.public_key);
                validators.push(key);
                assert(texts(validators@) =~= shown.push(base64_standard(node.public_key@)));
            },
            QuorumSetMember::InnerSet(inner) => {
                let (inner_validators, inner_sets) = report_members(&inner.members);
                let set = QuorumSet {
                    threshold: inner.threshold as u64,
                    validators: inner_validators,
                    inner_quorum_sets: inner_sets,
                };
                proof {
                    lemma_reported_views_push(inner_quorum_sets@, set);
                }
                inner_quorum_sets.push(set);
            },
        }
        i += 1;
    }
    assert(members@.take(members@.len() as int) =~= members@);
    (validators, inner_quorum_sets)
}

impl QuorumSet {
    /// Shows a quorum set as reports do. Threshold, member order and nesting
    /// are kept: the validators' keys come in member order, and so do the
    /// nested sets, each shown the same way.
    pub fn from_mc_quorum_set(mc_quorum_set: &McQuorumSet) -> (shown: QuorumSet)
        ensures
            shown@ == reported(mc_quorum_set@),
    {
        let (validators, inner_quorum_sets) = report_members(&mc_quorum_set.members);
        QuorumSet { threshold: mc_quorum_set.threshold as u64, validators, inner_quorum_sets }
    }
}

/// Where a validator is, as looked up from its address: provider and
/// country, each empty if not known.
#[derive(Debug, PartialEq, Eq)]
pub struct Location {
    pub isp: String,
    pub country_name: String,
}

/// A validator as reports show it.
#[derive(Debug, PartialEq, Eq)]
pub struct MobcoinNode {
    pub public_key: PublicKey,
    pub hostname: String,
    pub port: u16,
    pub active: bool,
    pub quorum_set: QuorumSet,
    pub isp: String,
    pub geo_data: GeoData,
    pub latest_block: u64,
    pub ledger_version: u32,
    pub minimum_fee: u64,
}

/// A reported validator as contracts see it.
pub struct ReportedNode {
    pub public_key: Seq<u8>,
    pub hostname: Seq<char>,
    pub port: u16,
    pub active: bool,
    pub quorum_set: ReportedSet,
    pub isp: Seq<char>,
    pub country_name: Seq<char>,
    pub latest_block: u64,
    pub ledger_version: u32,
    pub minimum_fee: u64,
}

impl View for MobcoinNode {
    type V = ReportedNode;

    open spec fn view(&self) -> ReportedNode {
        ReportedNode {
            public_key: self.public_key@,
            hostname: self.hostname@,
            port: self.port,
            active: self.active,
            quorum_set: self.quorum_set@,
            isp: self.isp@,
            country_name: self.geo_data.country_name@,
            latest_block: self.latest_block,
            ledger_version: self.ledger_version,
            minimum_fee: self.minimum_fee,
        }
    }
}

/// A crawled validator as reports show it, at the given place.
pub open spec fn reported_node(node: NodeView, isp: Seq<char>, country_name: Seq<char>) -> ReportedNode {
    ReportedNode {
        public_key: node.public_key,
        hostname: node.domain,
        port: node.port,
        active: node.online,
        quorum_set: reported(node.quorum_set),
        isp,
        country_name,
        latest_block: node.latest_block,
        ledger_version: node.network_block_version,
        minimum_fee: node.minimum_fee,
    }
}

impl MobcoinNode {
    /// Shows a crawled validator as reports do, at the place that was looked
    /// up for it.
    pub fn from_crawled_node(crawled_node: &CrawledNode, location: Location) -> (shown: MobcoinNode)
        ensures
            shown@ == reported_node(crawled_node@, location.isp@, location.country_name@),
    {
        let Location { isp, country_name } = location;
        MobcoinNode {
            public_key: crawled_node.public_key,
            hostname: crawled_node.domain.clone(),
            port: crawled_node.port,
            active: crawled_node.online,
            quorum_set: QuorumSet::from_mc_quorum_set(&crawled_node.quorum_set),
            isp,
            geo_data: GeoData { country_name },
            latest_block: crawled_node.latest_block,
            ledger_version: crawled_node.network_block_version,
            minimum_fee: crawled_node.minimum_fee,
        }
    }
}

/// The validators of a crawl as reports show them.
#[derive(Debug, PartialEq, Eq)]
pub struct MobcoinFbas(pub Vec<MobcoinNode>);

/// Whether `shown` is `node` as reports show it, at a place that `locate` can
/// give for it.
pub open spec fn shown_at<F: Fn(&CrawledNode) -> Location>(
    locate: &F,
    node: CrawledNode,
    shown: MobcoinNode,
) -> bool {
    exists|location: Location| #[trigger]
        call_ensures(locate, (&node,), location) && shown@ == reported_node(
            node@,
            location.isp@,
            location.country_name@,
        )
}

impl MobcoinFbas {
    /// Shows every validator of a crawl as reports do, in the order in which
    /// they were found, each at the place that `locate` gives for it.
    pub fn create_mobcoin_fbas<F: Fn(&CrawledNode) -> Location>(crawler: &Crawler, locate: &F) -> (fbas:
        MobcoinFbas)
        requires
            forall|node: &CrawledNode| call_requires(locate, (node,)),
        ensures
            fbas.0@.len() == crawler.mobcoin_nodes@.len(),
            forall|i: int|
                0 <= i < fbas.0@.len() ==> shown_at(
                    locate,
                    crawler.mobcoin_nodes@[i],
                    #[trigger] fbas.0@[i],
                ),
    {
        let mut nodes: Vec<MobcoinNode> = Vec::new();
        let mut i: usize = 0;
        while i < crawler.mobcoin_nodes.len()
            invariant
                i <= crawler.mobcoin_nodes@.len(),
                nodes@.len() == i,
                forall|node: &CrawledNode| call_requires(locate, (node,)),
                forall|j: int|
                    0 <= j < i ==> shown_at(locate, crawler.mobcoin_nodes@[j], #[trigger] nodes@[j]),
            decreases crawler.mobcoin_nodes@.len() - i,
        {
            let node = &crawler.mobcoin_nodes[i];
            let location = locate(node);
            let ghost place = location;
            let shown = MobcoinNode::from_crawled_node(node, location);
            assert(call_ensures(locate, (&crawler.mobcoin_nodes@[i as int],), place));
            assert(shown_at(locate, crawler.mobcoin_nodes@[i as int], shown));
            nodes.push(shown);
            i += 1;
        }
        MobcoinFbas(nodes)
    }
}

/// How many validators a crawl found, and how many of them were reachable.
#[derive(Clone, Copy, Debug, PartialEq, Eq)]
pub struct NodeInfo {
    pub total_nodes: usize,
    pub reachable_nodes: usize,
}

/// What the network says its latest block is.
#[derive(Debug, PartialEq, Eq)]
pub enum LatestBlockVerdict {
    /// Not determined.
    Undetermined,
    /// The validators agree on this block.
    Consensus(u64),
    /// The validators do not agree; the text says why.
    Disagreement(String),
}

/// A verdict as contracts see it.
pub enum Verdict {
    Undetermined,
    Consensus(u64),
    Disagreement(Seq<char>),
}

impl View for LatestBlockVerdict {
    type V = Verdict;

    open spec fn view(&self) -> Verdict {
        match self {
            LatestBlockVerdict::Undetermined => Verdict::Undetermined,
            LatestBlockVerdict::Consensus(block) => Verdict::Consensus(*block),
            LatestBlockVerdict::Disagreement(reason) => Verdict::Disagreement(reason@),
        }
    }
}

/// How many of `nodes` claim `block` as their latest.
pub open spec fn claims(nodes: Seq<NodeView>, block: u64) -> nat
    decreases nodes.len(),
{
    if nodes.len() == 0 {
        0
    } else {
        claims(nodes.drop_last(), block) + if nodes.last().latest_block == block {
            1nat
        } else {
            0nat
        }
    }
}

/// Whether more of `nodes` claim `block` than any other block.
pub open spec fn leads(nodes: Seq<NodeView>, block: u64) -> bool {
    claims(nodes, block) > 0 && forall|other: u64|
        other != block ==> #[trigger] claims(nodes, other) < claims(nodes, block)
}

/// Whether `node` is one of the bootstrap peers: one of their addresses names
/// its host and port.
pub open spec fn trusted(bootstrap: Set<Seq<char>>, node: NodeView) -> bool {
    exists|uri: Seq<char>| bootstrap.contains(uri) && #[trigger] peer_address(uri) == Some(node.identity())
}

/// Whether every bootstrap peer among `nodes` claims `block`.
pub open spec fn trusted_agree(bootstrap: Set<Seq<char>>, nodes: Seq<NodeView>, block: u64) -> bool {
    forall|i: int|
        0 <= i < nodes.len() && trusted(bootstrap, #[trigger] nodes[i]) ==> nodes[i].latest_block
            == block
}

/// Whether a bootstrap peer is among `nodes`.
pub open spec fn some_trusted(bootstrap: Set<Seq<char>>, nodes: Seq<NodeView>) -> bool {
    exists|i: int| 0 <= i < nodes.len() && trusted(bootstrap, #[trigger] nodes[i])
}

/// The network's latest block, from what the validators claim.
///
/// Without validators there is none. The block that more validators claim
/// than any other is it. Where two or more blocks share the lead, the
/// bootstrap peers among the validators decide: if they all claim one block,
/// that is it; if they differ, or none of them is among the validators, there
/// is no agreement.
pub open spec fn network_latest_block(bootstrap: Set<Seq<char>>, nodes: Seq<NodeView>) -> Verdict {
    if nodes.len() == 0 {
        Verdict::Disagreement("no nodes found"@)
    } else if exists|block: u64| leads(nodes, block) {
        Verdict::Consensus(choose|block: u64| leads(nodes, block))
    } else if !some_trusted(bootstrap, nodes) {
        Verdict::Disagreement("unexpected"@)
    } else if exists|block: u64| trusted_agree(bootstrap, nodes, block) {
        Verdict::Consensus(choose|block: u64| trusted_agree(bootstrap, nodes, block))
    } else {
        Verdict::Disagreement("trusted nodes discordant"@)
    }
}

/// The network's minimum fee: the fee that every validator claims, or 0 if
/// they differ or there is none.
pub open spec fn network_minimum_fee(nodes: Seq<NodeView>) -> u64 {
    if nodes.len() > 0 && forall|i: int|
        0 <= i < nodes.len() ==> (#[trigger] nodes[i]).minimum_fee == nodes[0].minimum_fee {
        nodes[0].minimum_fee
    } else {
        0
    }
}

/// A block has claims exactly if a validator claims it, and never more than
/// there are validators.
pub proof fn lemma_claims(nodes: Seq<NodeView>, block: u64)
    ensures
        claims(nodes, block) <= nodes.len(),
        claims(nodes, block) > 0 <==> exists|i: int|
            0 <= i < nodes.len() && (#[trigger] nodes[i]).latest_block == block,
    decreases nodes.len(),
{
    if nodes.len() > 0 {
        let front = nodes.drop_last();
        lemma_claims(front, block);
        if claims(nodes, block) > 0 {
            if nodes.last().latest_block == block {
                assert(nodes[nodes.len() - 1].latest_block == block);
            } else {
                let i = choose|i: int| 0 <= i < front.len() && (#[trigger] front[i]).latest_block == block;
                assert(nodes[i].latest_block == block);
            }
        }
        if exists|i: int| 0 <= i < nodes.len() && (#[trigger] nodes[i]).latest_block == block {
            let i = choose|i: int| 0 <= i < nodes.len() && (#[trigger] nodes[i]).latest_block == block;
            if i < front.len() {
                assert(front[i].latest_block == block);
            }
        }
    }
}

/// At most one block leads.
pub proof fn lemma_one_leader(nodes: Seq<NodeView>, a: u64, b: u64)
    requires
        leads(nodes, a),
        leads(nodes, b),
    ensures
        a == b,
{
    if a != b {
        assert(claims(nodes, a) < claims(nodes, b));
        assert(claims(nodes, b) < claims(nodes, a));
    }
}

/// How many of `nodes` claim `block`.
fn count_claims(nodes: &Vec<CrawledNode>, block: u64) -> (count: usize)
    ensures
        count == claims(node_views(nodes@), block),
{
    let ghost all = node_views(nodes@);
    let mut count: usize = 0;
    let mut i: usize = 0;
    assert(all.take(0) =~= Seq::empty());
    while i < nodes.len()
        invariant
            i <= nodes@.len(),
            all == node_views(nodes@),
            count == claims(all.take(i as int), block),
            count <= i,
        decreases nodes@.len() - i,
    {
        assert(all.take(i + 1).drop_last() =~= all.take(i as int));
        if nodes[i].latest_block == block {
            count = count + 1;
        }
        i += 1;
    }
    assert(all.take(nodes@.len() as int) =~= all);
    count
}

impl Crawler {
    /// Whether `node` is one of the bootstrap peers.
    fn is_trusted(&self, node: &CrawledNode) -> (is_trusted: bool)
        ensures
            is_trusted == trusted(self.bootstrap_peers@, node@),
    {
        let ghost uris = texts(self.bootstrap_peers.items@);
        let mut k: usize = 0;
        while k < self.bootstrap_peers.items.len()
            invariant
                k <= self.bootstrap_peers.items@.len(),
                uris == texts(self.bootstrap_peers.items@),
                forall|j: int| 0 <= j < k ==> peer_address(#[trigger] uris[j]) != Some(node@.identity()),
            decreases self.bootstrap_peers.items@.len() - k,
        {
            assert(uris[k as int] == self.bootstrap_peers.items@[k as int]@);
            match parse_peer_uri(self.bootstrap_peers.items[k].as_str()) {
                Some((domain, port)) => {
                    if port == node.port && domain == node.domain {
                        assert(self.bootstrap_peers@.contains(uris[k as int]));
                        return true;
                    }
                },
                None => {},
            }
            k += 1;
        }
        proof {
            if trusted(self.bootstrap_peers@, node@) {
                let uri = choose|uri: Seq<char>|
                    self.bootstrap_peers@.contains(uri) && #[trigger] peer_address(uri) == Some(
                        node@.identity(),
                    );
                let j = choose|j: int| 0 <= j < uris.len() && uris[j] == uri;
                assert(peer_address(uris[j]) != Some(node@.identity()));
            }
        }
        false
    }
}

/// The report of a crawl.
#[derive(Debug, PartialEq, Eq)]
pub struct CrawlReport {
    /// When the crawl started.
    pub timestamp: String,
    /// How long the crawl took.
    pub duration: CrawlDuration,
    pub node_info: NodeInfo,
    pub nodes: MobcoinFbas,
    pub networks_latest_block: LatestBlockVerdict,
    pub networks_minimum_fee: u64,
}

impl CrawlReport {
    /// The network's minimum fee: the fee that every validator claims, or 0
    /// if they differ or none was found.
    pub fn determine_minimum_fee(crawler: &Crawler) -> (fee: u64)
        ensures
            fee == network_minimum_fee(crawler.nodes()),
    {
        if crawler.mobcoin_nodes.len() == 0 {
            return 0;
        }
        let first = crawler.mobcoin_nodes[0].minimum_fee;
        assert(crawler.nodes()[0].minimum_fee == first);
        let mut i: usize = 1;
        while i < crawler.mobcoin_nodes.len()
            invariant
                1 <= i <= crawler.mobcoin_nodes@.len(),
                first == crawler.nodes()[0].minimum_fee,
                forall|j: int| 0 <= j < i ==> (#[trigger] crawler.nodes()[j]).minimum_fee == first,
            decreases crawler.mobcoin_nodes@.len() - i,
        {
            if crawler.mobcoin_nodes[i].minimum_fee != first {
                assert(crawler.nodes()[i as int].minimum_fee != first);
                return 0;
            }
            i += 1;
        }
        first
    }

    /// The network's latest block, from what the validators claim; see
    /// `network_latest_block`.
    pub fn determine_network_block_height(crawler: &Crawler) -> (verdict: LatestBlockVerdict)
        ensures
            verdict@ == network_latest_block(crawler.bootstrap_peers@, crawler.nodes()),
    {
        let ghost nodes = crawler.nodes();
        let ghost bootstrap = crawler.bootstrap_peers@;
        let n = crawler.mobcoin_nodes.len();
        if n == 0 {
            return LatestBlockVerdict::Disagreement(String::from_str("no nodes found"));
        }
        // The block with the most claims, the first such in the order of the validators.
        let mut best_block = crawler.mobcoin_nodes[0].latest_block;
        let mut best = count_claims(&crawler.mobcoin_nodes, best_block);
        proof {
            lemma_claims(nodes, best_block);
            assert(nodes[0].latest_block == best_block);
        }
        let mut i: usize = 1;
        while i < n
            invariant
                1 <= i <= n,
                n == crawler.mobcoin_nodes@.len(),
                nodes == crawler.nodes(),
                best == claims(nodes, best_block),
                best > 0,
                forall|j: int| 0 <= j < i ==> claims(nodes, (#[trigger] nodes[j]).latest_block) <= best,
            decreases n - i,
        {
            let block = crawler.mobcoin_nodes[i].latest_block;
            assert(nodes[i as int].latest_block == block);
            let count = count_claims(&crawler.mobcoin_nodes, block);
            if count > best {
                best = count;
                best_block = block;
            }
            i += 1;
        }
        // Whether another block has as many claims.
        let mut tie = false;
        let mut j: usize = 0;
        while j < n
            invariant
                j <= n,
                n == crawler.mobcoin_nodes@.len(),
                nodes == crawler.nodes(),
                best == claims(nodes, best_block),
                tie <==> exists|k: int|
                    0 <= k < j && (#[trigger] nodes[k]).latest_block != best_block && claims(
                        nodes,
                        nodes[k].latest_block,
                    ) == best,
            decreases n - j,
        {
            let block = crawler.mobcoin_nodes[j].latest_block;
            assert(nodes[j as int].latest_block == block);
            if block != best_block {
                let count = count_claims(&crawler.mobcoin_nodes, block);
                if count == best {
                    tie = true;
                }
            }
            j += 1;
        }
        proof {
            assert forall|other: u64| #[trigger] claims(nodes, other) <= best by {
                lemma_claims(nodes, other);
                if claims(nodes, other) > 0 {
                    let k = choose|k: int| 0 <= k < nodes.len() && (#[trigger] nodes[k]).latest_block == other;
                    assert(claims(nodes, nodes[k].latest_block) <= best);
                }
            }
        }
        if !tie {
            proof {
                assert forall|other: u64| other != best_block implies #[trigger] claims(nodes, other)
                    < claims(nodes, best_block) by {
                    lemma_claims(nodes, other);
                    if claims(nodes, other) > 0 {
                        let k = choose|k: int|
                            0 <= k < nodes.len() && (#[trigger] nodes[k]).latest_block == other;
                        assert(claims(nodes, nodes[k].latest_block) <= best);
                    }
                }
                assert(leads(nodes, best_block));
                let chosen = choose|block: u64| leads(nodes, block);
                lemma_one_leader(nodes, chosen, best_block);
            }
            return LatestBlockVerdict::Consensus(best_block);
        }
        proof {
            let k = choose|k: int|
                0 <= k < n && (#[trigger] nodes[k]).latest_block != best_block && claims(
                    nodes,
                    nodes[k].latest_block,
                ) == best;
            let rival = nodes[k].latest_block;
            assert forall|block: u64| !leads(nodes, block) by {
                if leads(nodes, block) {
                    if block == best_block {
                        assert(claims(nodes, rival) < claims(nodes, block));
                    } else {
                        assert(claims(nodes, best_block) < claims(nodes, block));
                        assert(claims(nodes, block) <= best);
                    }
                }
            }
        }
        // Two blocks share the lead: the bootstrap peers decide.
        let mut trusted_block: Option<u64> = None;
        let mut t: usize = 0;
        while t < n
            invariant
                t <= n,
                n == crawler.mobcoin_nodes@.len(),
                nodes == crawler.nodes(),
                bootstrap == crawler.bootstrap_peers@,
                n > 0,
                forall|block: u64| !leads(nodes, block),
                match trusted_block {
                    Some(block) => (exists|k: int|
                        0 <= k < t && trusted(bootstrap, #[trigger] nodes[k]) && nodes[k].latest_block
                            == block) && forall|k: int|
                        0 <= k < t && trusted(bootstrap, #[trigger] nodes[k])
                            ==> nodes[k].latest_block == block,
                    None => forall|k: int| 0 <= k < t ==> !trusted(bootstrap, #[trigger] nodes[k]),
                },
            decreases n - t,
        {
            let node = &crawler.mobcoin_nodes[t];
            assert(nodes[t as int] == node@);
            if crawler.is_trusted(node) {
                match trusted_block {
                    Some(block) => {
                        if block != node.latest_block {
                            proof {
                                let k = choose|k: int|
                                    0 <= k < t && trusted(bootstrap, #[trigger] nodes[k])
                                        && nodes[k].latest_block == block;
                                assert(some_trusted(bootstrap, nodes));
                                assert forall|agreed: u64| !trusted_agree(bootstrap, nodes, agreed) by {
                                    if trusted_agree(bootstrap, nodes, agreed) {
                                        assert(nodes[k].latest_block == agreed);
                                        assert(nodes[t as int].latest_block == agreed);
                                    }
                                }
                            }
                            return LatestBlockVerdict::Disagreement(
                                String::from_str("trusted nodes discordant"),
                            );
                        }
                    },
                    None => {
                        trusted_block = Some(node.latest_block);
                    },
                }
            }
            t += 1;
        }
        match trusted_block {
            Some(block) => {
                proof {
                    let k = choose|k: int|
                        0 <= k < n && trusted(bootstrap, #[trigger] nodes[k]) && nodes[k].latest_block
                            == block;
                    assert(some_trusted(bootstrap, nodes));
                    assert(trusted_agree(bootstrap, nodes, block));
                    let chosen = choose|agreed: u64| trusted_agree(bootstrap, nodes, agreed);
                    assert(nodes[k].latest_block == chosen);
                }
                LatestBlockVerdict::Consensus(block)
            },
            None => LatestBlockVerdict::Disagreement(String::from_str("unexpected")),
        }
    }

    /// The report of a crawl: when it ran and how long, how many validators
    /// it found and how many it reached, the validators as shown in `fbas`,
    /// and the network's latest block and minimum fee.
    pub fn create_crawl_report(fbas: MobcoinFbas, crawler: &Crawler) -> (report: CrawlReport)
        ensures
            report.timestamp@ == crawler.crawl_time@,
            report.duration == crawler.crawl_duration,
            report.node_info.total_nodes == fbas.0@.len(),
            report.node_info.reachable_nodes == crawler.reachable_nodes,
            report.nodes == fbas,
            report.networks_latest_block@ == network_latest_block(
                crawler.bootstrap_peers@,
                crawler.nodes(),
            ),
            report.networks_minimum_fee == network_minimum_fee(crawler.nodes()),
    {
        CrawlReport {
            timestamp: crawler.crawl_time.clone(),
            duration: crawler.crawl_duration,
            node_info: NodeInfo {
                total_nodes: fbas.0.len(),
                reachable_nodes: crawler.reachable_nodes,
            },
            nodes: fbas,
            networks_latest_block: CrawlReport::determine_network_block_height(crawler),
            networks_minimum_fee: CrawlReport::determine_minimum_fee(crawler),
        }
    }
}

} // verus!
