//! A test of what holds of a crawl between any two steps, for callers that
//! have put a crawl together by hand.

use vstd::prelude::*;
use vstd::string::*;
use crate::crawl::core_types::{distinct_identities, targets, Crawler};
use crate::quorum::{node_refs, McQuorumSet};
use crate::uri::{is_peer_uri, parse_peer_uri, peer_address, peer_uri, peer_uri_of};
use crate::uri_set::{texts, UriSet};

verus! {

/// Whether every address of `set` names a peer.
fn all_name_peers(set: &UriSet) -> (ok: bool)
    ensures
        ok == forall|uri: Seq<char>| #[trigger] set@.contains(uri) ==> peer_address(uri).is_some(),
{
    let ghost all = texts(set.items@);
    let mut i: usize = 0;
    while i < set.items.len()
        invariant
            i <= set.items@.len(),
            all == texts(set.items@),
            forall|j: int| 0 <= j < i ==> peer_address(#[trigger] all[j]).is_some(),
        decreases set.items@.len() - i,
    {
        assert(all[i as int] == set.items@[i as int]@);
        if !is_peer_uri(set.items[i].as_str()) {
            assert(set@.contains(all[i as int]));
            return false;
        }
        i += 1;
    }
    assert forall|uri: Seq<char>| #[trigger] set@.contains(uri) implies peer_address(uri).is_some() by {
        let j = choose|j: int| 0 <= j < all.len() && all[j] == uri;
        assert(peer_address(all[j]).is_some());
    }
    true
}

/// Whether no address is in both sets.
fn share_nothing(a: &UriSet, b: &UriSet) -> (ok: bool)
    ensures
        ok == a@.disjoint(b@),
{
    let ghost all = texts(a.items@);
    let mut i: usize = 0;
    while i < a.items.len()
        invariant
            i <= a.items@.len(),
            all == texts(a.items@),
            forall|j: int| 0 <= j < i ==> !b@.contains(#[trigger] all[j]),
        decreases a.items@.len() - i,
    {
        assert(all[i as int] == a.items@[i as int]@);
        if b.contains(&a.items[i]) {
            assert(a@.contains(all[i as int]));
            return false;
        }
        i += 1;
    }
    assert forall|uri: Seq<char>| !(a@.contains(uri) && b@.contains(uri)) by {
        if a@.contains(uri) {
            let j = choose|j: int| 0 <= j < all.len() && all[j] == uri;
            assert(!b@.contains(all[j]));
        }
    }
    true
}

impl Crawler {
    /// Whether `uri` waits to be probed or has been probed.
    pub fn knows(&self, uri: &String) -> (known: bool)
        ensures
            known == self.known(uri@),
    {
        self.to_crawl.contains(uri) || self.crawled.contains(uri)
    }

    /// Whether every bootstrap address that names a peer is known.
    fn bootstrap_is_known(&self) -> (ok: bool)
        ensures
            ok == forall|uri: Seq<char>|
                #[trigger] self.bootstrap_peers@.contains(uri) && peer_address(uri).is_some()
                    ==> self.known(uri),
    {
        let ghost all = texts(self.bootstrap_peers.items@);
        let mut i: usize = 0;
        while i < self.bootstrap_peers.items.len()
            invariant
                i <= self.bootstrap_peers.items@.len(),
                all == texts(self.bootstrap_peers.items@),
                forall|j: int|
                    0 <= j < i && peer_address(#[trigger] all[j]).is_some() ==> self.known(all[j]),
            decreases self.bootstrap_peers.items@.len() - i,
        {
            assert(all[i as int] == self.bootstrap_peers.items@[i as int]@);
            let peer = &self.bootstrap_peers.items[i];
            if is_peer_uri(peer.as_str()) && !self.knows(peer) {
                assert(self.bootstrap_peers@.contains(all[i as int]));
                return false;
            }
            i += 1;
        }
        assert forall|uri: Seq<char>|
            #[trigger] self.bootstrap_peers@.contains(uri) && peer_address(
                uri,
            ).is_some() implies self.known(uri) by {
            let j = choose|j: int| 0 <= j < all.len() && all[j] == uri;
            assert(peer_address(all[j]).is_some());
        }
        true
    }

    /// Whether no two validators share host and port.
    fn identities_differ(&self) -> (ok: bool)
        ensures
            ok == distinct_identities(self.nodes()),
    {
        let ghost nodes = self.nodes();
        let n = self.mobcoin_nodes.len();
        let mut i: usize = 0;
        while i < n
            invariant
                i <= n,
                n == self.mobcoin_nodes@.len(),
                nodes == self.nodes(),
                forall|a: int, b: int|
                    0 <= a < b < i ==> (#[trigger] nodes[a]).identity() != (#[trigger] nodes[b]).identity(),
            decreases n - i,
        {
            let mut j: usize = 0;
            while j < i
                invariant
                    j <= i < n,
                    n == self.mobcoin_nodes@.len(),
                    nodes == self.nodes(),
                    forall|a: int| 0 <= a < j ==> (#[trigger] nodes[a]).identity() != nodes[i as int].identity(),
                decreases i - j,
            {
                let first = &self.mobcoin_nodes[j];
                let second = &self.mobcoin_nodes[i];
                if first.port == second.port && first.domain == second.domain {
                    assert(nodes[j as int].identity() == nodes[i as int].identity());
                    return false;
                }
                j += 1;
            }
            i += 1;
        }
        assert forall|a: int, b: int|
            0 <= a < nodes.len() && 0 <= b < nodes.len() && a != b implies (#[trigger] nodes[a]).identity()
            != (#[trigger] nodes[b]).identity() by {
            if a < b {
            } else {
                assert(nodes[b].identity() != nodes[a].identity());
            }
        }
        true
    }

    /// Whether an address with this host and port has been probed.
    pub fn probed(&self, domain: &String, port: u16) -> (probed: bool)
        ensures
            probed == self.probed_at((domain@, port)),
    {
        let ghost all = texts(self.crawled.items@);
        let mut i: usize = 0;
        while i < self.crawled.items.len()
            invariant
                i <= self.crawled.items@.len(),
                all == texts(self.crawled.items@),
                forall|j: int| 0 <= j < i ==> peer_address(#[trigger] all[j]) != Some((domain@, port)),
            decreases self.crawled.items@.len() - i,
        {
            assert(all[i as int] == self.crawled.items@[i as int]@);
            match parse_peer_uri(self.crawled.items[i].as_str()) {
                Some((host, at)) => {
                    if at == port && host == *domain {
                        assert(self.crawled@.contains(all[i as int]));
                        return true;
                    }
                },
                None => {},
            }
            i += 1;
        }
        proof {
            if self.probed_at((domain@, port)) {
                let uri = choose|uri: Seq<char>|
                    self.crawled@.contains(uri) && #[trigger] peer_address(uri) == Some((domain@, port));
                let j = choose|j: int| 0 <= j < all.len() && all[j] == uri;
                assert(peer_address(all[j]) != Some((domain@, port)));
            }
        }
        false
    }

    /// Whether every address that `quorum_set` leads to is known.
    pub fn follows_quorum_set(&self, quorum_set: &McQuorumSet) -> (ok: bool)
        ensures
            ok == self.follows(quorum_set@),
    {
        let members = quorum_set.nodes();
        let ghost refs = node_refs(members@);
        let mut k: usize = 0;
        while k < members.len()
            invariant
                k <= members@.len(),
                refs == node_refs(members@),
                refs == quorum_set@.nodes(),
                forall|j: int|
                    0 <= j < k && peer_address(peer_uri_of(#[trigger] refs[j].responder_id)).is_some()
                        ==> self.known(peer_uri_of(refs[j].responder_id)),
            decreases members@.len() - k,
        {
            let address = peer_uri(members[k].responder_id.as_str());
            assert(address@ == peer_uri_of(refs[k as int].responder_id));
            if is_peer_uri(address.as_str()) && !self.knows(&address) {
                assert(targets(quorum_set@).contains(address@));
                return false;
            }
            k += 1;
        }
        assert forall|uri: Seq<char>| #[trigger] targets(quorum_set@).contains(uri) implies self.known(
            uri,
        ) by {
            let j = choose|j: int| 0 <= j < refs.len() && peer_uri_of(#[trigger] refs[j].responder_id) == uri;
            assert(self.known(peer_uri_of(refs[j].responder_id)));
        }
        true
    }

    /// Whether each validator's host and port are those of a probed address,
    /// and every address that its quorum set leads to is known.
    fn nodes_are_accounted_for(&self) -> (ok: bool)
        ensures
            ok == ((forall|i: int|
                0 <= i < self.nodes().len() ==> self.probed_at(#[trigger] self.nodes()[i].identity()))
                && (forall|i: int|
                0 <= i < self.nodes().len() ==> self.follows(#[trigger] self.nodes()[i].quorum_set))),
    {
        let ghost nodes = self.nodes();
        let mut i: usize = 0;
        while i < self.mobcoin_nodes.len()
            invariant
                i <= self.mobcoin_nodes@.len(),
                nodes == self.nodes(),
                forall|j: int| 0 <= j < i ==> self.probed_at(#[trigger] nodes[j].identity()),
                forall|j: int| 0 <= j < i ==> self.follows(#[trigger] nodes[j].quorum_set),
            decreases self.mobcoin_nodes@.len() - i,
        {
            let node = &self.mobcoin_nodes[i];
            assert(nodes[i as int] == node@);
            if !self.probed(&node.domain, node.port) {
                assert(!self.probed_at(nodes[i as int].identity()));
                return false;
            }
            if !self.follows_quorum_set(&node.quorum_set) {
                assert(!self.follows(nodes[i as int].quorum_set));
                return false;
            }
            i += 1;
        }
        true
    }

    /// Whether the crawl is well formed: whether it is in a state that a
    /// crawl can be in between two steps.
    pub fn is_well_formed(&self) -> (ok: bool)
        ensures
            ok == self.wf(),
    {
        if !(self.bootstrap_peers.is_well_formed() && self.to_crawl.is_well_formed()
            && self.crawled.is_well_formed()) {
            return false;
        }
        share_nothing(&self.to_crawl, &self.crawled) && all_name_peers(&self.to_crawl)
            && all_name_peers(&self.crawled) && self.bootstrap_is_known() && self.identities_differ()
            && self.nodes_are_accounted_for() && self.reachable_nodes <= self.crawled.len()
    }
}

} // verus!
