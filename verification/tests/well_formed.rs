use mc_crawler::crawl::core_types::{CrawlDuration, CrawledNode, Crawler};
use mc_crawler::crawl::net::ProbeOutcome;
use mc_crawler::quorum::{McQuorumSet, NodeId, PublicKey, QuorumSetMember};
use mc_crawler::uri_set::UriSet;

fn uris(items: &[&str]) -> UriSet {
    UriSet { items: items.iter().map(|item| String::from(*item)).collect() }
}

fn node(domain: &str, port: u16, names: &[&str]) -> CrawledNode {
    let members = names
        .iter()
        .map(|name| {
            QuorumSetMember::Node(NodeId {
                responder_id: String::from(*name),
                public_key: PublicKey { bytes: [1; 32] },
            })
        })
        .collect();
    CrawledNode {
        public_key: PublicKey::unknown(),
        domain: String::from(domain),
        port,
        quorum_set: McQuorumSet::new(1, vec![QuorumSetMember::InnerSet(McQuorumSet::new(1, members))]),
        online: true,
        latest_block: 0,
        network_block_version: 0,
        minimum_fee: 0,
    }
}

fn crawler(bootstrap: &[&str], to_crawl: &[&str], crawled: &[&str], nodes: Vec<CrawledNode>) -> Crawler {
    Crawler {
        bootstrap_peers: uris(bootstrap),
        mobcoin_nodes: nodes,
        to_crawl: uris(to_crawl),
        crawled: uris(crawled),
        reachable_nodes: 0,
        crawl_duration: CrawlDuration { secs: 0, nanos: 0 },
        crawl_time: String::new(),
    }
}

#[test]
fn a_set_with_an_address_twice_is_not_well_formed() {
    assert!(uris(&[]).is_well_formed());
    assert!(uris(&["a", "b", "c"]).is_well_formed());
    assert!(!uris(&["a", "b", "a"]).is_well_formed());
    assert!(!uris(&["b", "b"]).is_well_formed());
}

#[test]
fn a_new_crawl_is_well_formed() {
    assert!(Crawler::default().is_well_formed());
    assert!(Crawler::new(vec![String::from("foo"), String::from("mc://a.com:1")]).is_well_formed());
}

#[test]
fn a_crawl_stays_well_formed() {
    let mut crawler = Crawler::new(vec![String::from("mc://a.com:1")]);
    let probe = |peer: &String| -> ProbeOutcome {
        if peer == "mc://a.com:1" {
            let first = String::from("mc://a.com:1");
            let seen = node("a.com", 1, &["b.com:2", "c.com"]);
            let mut scratch = Crawler::default();
            scratch.handle_discovered_node(&first, seen.clone());
            assert!(scratch.is_well_formed());
            ProbeOutcome::Replied(mc_crawler::crawl::net::ProbeReply {
                latest_msg: Some(mc_crawler::crawl::net::LatestMsg {
                    response: mc_crawler::crawl::crawler::GetLatestMsgResponse { payload: vec![1] },
                    decoded: Some(seen.quorum_set),
                }),
                last_block_info: None,
            })
        } else {
            ProbeOutcome::ChannelFailed
        }
    };
    assert!(!crawler.crawl_network(&probe, 1));
    assert!(crawler.is_well_formed());
    assert!(crawler.crawl_network(&probe, 5));
    assert!(crawler.is_well_formed());
    assert_eq!(crawler.crawled.len(), 2);
}

#[test]
fn a_well_formed_crawl_put_together_by_hand() {
    let good = crawler(
        &["mc://a.com:1", "nothing"],
        &["mc://b.com:2"],
        &["mc://a.com:1"],
        vec![node("a.com", 1, &["b.com:2", "a.com:1", "no port"])],
    );
    assert!(good.is_well_formed());
    assert!(good.knows(&String::from("mc://b.com:2")));
    assert!(!good.knows(&String::from("mc://c.com:3")));
    assert!(good.probed(&String::from("a.com"), 1));
    assert!(!good.probed(&String::from("b.com"), 2));
    assert!(good.follows_quorum_set(&good.mobcoin_nodes[0].quorum_set));
    assert!(!good.follows_quorum_set(&node("x", 1, &["c.com:3"]).quorum_set));
}

#[test]
fn what_breaks_a_crawl() {
    // An address both waits and was probed.
    assert!(!crawler(&[], &["mc://a.com:1"], &["mc://a.com:1"], vec![]).is_well_formed());
    // An address that names no peer waits.
    assert!(!crawler(&[], &["a.com:1"], &[], vec![]).is_well_formed());
    // An address that names no peer was probed.
    assert!(!crawler(&[], &[], &["mc://a.com"], vec![]).is_well_formed());
    // A bootstrap peer is not known.
    assert!(!crawler(&["mc://a.com:1"], &[], &[], vec![]).is_well_formed());
    // Two validators share host and port.
    assert!(!crawler(&[], &[], &["mc://a.com:1"], vec![node("a.com", 1, &[]), node("a.com", 1, &[])])
        .is_well_formed());
    // A validator whose address was never probed.
    assert!(!crawler(&[], &["mc://a.com:1"], &[], vec![node("a.com", 1, &[])]).is_well_formed());
    // A quorum set names a peer that is not known.
    assert!(!crawler(&[], &[], &["mc://a.com:1"], vec![node("a.com", 1, &["b.com:2"])]).is_well_formed());
    // More validators counted online than addresses probed.
    let mut counted = crawler(&[], &[], &["mc://a.com:1"], vec![]);
    counted.reachable_nodes = 2;
    assert!(!counted.is_well_formed());
    counted.reachable_nodes = 1;
    assert!(counted.is_well_formed());
    // An address is held twice.
    assert!(!crawler(&[], &["mc://a.com:1", "mc://a.com:1"], &[], vec![]).is_well_formed());
}
