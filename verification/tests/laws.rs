use mc_crawler::crawl::core_types::{CrawledNode, Crawler};
use mc_crawler::crawl::crawler::GetLatestMsgResponse;
use mc_crawler::crawl::net::{LastBlockInfoResponse, LatestMsg, ProbeOutcome, ProbeReply};
use mc_crawler::quorum::{McQuorumSet, NodeId, PublicKey, QuorumSetMember};
use mc_crawler::uri::{parse_peer_uri, peer_uri};

fn named(responder_id: &str, key: u8) -> QuorumSetMember {
    QuorumSetMember::Node(NodeId {
        responder_id: String::from(responder_id),
        public_key: PublicKey { bytes: [key; 32] },
    })
}

fn answer(set: McQuorumSet, block: u64) -> ProbeOutcome {
    ProbeOutcome::Replied(ProbeReply {
        latest_msg: Some(LatestMsg {
            response: GetLatestMsgResponse { payload: vec![7] },
            decoded: Some(set),
        }),
        last_block_info: Some(LastBlockInfoResponse {
            index: block,
            network_block_version: 2,
            minimum_fee: 400,
        }),
    })
}

/// A network of five validators with a cycle, a nested set two levels deep,
/// one validator that is down and one that cannot be connected to.
fn network(peer: &String) -> ProbeOutcome {
    if peer == "mc://a.com:1" {
        answer(McQuorumSet::new(2, vec![named("b.com:2", 2), named("c.com:3", 3)]), 10)
    } else if peer == "mc://b.com:2" {
        answer(
            McQuorumSet::new(
                1,
                vec![
                    named("a.com:1", 1),
                    QuorumSetMember::InnerSet(McQuorumSet::new(
                        1,
                        vec![QuorumSetMember::InnerSet(McQuorumSet::new(
                            1,
                            vec![named("d.com:4", 4), named("not a peer", 9)],
                        ))],
                    )),
                ],
            ),
            10,
        )
    } else if peer == "mc://c.com:3" {
        ProbeOutcome::Replied(ProbeReply { latest_msg: None, last_block_info: None })
    } else if peer == "mc://d.com:4" {
        answer(McQuorumSet::new(1, vec![named("e.com:5", 5), named("a.com:1", 1)]), 11)
    } else {
        ProbeOutcome::ChannelFailed
    }
}

fn crawl_in_order(order: &[&str]) -> Crawler {
    let mut crawler = Crawler::new(vec![String::from("mc://a.com:1")]);
    let mut progress = true;
    while progress {
        progress = false;
        for uri in order {
            let peer = String::from(*uri);
            if crawler.record_probe(&peer, network(&peer)) {
                progress = true;
            }
        }
    }
    crawler
}

fn sorted_uris(crawler: &Crawler) -> Vec<String> {
    let mut uris = crawler.crawled.to_vec();
    uris.sort();
    uris
}

fn sorted_nodes(crawler: &Crawler) -> Vec<(String, u16, bool, u64, McQuorumSet)> {
    let mut nodes: Vec<(String, u16, bool, u64, McQuorumSet)> = crawler
        .mobcoin_nodes
        .iter()
        .map(|n| (n.domain.clone(), n.port, n.online, n.latest_block, n.quorum_set.clone()))
        .collect();
    nodes.sort_by(|a, b| (&a.0, a.1).cmp(&(&b.0, b.1)));
    nodes
}

#[test]
fn at_rest_every_named_peer_was_probed() {
    let mut crawler = Crawler::new(vec![String::from("mc://a.com:1")]);
    assert!(crawler.crawl_network(&network, usize::MAX));
    assert_eq!(crawler.mobcoin_nodes.len(), 4);
    let mut named_peers = 0;
    for node in &crawler.mobcoin_nodes {
        for member in node.quorum_set.nodes() {
            let uri = peer_uri(&member.responder_id);
            match parse_peer_uri(&uri) {
                Some((domain, port)) => {
                    named_peers += 1;
                    assert!(crawler.crawled.contains(&uri));
                    assert!(crawler.probed(&domain, port));
                }
                None => assert!(!crawler.crawled.contains(&uri)),
            }
        }
    }
    assert_eq!(named_peers, 6);
    assert!(crawler.is_well_formed());
}

#[test]
fn nothing_is_forgotten_between_steps() {
    let mut crawler = Crawler::new(vec![String::from("mc://a.com:1")]);
    let mut probed_before: Vec<String> = Vec::new();
    let mut found_before: Vec<CrawledNode> = Vec::new();
    while !crawler.to_crawl.is_empty() {
        let peer = crawler.to_crawl.to_vec()[0].clone();
        assert!(crawler.record_probe(&peer, network(&peer)));
        for uri in &probed_before {
            assert!(crawler.crawled.contains(uri));
        }
        assert_eq!(crawler.crawled.len(), probed_before.len() + 1);
        assert!(crawler.crawled.contains(&peer));
        assert!(!crawler.to_crawl.contains(&peer));
        assert!(crawler.mobcoin_nodes.len() >= found_before.len());
        assert_eq!(&crawler.mobcoin_nodes[..found_before.len()], &found_before[..]);
        for uri in crawler.to_crawl.to_vec() {
            assert!(!crawler.crawled.contains(&uri));
        }
        let online = crawler.mobcoin_nodes.iter().filter(|n| n.online).count();
        assert_eq!(crawler.reachable_nodes, online);
        probed_before = crawler.crawled.to_vec();
        found_before = crawler.mobcoin_nodes.clone();
    }
    assert_eq!(probed_before.len(), 5);
}

#[test]
fn the_order_of_probes_does_not_matter() {
    let forward = crawl_in_order(&[
        "mc://a.com:1",
        "mc://b.com:2",
        "mc://c.com:3",
        "mc://d.com:4",
        "mc://e.com:5",
    ]);
    let backward = crawl_in_order(&[
        "mc://e.com:5",
        "mc://d.com:4",
        "mc://c.com:3",
        "mc://b.com:2",
        "mc://a.com:1",
    ]);
    let mut by_rounds = Crawler::new(vec![String::from("mc://a.com:1")]);
    assert!(by_rounds.crawl_network(&network, usize::MAX));
    assert!(forward.to_crawl.is_empty());
    assert!(backward.to_crawl.is_empty());
    assert_eq!(
        sorted_uris(&forward),
        vec![
            String::from("mc://a.com:1"),
            String::from("mc://b.com:2"),
            String::from("mc://c.com:3"),
            String::from("mc://d.com:4"),
            String::from("mc://e.com:5"),
        ]
    );
    assert_eq!(sorted_uris(&forward), sorted_uris(&backward));
    assert_eq!(sorted_uris(&forward), sorted_uris(&by_rounds));
    assert_eq!(sorted_nodes(&forward), sorted_nodes(&backward));
    assert_eq!(sorted_nodes(&forward), sorted_nodes(&by_rounds));
    assert_ne!(
        forward.mobcoin_nodes.iter().map(|n| n.domain.clone()).collect::<Vec<String>>(),
        backward.mobcoin_nodes.iter().map(|n| n.domain.clone()).collect::<Vec<String>>()
    );
    assert_eq!(forward.reachable_nodes, 3);
    assert_eq!(backward.reachable_nodes, 3);
}

#[test]
fn two_addresses_of_one_host_count_twice_but_are_held_once() {
    let mut crawler = Crawler::new(vec![String::from("mc://a.com:1"), String::from("mc://a.com:1/x")]);
    let up = |_peer: &String| -> ProbeOutcome { answer(McQuorumSet::empty(), 1) };
    assert!(crawler.crawl_network(&up, usize::MAX));
    assert_eq!(crawler.crawled.len(), 2);
    assert_eq!(crawler.mobcoin_nodes.len(), 1);
    assert_eq!(crawler.reachable_nodes, 2);
    assert!(crawler.is_well_formed());
}
