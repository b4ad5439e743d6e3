use mc_crawler::crawl::core_types::{CrawlDuration, CrawledNode, Crawler};
use mc_crawler::io::report::{
    key_to_base64, CrawlReport, GeoData, LatestBlockVerdict, Location, MobcoinFbas, MobcoinNode,
    NodeInfo, QuorumSet,
};
use mc_crawler::quorum::{McQuorumSet, NodeId, PublicKey, QuorumSetMember};
use mc_crawler::stats::Database;
use mc_crawler::uri_set::UriSet;

fn test_node_id(i: u8) -> NodeId {
    NodeId {
        responder_id: format!("node{}.test.mobilecoin.com:8443", i),
        public_key: PublicKey { bytes: [i + 1; 32] },
    }
}

fn encode(key: &PublicKey) -> String {
    base64::Engine::encode(&base64::engine::general_purpose::STANDARD, key.bytes)
}

fn uris(items: &[&str]) -> UriSet {
    let mut set = UriSet::new();
    for item in items {
        set.insert(String::from(*item));
    }
    set
}

fn claiming(domain: &str, port: u16, latest_block: u64, minimum_fee: u64) -> CrawledNode {
    CrawledNode {
        public_key: PublicKey::unknown(),
        domain: String::from(domain),
        port,
        quorum_set: McQuorumSet::new(0, vec![]),
        online: false,
        latest_block,
        network_block_version: 42,
        minimum_fee,
    }
}

fn crawler_with(bootstrap: &[&str], nodes: Vec<CrawledNode>) -> Crawler {
    Crawler {
        bootstrap_peers: uris(bootstrap),
        mobcoin_nodes: nodes,
        to_crawl: uris(bootstrap),
        crawled: UriSet::new(),
        reachable_nodes: 2,
        crawl_duration: CrawlDuration { secs: 0, nanos: 0 },
        crawl_time: String::default(),
    }
}

#[test]
fn mc_qset_without_inner_to_sbeat_qset() {
    let node_0 = test_node_id(0);
    let node_1 = test_node_id(1);
    let mc_qset = McQuorumSet::new(
        2,
        vec![
            QuorumSetMember::Node(node_0.clone()),
            QuorumSetMember::Node(node_1.clone()),
        ],
    );
    let validators = vec![encode(&node_0.public_key), encode(&node_1.public_key)];
    let inner_quorum_sets = vec![];
    let expected = QuorumSet {
        threshold: 2,
        validators,
        inner_quorum_sets,
    };
    let actual = QuorumSet::from_mc_quorum_set(&mc_qset);
    assert!(mc_qset.is_valid());
    assert_eq!(expected, actual);
}

#[test]
fn mc_qset_with_inner_to_sbeat_qset() {
    let node_0 = test_node_id(0);
    let node_1 = test_node_id(1);
    let node_2 = test_node_id(2);
    let node_3 = test_node_id(3);
    let node_4 = test_node_id(4);
    let mc_qset = McQuorumSet::new(
        2,
        vec![
            QuorumSetMember::Node(node_0.clone()),
            QuorumSetMember::Node(node_1.clone()),
            QuorumSetMember::InnerSet(McQuorumSet::new(
                2,
                vec![
                    QuorumSetMember::Node(node_2.clone()),
                    QuorumSetMember::Node(node_3.clone()),
                ],
            )),
            QuorumSetMember::InnerSet(McQuorumSet::new(
                1,
                vec![QuorumSetMember::Node(node_4.clone())],
            )),
        ],
    );
    let validators = vec![encode(&node_0.public_key), encode(&node_1.public_key)];
    let inner_quorum_sets = vec![
        QuorumSet {
            threshold: 2,
            validators: vec![encode(&node_2.public_key), encode(&node_3.public_key)],
            inner_quorum_sets: Vec::default(),
        },
        QuorumSet {
            threshold: 1,
            validators: vec![encode(&node_4.public_key)],
            inner_quorum_sets: Vec::default(),
        },
    ];
    let expected = QuorumSet {
        threshold: 2,
        validators,
        inner_quorum_sets,
    };
    let actual = QuorumSet::from_mc_quorum_set(&mc_qset);
    assert!(mc_qset.is_valid());
    assert_eq!(expected, actual);
}

#[test]
fn a_reported_quorum_set_keeps_order_and_nesting() {
    let mc_qset = McQuorumSet::new(
        3,
        vec![
            QuorumSetMember::InnerSet(McQuorumSet::new(
                1,
                vec![
                    QuorumSetMember::InnerSet(McQuorumSet::new(
                        1,
                        vec![QuorumSetMember::Node(test_node_id(9))],
                    )),
                    QuorumSetMember::Node(test_node_id(8)),
                ],
            )),
            QuorumSetMember::Node(test_node_id(1)),
            QuorumSetMember::InnerSet(McQuorumSet::new(0, vec![])),
            QuorumSetMember::Node(test_node_id(0)),
        ],
    );
    let expected = QuorumSet {
        threshold: 3,
        validators: vec![encode(&test_node_id(1).public_key), encode(&test_node_id(0).public_key)],
        inner_quorum_sets: vec![
            QuorumSet {
                threshold: 1,
                validators: vec![encode(&test_node_id(8).public_key)],
                inner_quorum_sets: vec![QuorumSet {
                    threshold: 1,
                    validators: vec![encode(&test_node_id(9).public_key)],
                    inner_quorum_sets: vec![],
                }],
            },
            QuorumSet { threshold: 0, validators: vec![], inner_quorum_sets: vec![] },
        ],
    };
    assert_eq!(QuorumSet::from_mc_quorum_set(&mc_qset), expected);
}

#[test]
fn key_to_base64_uses_the_standard_alphabet_with_padding() {
    assert_eq!(
        key_to_base64(&PublicKey::unknown()),
        "AAAAAAAAAAAAAAAAAAAAAAAAAAAAAAAAAAAAAAAAAAA="
    );
    assert_eq!(
        key_to_base64(&PublicKey { bytes: [255; 32] }),
        "//////////////////////////////////////////8="
    );
    let mut bytes = [0u8; 32];
    for i in 0..32 {
        bytes[i] = i as u8;
    }
    assert_eq!(
        key_to_base64(&PublicKey { bytes }),
        "AAECAwQFBgcICQoLDA0ODxAREhMUFRYXGBkaGxwdHh8="
    );
}

#[test]
fn crawled_node_to_mobcoin_node() {
    let node_0 = test_node_id(0);
    let node_1 = test_node_id(1);
    let crawled_node = CrawledNode {
        public_key: PublicKey::unknown(),
        domain: "test.foo.com".to_string(),
        port: 443,
        quorum_set: McQuorumSet::new(
            2,
            vec![
                QuorumSetMember::Node(node_0.clone()),
                QuorumSetMember::Node(node_1.clone()),
            ],
        ),
        online: false,
        latest_block: 4242,
        network_block_version: 42,
        minimum_fee: 424242,
    };
    let quorum_set = QuorumSet::from_mc_quorum_set(&crawled_node.quorum_set);
    let expected = MobcoinNode {
        public_key: PublicKey::unknown(),
        hostname: "test.foo.com".to_string(),
        port: 443,
        quorum_set,
        active: false,
        isp: String::from(""),
        geo_data: GeoData {
            country_name: String::from("United States"),
        },
        latest_block: 4242,
        ledger_version: 42,
        minimum_fee: 424242,
    };
    let location = Location { isp: String::from(""), country_name: String::from("United States") };
    let actual = MobcoinNode::from_crawled_node(&crawled_node, location);
    assert_eq!(expected, actual);
}

#[test]
fn test_determine_network_block_height_failure() {
    let mut cnl = Vec::<CrawledNode>::new();
    for i in 1..3 {
        cnl.push(claiming(&format!("node{}.trusted.com", i), 123, i, 4242424242));
    }
    let crawler = crawler_with(
        &["mc://node1.trusted.com:123", "mc://node2.trusted.com:123"],
        cnl,
    );
    let result = CrawlReport::determine_network_block_height(&crawler);
    assert_eq!(
        result,
        LatestBlockVerdict::Disagreement(String::from("trusted nodes discordant"))
    );
}

#[test]
fn determine_network_block_height() {
    let mut cnl = Vec::<CrawledNode>::new();
    for i in 1..4 {
        cnl.push(claiming(&format!("node{}.coins.com", i), 123, i, 424242));
    }
    let crawler = crawler_with(&["mc://node1.coins.com:123"], cnl.clone());
    let result = CrawlReport::determine_network_block_height(&crawler);
    assert_eq!(result, LatestBlockVerdict::Consensus(1));
    assert!(
        matches!(result, LatestBlockVerdict::Consensus(block) if block > 0),
        "result is type of {:#?} because of {:#?}.",
        result,
        cnl
    );
}

#[test]
fn without_nodes_there_is_no_latest_block() {
    let crawler = crawler_with(&["mc://node1.coins.com:123"], vec![]);
    assert_eq!(
        CrawlReport::determine_network_block_height(&crawler),
        LatestBlockVerdict::Disagreement(String::from("no nodes found"))
    );
    assert_eq!(CrawlReport::determine_minimum_fee(&crawler), 0);
}

#[test]
fn the_block_that_most_nodes_claim_is_the_latest() {
    let nodes = vec![
        claiming("a.com", 1, 100, 400),
        claiming("b.com", 1, 101, 400),
        claiming("c.com", 1, 101, 400),
        claiming("d.com", 1, 99, 400),
    ];
    // The bootstrap peer claims another block: it is not asked.
    let crawler = crawler_with(&["mc://a.com:1"], nodes);
    assert_eq!(
        CrawlReport::determine_network_block_height(&crawler),
        LatestBlockVerdict::Consensus(101)
    );
}

#[test]
fn a_single_node_decides() {
    let crawler = crawler_with(&[], vec![claiming("a.com", 1, 0, 7)]);
    assert_eq!(
        CrawlReport::determine_network_block_height(&crawler),
        LatestBlockVerdict::Consensus(0)
    );
    assert_eq!(CrawlReport::determine_minimum_fee(&crawler), 7);
}

#[test]
fn a_tie_without_bootstrap_node_is_unexpected() {
    let nodes = vec![
        claiming("a.com", 1, 100, 400),
        claiming("b.com", 1, 100, 400),
        claiming("c.com", 1, 101, 400),
        claiming("d.com", 1, 101, 400),
    ];
    let crawler = crawler_with(&["mc://e.com:1", "mc://a.com:2", "a.com:1"], nodes);
    assert_eq!(
        CrawlReport::determine_network_block_height(&crawler),
        LatestBlockVerdict::Disagreement(String::from("unexpected"))
    );
}

#[test]
fn a_tie_is_settled_by_the_bootstrap_node() {
    let nodes = vec![
        claiming("a.com", 1, 100, 400),
        claiming("b.com", 1, 100, 400),
        claiming("c.com", 1, 101, 400),
        claiming("d.com", 1, 101, 400),
    ];
    let crawler = crawler_with(&["mc://b.com:1"], nodes);
    assert_eq!(
        CrawlReport::determine_network_block_height(&crawler),
        LatestBlockVerdict::Consensus(100)
    );
}

#[test]
fn bootstrap_nodes_that_agree_settle_a_tie_even_for_a_trailing_block() {
    let nodes = vec![
        claiming("a.com", 1, 100, 400),
        claiming("b.com", 1, 100, 400),
        claiming("c.com", 1, 101, 400),
        claiming("d.com", 1, 101, 400),
        claiming("e.com", 1, 7, 400),
    ];
    let crawler = crawler_with(&["mc://e.com:1"], nodes);
    assert_eq!(
        CrawlReport::determine_network_block_height(&crawler),
        LatestBlockVerdict::Consensus(7)
    );
}

#[test]
fn minimum_fee_needs_every_node() {
    let mut nodes = vec![
        claiming("a.com", 1, 100, 400),
        claiming("b.com", 1, 100, 400),
        claiming("c.com", 1, 101, 400),
    ];
    assert_eq!(CrawlReport::determine_minimum_fee(&crawler_with(&[], nodes.clone())), 400);
    nodes.push(claiming("d.com", 1, 101, 401));
    assert_eq!(CrawlReport::determine_minimum_fee(&crawler_with(&[], nodes)), 0);
}

#[test]
fn an_empty_bootstrap_set_gives_an_empty_report() {
    let mut crawler = Crawler::new(vec![]);
    let probe = |_peer: &String| -> mc_crawler::crawl::net::ProbeOutcome { panic!("nothing to probe") };
    assert!(crawler.crawl_network(&probe, usize::MAX));
    let locate = |_node: &CrawledNode| -> Location { panic!("nothing to locate") };
    let fbas = MobcoinFbas::create_mobcoin_fbas(&crawler, &locate);
    assert!(fbas.0.is_empty());
    let report = CrawlReport::create_crawl_report(fbas, &crawler);
    assert_eq!(report.node_info, NodeInfo { total_nodes: 0, reachable_nodes: 0 });
    assert!(matches!(report.networks_latest_block, LatestBlockVerdict::Disagreement(_)));
    assert_eq!(
        report.networks_latest_block,
        LatestBlockVerdict::Disagreement(String::from("no nodes found"))
    );
    assert_eq!(report.networks_minimum_fee, 0);
    assert!(report.nodes.0.is_empty());
}

#[test]
fn a_report_shows_every_node_where_it_was_located() {
    let mut crawler = crawler_with(
        &["mc://a.com:1"],
        vec![claiming("a.com", 1, 5, 400), claiming("b.com", 2, 5, 400)],
    );
    crawler.crawl_time = String::from("2021-07-27T00:00:00+00:00");
    crawler.crawl_duration = CrawlDuration { secs: 3, nanos: 14 };
    let locate = |node: &CrawledNode| -> Location {
        Location { isp: format!("isp of {}", node.domain), country_name: format!("land of {}", node.port) }
    };
    let fbas = MobcoinFbas::create_mobcoin_fbas(&crawler, &locate);
    assert_eq!(fbas.0.len(), 2);
    assert_eq!(fbas.0[0].hostname, "a.com");
    assert_eq!(fbas.0[0].isp, "isp of a.com");
    assert_eq!(fbas.0[1].geo_data, GeoData { country_name: String::from("land of 2") });
    assert_eq!(fbas.0[1].latest_block, 5);
    assert_eq!(fbas.0[1].ledger_version, 42);
    let report = CrawlReport::create_crawl_report(fbas, &crawler);
    assert_eq!(report.timestamp, "2021-07-27T00:00:00+00:00");
    assert_eq!(report.duration, CrawlDuration { secs: 3, nanos: 14 });
    assert_eq!(report.node_info, NodeInfo { total_nodes: 2, reachable_nodes: 2 });
    assert_eq!(report.networks_latest_block, LatestBlockVerdict::Consensus(5));
    assert_eq!(report.networks_minimum_fee, 400);
    assert_eq!(report.nodes.0.len(), 2);
}

#[test]
fn each_database_has_its_path() {
    assert_eq!(
        Database::Asn.path(),
        "./src/stats/geolite2_dbs/GeoLite2-ASN_20210727/GeoLite2-ASN.mmdb"
    );
    assert_eq!(
        Database::Country.path(),
        "./src/stats/geolite2_dbs/GeoLite2-Country_20210727/GeoLite2-Country.mmdb"
    );
}
