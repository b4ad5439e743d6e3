use mc_crawler::quorum::{McQuorumSet, NodeId, PublicKey, QuorumSetMember};

fn node(i: u8) -> NodeId {
    NodeId {
        responder_id: format!("node{}.test.mobilecoin.com:8443", i),
        public_key: PublicKey { bytes: [i + 1; 32] },
    }
}

#[test]
fn empty_quorum_set_has_no_members() {
    let set = McQuorumSet::empty();
    assert_eq!(set.threshold, 0);
    assert!(set.members.is_empty());
    assert!(set.nodes().is_empty());
    assert!(set.is_valid());
    assert_eq!(set, McQuorumSet::new(0, vec![]));
}

#[test]
fn nodes_walks_nested_sets_in_member_order() {
    let set = McQuorumSet::new(
        2,
        vec![
            QuorumSetMember::Node(node(0)),
            QuorumSetMember::InnerSet(McQuorumSet::new(
                2,
                vec![
                    QuorumSetMember::Node(node(2)),
                    QuorumSetMember::InnerSet(McQuorumSet::new(
                        1,
                        vec![QuorumSetMember::Node(node(4))],
                    )),
                    QuorumSetMember::Node(node(3)),
                ],
            )),
            QuorumSetMember::Node(node(1)),
        ],
    );
    assert_eq!(set.nodes(), vec![node(0), node(2), node(4), node(3), node(1)]);
    assert!(set.is_valid());
}

#[test]
fn threshold_must_fit_the_members() {
    assert!(McQuorumSet::new(1, vec![QuorumSetMember::Node(node(0))]).is_valid());
    assert!(!McQuorumSet::new(2, vec![QuorumSetMember::Node(node(0))]).is_valid());
    assert!(!McQuorumSet::new(0, vec![QuorumSetMember::Node(node(0))]).is_valid());
    assert!(!McQuorumSet::new(1, vec![]).is_valid());
}

#[test]
fn a_nested_set_with_a_bad_threshold_makes_the_whole_invalid() {
    let set = McQuorumSet::new(
        1,
        vec![
            QuorumSetMember::Node(node(0)),
            QuorumSetMember::InnerSet(McQuorumSet::new(
                1,
                vec![QuorumSetMember::InnerSet(McQuorumSet::new(
                    3,
                    vec![QuorumSetMember::Node(node(1))],
                ))],
            )),
        ],
    );
    assert!(!set.is_valid());
}

#[test]
fn clone_keeps_threshold_order_and_nesting() {
    let set = McQuorumSet::new(
        2,
        vec![
            QuorumSetMember::InnerSet(McQuorumSet::new(1, vec![QuorumSetMember::Node(node(7))])),
            QuorumSetMember::Node(node(1)),
            QuorumSetMember::Node(node(0)),
        ],
    );
    assert_eq!(set.clone(), set);
    assert_eq!(set.members[0].clone(), set.members[0]);
    assert_eq!(node(3).clone(), node(3));
}

#[test]
fn unknown_key_is_all_zero() {
    let key = PublicKey::unknown();
    assert_eq!(key.bytes, [0u8; 32]);
    assert!(key.is_unknown());
    assert!(!node(0).public_key.is_unknown());
    let mut almost = [0u8; 32];
    almost[31] = 1;
    assert!(!PublicKey { bytes: almost }.is_unknown());
}
