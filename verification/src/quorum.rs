//! The trust declaration of a validator: a threshold over members that are
//! either validators or nested quorum sets.

use vstd::prelude::*;

verus! {

/// A validator's signing key. The all-zero key stands for "not known".
#[derive(Clone, Copy, Debug, PartialEq, Eq)]
pub struct PublicKey {
    pub bytes: [u8; 32],
}

impl View for PublicKey {
    type V = Seq<u8>;

    open spec fn view(&self) -> Seq<u8> {
        self.bytes@
    }
}

/// The key that stands for "not known": thirty-two zero bytes.
pub open spec fn zero_key() -> Seq<u8> {
    Seq::new(32, |i: int| 0u8)
}

impl PublicKey {
    /// The key that stands for "not known".
    pub fn unknown() -> (key: PublicKey)
        ensures
            key@ == zero_key(),
    {
        let key = PublicKey { bytes: [0u8; 32] };
        assert(key@ =~= zero_key());
        key
    }

    /// Whether this is the key that stands for "not known".
    pub fn is_unknown(&self) -> (unknown: bool)
        ensures
            unknown == (self@ == zero_key()),
    {
        let mut i: usize = 0;
        while i < 32
            invariant
                i <= 32,
                forall|j: int| 0 <= j < i ==> self.bytes@[j] == 0u8,
            decreases 32 - i,
        {
            if self.bytes[i] != 0 {
                assert(self@[i as int] != zero_key()[i as int]);
                return false;
            }
            i += 1;
        }
        assert(self@ =~= zero_key());
        true
    }
}

/// A validator as a quorum set names it: the identifier it answers to on the
/// wire, shaped like `host:port`, and its signing key.
#[derive(Debug, PartialEq, Eq)]
pub struct NodeId {
    pub responder_id: String,
    pub public_key: PublicKey,
}

/// One member of a quorum set.
#[derive(Debug, PartialEq, Eq)]
pub enum QuorumSetMember {
    /// A validator.
    Node(NodeId),
    /// A nested quorum set.
    InnerSet(McQuorumSet),
}

/// A quorum set as validators announce it.
#[derive(Debug, PartialEq, Eq)]
pub struct McQuorumSet {
    pub threshold: u32,
    pub members: Vec<QuorumSetMember>,
}

/// A validator reference as contracts see it.
pub struct NodeRef {
    pub responder_id: Seq<char>,
    pub public_key: Seq<u8>,
}

/// A member of a quorum set as contracts see it.
pub enum MemberView {
    Node(NodeRef),
    InnerSet(QuorumSetView),
}

/// A quorum set as contracts see it.
pub struct QuorumSetView {
    pub threshold: nat,
    pub members: Seq<MemberView>,
}

impl View for NodeId {
    type V = NodeRef;

    open spec fn view(&self) -> NodeRef {
        NodeRef { responder_id: self.responder_id@, public_key: self.public_key@ }
    }
}

/// The view of one member.
pub open spec fn member_view(member: QuorumSetMember) -> MemberView
    decreases member,
{
    match member {
        QuorumSetMember::Node(id) => MemberView::Node(id@),
        QuorumSetMember::InnerSet(inner) => MemberView::InnerSet(
            QuorumSetView {
                threshold: inner.threshold as nat,
                members: members_view(inner.members@),
            },
        ),
    }
}

/// The views of a sequence of members, in order.
pub open spec fn members_view(members: Seq<QuorumSetMember>) -> Seq<MemberView>
    decreases members,
{
    if members.len() == 0 {
        Seq::empty()
    } else {
        members_view(members.drop_last()).push(member_view(members.last()))
    }
}

impl View for QuorumSetMember {
    type V = MemberView;

    open spec fn view(&self) -> MemberView {
        member_view(*self)
    }
}

impl View for McQuorumSet {
    type V = QuorumSetView;

    open spec fn view(&self) -> QuorumSetView {
        QuorumSetView { threshold: self.threshold as nat, members: members_view(self.members@) }
    }
}

/// `members_view` keeps the length and maps each member to its view.
pub proof fn lemma_members_view(members: Seq<QuorumSetMember>)
    ensures
        members_view(members).len() == members.len(),
        forall|i: int|
            #![trigger members_view(members)[i]]
            #![trigger members[i]]
            0 <= i < members.len() ==> members_view(members)[i] == member_view(members[i]),
    decreases members.len(),
{
    if members.len() > 0 {
        let front = members.drop_last();
        lemma_members_view(front);
        assert forall|i: int| 0 <= i < members.len() implies #[trigger] members_view(members)[i]
            == member_view(members[i]) by {
            if i < front.len() {
                assert(front[i] == members[i]);
            }
        }
    }
}

/// Every validator that a sequence of members names, nested sets included:
/// members in order, each nested set walked where it stands.
pub open spec fn flat_nodes(members: Seq<MemberView>) -> Seq<NodeRef>
    decreases members,
{
    if members.len() == 0 {
        Seq::empty()
    } else {
        flat_nodes(members.drop_last()) + match members.last() {
            MemberView::Node(node) => seq![node],
            MemberView::InnerSet(inner) => flat_nodes(inner.members),
        }
    }
}

/// Whether every quorum set in a sequence of members, at any depth, has a
/// threshold that its own members can meet.
pub open spec fn members_valid(members: Seq<MemberView>) -> bool
    decreases members,
{
    if members.len() == 0 {
        true
    } else {
        members_valid(members.drop_last()) && match members.last() {
            MemberView::Node(_) => true,
            MemberView::InnerSet(inner) => threshold_fits(inner.threshold, inner.members.len())
                && members_valid(inner.members),
        }
    }
}

/// A threshold is zero for an empty set, and otherwise between one and the
/// number of members.
pub open spec fn threshold_fits(threshold: nat, members: nat) -> bool {
    threshold <= members && (members > 0 ==> threshold >= 1)
}

impl QuorumSetView {
    /// Every validator that the quorum set names, nested sets included.
    pub open spec fn nodes(self) -> Seq<NodeRef> {
        flat_nodes(self.members)
    }

    /// Whether the quorum set and every set nested in it has a threshold that
    /// its members can meet.
    pub open spec fn valid(self) -> bool {
        threshold_fits(self.threshold, self.members.len()) && members_valid(self.members)
    }
}

/// The views of a sequence of validators, in order.
pub open spec fn node_refs(nodes: Seq<NodeId>) -> Seq<NodeRef> {
    Seq::new(nodes.len(), |i: int| nodes[i]@)
}

/// Appending one member appends what it names.
pub proof fn lemma_flat_nodes_push(members: Seq<MemberView>, member: MemberView)
    ensures
        flat_nodes(members.push(member)) == flat_nodes(members) + match member {
            MemberView::Node(node) => seq![node],
            MemberView::InnerSet(inner) => flat_nodes(inner.members),
        },
        members_valid(members.push(member)) == (members_valid(members) && match member {
            MemberView::Node(_) => true,
            MemberView::InnerSet(inner) => threshold_fits(inner.threshold, inner.members.len())
                && members_valid(inner.members),
        }),
{
    assert(members.push(member).drop_last() =~= members);
}

/// The view of a prefix grows by the view of the next member.
pub proof fn lemma_members_view_take(members: Seq<QuorumSetMember>, i: int)
    requires
        0 <= i < members.len(),
    ensures
        members_view(members.take(i + 1)) == members_view(members.take(i)).push(
            member_view(members[i]),
        ),
{
    assert(members.take(i + 1).drop_last() =~= members.take(i));
}

impl Clone for NodeId {
    fn clone(&self) -> (copy: NodeId)
        ensures
            copy@ == self@,
    {
        NodeId { responder_id: self.responder_id.clone(), public_key: self.public_key }
    }
}

impl Clone for QuorumSetMember {
    fn clone(&self) -> (copy: QuorumSetMember)
        ensures
            copy@ == self@,
    {
        copy_member(self)
    }
}

impl Clone for McQuorumSet {
    fn clone(&self) -> (copy: McQuorumSet)
        ensures
            copy@ == self@,
    {
        McQuorumSet { threshold: self.threshold, members: copy_members(&self.members) }
    }
}

/// Copies one member, nested sets included.
fn copy_member(member: &QuorumSetMember) -> (copy: QuorumSetMember)
    ensures
        member_view(copy) == member_view(*member),
    decreases member,
{
    match member {
        QuorumSetMember::Node(id) => QuorumSetMember::Node(id.clone()),
        QuorumSetMember::InnerSet(inner) => QuorumSetMember::InnerSet(
            McQuorumSet { threshold: inner.threshold, members: copy_members(&inner.members) },
        ),
    }
}

/// Copies a sequence of members, nested sets included.
fn copy_members(members: &Vec<QuorumSetMember>) -> (copy: Vec<QuorumSetMember>)
    ensures
        members_view(copy@) == members_view(members@),
    decreases members,
{
    let mut copy: Vec<QuorumSetMember> = Vec::new();
    let mut i: usize = 0;
    while i < members.len()
        invariant
            i <= members.len(),
            copy@.len() == i,
            forall|j: int| 0 <= j < i ==> member_view(copy@[j]) == member_view(members@[j]),
        decreases members.len() - i,
    {
        let member = copy_member(&members[i]);
        copy.push(member);
        i += 1;
    }
    proof {
        lemma_members_view(copy@);
        lemma_members_view(members@);
        assert(members_view(copy@) =~= members_view(members@));
    }
    copy
}

/// Appends to `out` every validator that `members` names, nested sets
/// included.
fn collect_nodes(members: &Vec<QuorumSetMember>, out: &mut Vec<NodeId>)
    ensures
        node_refs(final(out)@) == node_refs(old(out)@) + flat_nodes(members_view(members@)),
    decreases members,
{
    let ghost before = node_refs(out@);
    let mut i: usize = 0;
    proof {
        assert(members@.take(0) =~= Seq::empty());
        assert(node_refs(out@) =~= before + flat_nodes(members_view(members@.take(0))));
    }
    while i < members.len()
        invariant
            i <= members.len(),
            node_refs(out@) == before + flat_nodes(members_view(members@.take(i as int))),
        decreases members.len() - i,
    {
        let ghost so_far = node_refs(out@);
        proof {
            lemma_members_view_take(members@, i as int);
            lemma_flat_nodes_push(
                members_view(members@.take(i as int)),
                member_view(members@[i as int]),
            );
        }
        match &members[i] {
            QuorumSetMember::Node(id) => {
                let node = id.clone();
                out.push(node);
                assert(node_refs(out@) =~= so_far + seq![id@]);
            },
            QuorumSetMember::InnerSet(inner) => {
                collect_nodes(&inner.members, out);
            },
        }
        i += 1;
        assert(node_refs(out@) =~= before + flat_nodes(members_view(members@.take(i as int))));
    }
    assert(members@.take(members.len() as int) =~= members@);
}

impl McQuorumSet {
    /// A quorum set with the given threshold and members.
    pub fn new(threshold: u32, members: Vec<QuorumSetMember>) -> (set: McQuorumSet)
        ensures
            set.threshold == threshold,
            set.members == members,
    {
        McQuorumSet { threshold, members }
    }

    /// The quorum set of a validator that declared none: no members and a
    /// threshold of zero.
    pub fn empty() -> (set: McQuorumSet)
        ensures
            set@ == (QuorumSetView { threshold: 0, members: Seq::empty() }),
            set@.nodes() == Seq::<NodeRef>::empty(),
    {
        let set = McQuorumSet { threshold: 0, members: Vec::new() };
        assert(set@.members =~= Seq::empty());
        set
    }

    /// Every validator that the quorum set names, those of nested sets
    /// included, in member order.
    pub fn nodes(&self) -> (nodes: Vec<NodeId>)
        ensures
            node_refs(nodes@) == self@.nodes(),
    {
        let mut nodes: Vec<NodeId> = Vec::new();
        assert(node_refs(nodes@) =~= Seq::empty());
        collect_nodes(&self.members, &mut nodes);
        nodes
    }

    /// Whether the quorum set and every set nested in it has a threshold that
    /// its members can meet.
    pub fn is_valid(&self) -> (valid: bool)
        ensures
            valid == self@.valid(),
    {
        proof {
            lemma_members_view(self.members@);
        }
        threshold_ok(self.threshold, self.members.len()) && check_members(&self.members)
    }
}

/// Whether a threshold fits a number of members.
fn threshold_ok(threshold: u32, members: usize) -> (fits: bool)
    ensures
        fits == threshold_fits(threshold as nat, members as nat),
{
    (threshold as usize) <= members && (members == 0 || threshold >= 1)
}

/// Whether every nested quorum set of `members` has a threshold that fits.
fn check_members(members: &Vec<QuorumSetMember>) -> (valid: bool)
    ensures
        valid == members_valid(members_view(members@)),
    decreases members,
{
    let mut i: usize = 0;
    proof {
        assert(members@.take(0) =~= Seq::empty());
    }
    while i < members.len()
        invariant
            i <= members.len(),
            members_valid(members_view(members@.take(i as int))),
        decreases members.len() - i,
    {
        proof {
            lemma_members_view_take(members@, i as int);
            lemma_flat_nodes_push(
                members_view(members@.take(i as int)),
                member_view(members@[i as int]),
            );
        }
        match &members[i] {
            QuorumSetMember::Node(_) => {},
            QuorumSetMember::InnerSet(inner) => {
                proof {
                    lemma_members_view(inner.members@);
                }
                let fits = threshold_ok(inner.threshold, inner.members.len());
                if !fits || !check_members(&inner.members) {
                    proof {
                        if members_valid(members_view(members@)) {
                            lemma_members_view(members@);
                            lemma_members_valid_prefix(members_view(members@), i + 1);
                            lemma_members_view_all_take(members@, i + 1);
                        }
                    }
                    return false;
                }
            },
        }
        i += 1;
    }
    assert(members@.take(members.len() as int) =~= members@);
    true
}

/// The view of a prefix is the prefix of the view.
pub proof fn lemma_members_view_all_take(members: Seq<QuorumSetMember>, n: int)
    requires
        0 <= n <= members.len(),
    ensures
        members_view(members.take(n)) == members_view(members).take(n),
{
    lemma_members_view(members);
    lemma_members_view(members.take(n));
    assert(members_view(members.take(n)) =~= members_view(members).take(n));
}

/// If all members are valid, so is every prefix of them.
pub proof fn lemma_members_valid_prefix(members: Seq<MemberView>, n: int)
    requires
        0 <= n <= members.len(),
        members_valid(members),
    ensures
        members_valid(members.take(n)),
    decreases members.len(),
{
    if n == members.len() {
        assert(members.take(n) =~= members);
    } else {
        lemma_members_valid_prefix(members.drop_last(), n);
        assert(members.drop_last().take(n) =~= members.take(n));
    }
}

/// Nothing that a member names is lost: a validator among `members` is among
/// those that `members` name, and so is every validator that a nested set
/// among them names. Applied level by level, this holds at any depth.
pub proof fn lemma_nested_nodes_are_named(members: Seq<MemberView>, i: int)
    requires
        0 <= i < members.len(),
    ensures
        match members[i] {
            MemberView::Node(node) => flat_nodes(members).contains(node),
            MemberView::InnerSet(inner) => forall|k: int|
                0 <= k < flat_nodes(inner.members).len() ==> flat_nodes(members).contains(
                    #[trigger] flat_nodes(inner.members)[k],
                ),
        },
    decreases members.len(),
{
    let front = flat_nodes(members.drop_last());
    let all = flat_nodes(members);
    if i == members.len() - 1 {
        match members[i] {
            MemberView::Node(node) => {
                assert(all[front.len() as int] == node);
            },
            MemberView::InnerSet(inner) => {
                assert forall|k: int| 0 <= k < flat_nodes(inner.members).len() implies all.contains(
                    #[trigger] flat_nodes(inner.members)[k],
                ) by {
                    assert(all[front.len() + k] == flat_nodes(inner.members)[k]);
                }
            },
        }
    } else {
        lemma_nested_nodes_are_named(members.drop_last(), i);
        assert(members.drop_last()[i] == members[i]);
        assert forall|node: NodeRef| front.contains(node) implies all.contains(node) by {
            let at = choose|at: int| 0 <= at < front.len() && front[at] == node;
            assert(all[at] == node);
        }
    }
}

/// The validators that are members themselves, in member order.
pub open spec fn direct_nodes(members: Seq<MemberView>) -> Seq<NodeRef>
    decreases members.len(),
{
    if members.len() == 0 {
        Seq::empty()
    } else {
        match members.last() {
            MemberView::Node(node) => direct_nodes(members.drop_last()).push(node),
            MemberView::InnerSet(_) => direct_nodes(members.drop_last()),
        }
    }
}

/// The quorum sets that are members, in member order.
pub open spec fn nested_sets(members: Seq<MemberView>) -> Seq<QuorumSetView>
    decreases members.len(),
{
    if members.len() == 0 {
        Seq::empty()
    } else {
        match members.last() {
            MemberView::Node(_) => nested_sets(members.drop_last()),
            MemberView::InnerSet(inner) => nested_sets(members.drop_last()).push(inner),
        }
    }
}

} // verus!
