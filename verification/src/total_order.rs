//! The total-order protocol engine: the three-phase priority-agreement state
//! machine over reliable multicast, with crash handling.
//!
//! The engine is a single-threaded state machine. Everything that awaits —
//! the event selection among application requests, inbound frames and grace
//! timers — lives outside; each event is handed to one of the `handle_*`
//! methods here, which mutates the state, performs the sends, and returns
//! what was delivered to the application and which peers need a grace-period
//! flush scheduled.

use vstd::prelude::*;
use crate::basic::{clone_bytes, vec_contains};
use crate::config::NodeId;
use crate::member::MulticastMemberHandle;
use crate::pq::{
    pq_get_priority, pq_new, pq_peek, pq_push, pq_push_decrease, pq_remove, pq_view, tup_le,
    tup_lt, EnginePq, PqKey, PqPri,
};
use crate::protocol::{
    MessageId, MessagePriority, MulticastError, PriorityMessageArgs, PriorityProposalArgs,
    PriorityRequestArgs, ReliableNetworkMessage, TotalOrderNetworkMessage,
};
use crate::reliable::{ReceiveOutcome, ReliableModel, ReliableMulticast};

verus! {

/// The queue key standing for a message identity.
pub open spec fn id_key(id: MessageId) -> PqKey {
    (id.original_sender, id.local_id)
}

/// The message identity a queue key stands for.
pub open spec fn key_id(k: PqKey) -> MessageId {
    MessageId { original_sender: k.0, local_id: k.1 }
}

/// The queue value standing for an agreement priority.
pub open spec fn pri_val(p: MessagePriority) -> PqPri {
    (p.priority, p.proposer)
}

/// Mathematical model of one queued message.
#[verifier::ext_equal]
pub struct QmModel {
    /// The opaque application payload.
    pub message: Seq<u8>,
    /// Whether the final priority is known, so the message may leave the
    /// queue.
    pub deliverable: bool,
    /// The nodes whose priority proposal for this message has been seen.
    pub votes: Set<NodeId>,
}

/// Per-message record in the protocol engine: the opaque payload, the set of
/// nodes that have proposed a priority, and the deliverable flag.
pub struct QueuedMessage {
    message: Vec<u8>,
    is_deliverable: bool,
    votes: Vec<NodeId>,
}

impl View for QueuedMessage {
    type V = QmModel;

    closed spec fn view(&self) -> QmModel {
        QmModel {
            message: self.message@,
            deliverable: self.is_deliverable,
            votes: self.votes@.to_set(),
        }
    }
}

impl QueuedMessage {
    pub fn new(message: Vec<u8>) -> (r: QueuedMessage)
        ensures
            r@ == (QmModel { message: message@, deliverable: false, votes: Set::empty() }),
    {
        let r = QueuedMessage { message, is_deliverable: false, votes: Vec::new() };
        proof {
            assert(r.votes@.to_set() =~= Set::empty());
        }
        r
    }

    /// Records that `voter` has proposed a priority for this message.
    pub fn add_voter(&mut self, voter: NodeId)
        ensures
            final(self)@ == (QmModel { votes: old(self)@.votes.insert(voter), ..old(self)@ }),
    {
        if !vec_contains(&self.votes, &voter) {
            self.votes.push(voter);
            proof {
                assert(self.votes@.drop_last() =~= old(self).votes@);
                assert(self.votes@.to_set() =~= old(self).votes@.to_set().insert(voter)) by {
                    assert forall|x: NodeId| self.votes@.to_set().contains(x) implies old(
                        self,
                    ).votes@.to_set().insert(voter).contains(x) by {
                        let i = choose|i: int| 0 <= i < self.votes@.len() && self.votes@[i] == x;
                        if i < old(self).votes@.len() {
                            assert(old(self).votes@[i] == x);
                        }
                    }
                    assert forall|x: NodeId|
                        old(self).votes@.to_set().insert(voter).contains(x) implies self.votes@
                        .to_set().contains(x) by {
                        if x == voter {
                            assert(self.votes@.last() == voter);
                        } else {
                            let i = choose|i: int|
                                0 <= i < old(self).votes@.len() && old(self).votes@[i] == x;
                            assert(self.votes@[i] == x);
                        }
                    }
                }
            }
        } else {
            proof {
                assert(self.votes@.to_set() =~= old(self).votes@.to_set().insert(voter));
            }
        }
    }

    pub fn is_deliverable(&self) -> (r: bool)
        ensures
            r == self@.deliverable,
    {
        self.is_deliverable
    }

    /// Surrenders the payload.
    pub fn into_message(self) -> (r: Vec<u8>)
        ensures
            r@ == self@.message,
    {
        self.message
    }

    pub fn mark_deliverable(&mut self)
        ensures
            final(self)@ == (QmModel { deliverable: true, ..old(self)@ }),
    {
        self.is_deliverable = true;
    }

    /// Whether every node in `members` has voted.
    pub fn votes_superset(&self, members: &Vec<NodeId>) -> (r: bool)
        ensures
            r == members@.to_set().subset_of(self@.votes),
    {
        let mut i: usize = 0;
        while i < members.len()
            invariant
                i <= members@.len(),
                forall|j: int| 0 <= j < i ==> self@.votes.contains(#[trigger] members@[j]),
            decreases members@.len() - i,
        {
            if !vec_contains(&self.votes, &members[i]) {
                proof {
                    assert(members@.to_set().contains(members@[i as int]));
                }
                return false;
            }
            i = i + 1;
        }
        proof {
            assert forall|x: NodeId| members@.to_set().contains(x) implies self@.votes.contains(
                x,
            ) by {
                let j = choose|j: int| 0 <= j < members@.len() && members@[j] == x;
            }
        }
        true
    }
}

// ---------------------------------------------------------------------------
// The queued-message table: an association list with distinct keys, viewed
// as a map from message identity to the message's model.
// ---------------------------------------------------------------------------

/// The table as a map; a later entry for a key would shadow an earlier one,
/// but the engine keeps keys distinct.
pub open spec fn qm_map(s: Seq<(MessageId, QueuedMessage)>) -> Map<MessageId, QmModel>
    decreases s.len(),
{
    if s.len() == 0 {
        Map::empty()
    } else {
        qm_map(s.drop_last()).insert(s.last().0, s.last().1@)
    }
}

/// The table's keys, in entry order.
pub open spec fn qm_keys(s: Seq<(MessageId, QueuedMessage)>) -> Seq<MessageId> {
    s.map_values(|e: (MessageId, QueuedMessage)| e.0)
}

/// A key is in the map exactly when some entry holds it.
proof fn lemma_qm_dom(s: Seq<(MessageId, QueuedMessage)>)
    ensures
        forall|id: MessageId| #[trigger]
            qm_map(s).dom().contains(id) <==> qm_keys(s).contains(id),
    decreases s.len(),
{
    if s.len() > 0 {
        lemma_qm_dom(s.drop_last());
        assert(qm_keys(s).drop_last() =~= qm_keys(s.drop_last()));
        assert forall|id: MessageId| #[trigger]
            qm_map(s).dom().contains(id) implies qm_keys(s).contains(id) by {
            if id == s.last().0 {
                assert(qm_keys(s)[s.len() - 1] == id);
            } else {
                assert(qm_map(s.drop_last()).dom().contains(id));
                assert(qm_keys(s.drop_last()).contains(id));
                let i = choose|i: int|
                    0 <= i < qm_keys(s.drop_last()).len() && qm_keys(s.drop_last())[i] == id;
                assert(qm_keys(s)[i] == id);
            }
        }
        assert forall|id: MessageId|
            qm_keys(s).contains(id) implies #[trigger] qm_map(s).dom().contains(id) by {
            let i = choose|i: int| 0 <= i < qm_keys(s).len() && qm_keys(s)[i] == id;
            if i < s.len() - 1 {
                assert(qm_keys(s.drop_last())[i] == id);
                assert(qm_keys(s.drop_last()).contains(id));
                assert(qm_map(s.drop_last()).dom().contains(id));
            } else {
                assert(id == s.last().0);
            }
        }
    }
}

/// With distinct keys, the map's value at an entry's key is that entry's
/// model.
proof fn lemma_qm_index(s: Seq<(MessageId, QueuedMessage)>, i: int)
    requires
        qm_keys(s).no_duplicates(),
        0 <= i < s.len(),
    ensures
        qm_map(s).dom().contains(s[i].0),
        qm_map(s)[s[i].0] == s[i].1@,
    decreases s.len(),
{
    assert(qm_keys(s)[i] == s[i].0);
    if i == s.len() - 1 {
    } else {
        assert(qm_keys(s).drop_last() =~= qm_keys(s.drop_last()));
        lemma_qm_index(s.drop_last(), i);
        assert(qm_keys(s)[s.len() - 1] != qm_keys(s)[i]);
    }
}

/// With distinct keys, replacing the entry at `i` updates the map at that
/// entry's key.
proof fn lemma_qm_update(s: Seq<(MessageId, QueuedMessage)>, i: int, v: QueuedMessage)
    requires
        qm_keys(s).no_duplicates(),
        0 <= i < s.len(),
    ensures
        qm_map(s.update(i, (s[i].0, v))) =~= qm_map(s).insert(s[i].0, v@),
        qm_keys(s.update(i, (s[i].0, v))) =~= qm_keys(s),
    decreases s.len(),
{
    let t = s.update(i, (s[i].0, v));
    assert(qm_keys(t) =~= qm_keys(s));
    if i == s.len() - 1 {
        assert(t.drop_last() =~= s.drop_last());
    } else {
        assert(t.drop_last() =~= s.drop_last().update(i, (s[i].0, v)));
        assert(qm_keys(s).drop_last() =~= qm_keys(s.drop_last()));
        lemma_qm_update(s.drop_last(), i, v);
        assert(s.drop_last()[i] == s[i]);
        assert(t.last() == s.last());
        assert(qm_map(t) == qm_map(s.drop_last()).insert(s[i].0, v@).insert(s.last().0, s.last().1@));
        assert(s[i].0 != s.last().0) by {
            assert(qm_keys(s)[i] == s[i].0);
            assert(qm_keys(s)[s.len() - 1] == s.last().0);
        }
        assert(qm_map(s.drop_last()).insert(s[i].0, v@).insert(s.last().0, s.last().1@) =~= qm_map(
            s.drop_last(),
        ).insert(s.last().0, s.last().1@).insert(s[i].0, v@));
    }
}

/// With distinct keys, removing the entry at `i` removes exactly that
/// entry's key from the map.
proof fn lemma_qm_remove(s: Seq<(MessageId, QueuedMessage)>, i: int)
    requires
        qm_keys(s).no_duplicates(),
        0 <= i < s.len(),
    ensures
        qm_map(s.remove(i)) =~= qm_map(s).remove(s[i].0),
        qm_keys(s.remove(i)) =~= qm_keys(s).remove(i),
        qm_keys(s.remove(i)).no_duplicates(),
    decreases s.len(),
{
    let t = s.remove(i);
    assert(qm_keys(t) =~= qm_keys(s).remove(i));
    assert(qm_keys(t).no_duplicates()) by {
        assert forall|a: int, b: int|
            0 <= a < qm_keys(t).len() && 0 <= b < qm_keys(t).len() && a != b implies qm_keys(t)[a]
            != qm_keys(t)[b] by {
            let a2 = if a < i { a } else { a + 1 };
            let b2 = if b < i { b } else { b + 1 };
            assert(qm_keys(t)[a] == qm_keys(s)[a2]);
            assert(qm_keys(t)[b] == qm_keys(s)[b2]);
        }
    }
    if i == s.len() - 1 {
        assert(t =~= s.drop_last());
        lemma_qm_dom(s.drop_last());
        assert(!qm_keys(s.drop_last()).contains(s.last().0)) by {
            assert forall|j: int| 0 <= j < s.len() - 1 implies qm_keys(s.drop_last())[j] != s.last().0 by {
                assert(qm_keys(s.drop_last())[j] == qm_keys(s)[j]);
                assert(qm_keys(s)[s.len() - 1] == s.last().0);
            }
        }
        assert(qm_map(s.drop_last()) =~= qm_map(s).remove(s.last().0));
    } else {
        assert(t.last() == s.last());
        assert(t.drop_last() =~= s.drop_last().remove(i));
        assert(qm_keys(s).drop_last() =~= qm_keys(s.drop_last()));
        lemma_qm_remove(s.drop_last(), i);
        assert(s.drop_last()[i] == s[i]);
        assert(s[i].0 != s.last().0) by {
            assert(qm_keys(s)[i] == s[i].0);
            assert(qm_keys(s)[s.len() - 1] == s.last().0);
        }
        assert(qm_map(t) == qm_map(s.drop_last().remove(i)).insert(s.last().0, s.last().1@));
        assert(qm_map(s.drop_last()).remove(s[i].0).insert(s.last().0, s.last().1@) =~= qm_map(
            s.drop_last(),
        ).insert(s.last().0, s.last().1@).remove(s[i].0));
    }
}


// ---------------------------------------------------------------------------
// Executable table operations
// ---------------------------------------------------------------------------

/// The index of the entry holding `id`, if any.
fn tbl_find(t: &Vec<(MessageId, QueuedMessage)>, id: &MessageId) -> (r: Option<usize>)
    ensures
        (r matches Some(i) ==> i < t@.len() && t@[i as int].0 == *id && qm_map(t@).dom().contains(
            *id,
        )),
        (r is None ==> !qm_map(t@).dom().contains(*id) && !qm_keys(t@).contains(*id)),
{
    let mut i: usize = 0;
    while i < t.len()
        invariant
            i <= t@.len(),
            forall|j: int| 0 <= j < i ==> t@[j].0 != *id,
        decreases t@.len() - i,
    {
        if t[i].0 == *id {
            proof {
                lemma_qm_dom(t@);
                assert(qm_keys(t@)[i as int] == *id);
                assert(qm_keys(t@).contains(*id));
            }
            return Some(i);
        }
        i = i + 1;
    }
    proof {
        lemma_qm_dom(t@);
        assert forall|j: int| 0 <= j < qm_keys(t@).len() implies qm_keys(t@)[j] != *id by {
            assert(qm_keys(t@)[j] == t@[j].0);
        }
        assert(!qm_keys(t@).contains(*id));
    }
    None
}

/// Binds or overwrites `id` in the table.
fn tbl_insert(t: &mut Vec<(MessageId, QueuedMessage)>, id: MessageId, qm: QueuedMessage)
    requires
        qm_keys(old(t)@).no_duplicates(),
    ensures
        qm_keys(final(t)@).no_duplicates(),
        qm_map(final(t)@) == qm_map(old(t)@).insert(id, qm@),
{
    let ghost pre = t@;
    match tbl_find(t, &id) {
        Some(i) => {
            let _replaced = t.remove(i);
            t.insert(i, (id, qm));
            proof {
                assert(t@ =~= pre.update(i as int, (id, qm)));
                lemma_qm_update(pre, i as int, qm);
            }
        },
        None => {
            t.push((id, qm));
            proof {
                assert(t@.drop_last() =~= pre);
                assert(qm_keys(t@) =~= qm_keys(pre).push(id));
                assert(qm_keys(t@).no_duplicates()) by {
                    assert forall|a: int, b: int|
                        0 <= a < qm_keys(t@).len() && 0 <= b < qm_keys(t@).len() && a
                        != b implies qm_keys(t@)[a] != qm_keys(t@)[b] by {
                        if a < qm_keys(pre).len() && b < qm_keys(pre).len() {
                        } else if a == qm_keys(pre).len() {
                            assert(qm_keys(pre)[b] == qm_keys(t@)[b]);
                            assert(!qm_keys(pre).contains(id));
                        } else {
                            assert(qm_keys(pre)[a] == qm_keys(t@)[a]);
                            assert(!qm_keys(pre).contains(id));
                        }
                    }
                }
            }
        },
    }
}

/// Takes `id` out of the table, handing back its record.
fn tbl_remove(t: &mut Vec<(MessageId, QueuedMessage)>, id: &MessageId) -> (r: Option<
    QueuedMessage>)
    requires
        qm_keys(old(t)@).no_duplicates(),
    ensures
        qm_keys(final(t)@).no_duplicates(),
        qm_map(final(t)@) == qm_map(old(t)@).remove(*id),
        (r matches Some(qm) ==> qm_map(old(t)@).dom().contains(*id) && qm@ == qm_map(old(t)@)[*id]),
        (r is None ==> !qm_map(old(t)@).dom().contains(*id) && final(t)@ == old(t)@),
{
    let ghost pre = t@;
    match tbl_find(t, id) {
        Some(i) => {
            proof {
                lemma_qm_index(pre, i as int);
                lemma_qm_remove(pre, i as int);
            }
            let e = t.remove(i);
            proof {
                assert(qm_map(t@) =~= qm_map(pre).remove(*id));
            }
            Some(e.1)
        },
        None => {
            proof {
                assert(qm_map(t@) =~= qm_map(pre).remove(*id));
            }
            None
        },
    }
}

/// A read-only view of the record at `id`.
fn tbl_get<'a>(t: &'a Vec<(MessageId, QueuedMessage)>, id: &MessageId) -> (r: Option<
    &'a QueuedMessage>)
    requires
        qm_keys(t@).no_duplicates(),
    ensures
        (r matches Some(qm) ==> qm_map(t@).dom().contains(*id) && qm@ == qm_map(t@)[*id]),
        (r is None ==> !qm_map(t@).dom().contains(*id)),
{
    match tbl_find(t, id) {
        Some(i) => {
            proof {
                lemma_qm_index(t@, i as int);
            }
            Some(&t[i].1)
        },
        None => None,
    }
}

// ---------------------------------------------------------------------------
// The engine
// ---------------------------------------------------------------------------

/// Mathematical model of the engine's state.
#[verifier::ext_equal]
pub struct EngineModel {
    /// This node's identity.
    pub node_id: NodeId,
    /// The priority queue: each queued message's key with its current
    /// priority. The least pair under [`crate::pq::tup_lt`] is next in
    /// delivery order.
    pub pq: Map<PqKey, PqPri>,
    /// The per-message records.
    pub queued: Map<MessageId, QmModel>,
    /// The next local message number this node will assign.
    pub next_local_id: usize,
    /// The next priority this node will propose.
    pub next_priority_proposal: usize,
    /// The reliable layer's state.
    pub reliable: ReliableModel,
}

/// What one engine step hands back to its caller: the messages delivered to
/// the application, in delivery order, and the peers newly declared dead,
/// for each of which a grace-period flush must be scheduled.
#[derive(Debug)]
pub struct EngineReaction {
    pub delivered: Vec<(MessageId, Vec<u8>)>,
    pub schedule_flush: Vec<NodeId>,
}

/// The total-order protocol engine at one node.
pub struct TotalOrderedMulticast {
    node_id: NodeId,
    pq: EnginePq,
    queued_messages: Vec<(MessageId, QueuedMessage)>,
    next_local_id: usize,
    next_priority_proposal: usize,
    reliable_multicast: ReliableMulticast,
}

impl TotalOrderedMulticast {
    pub closed spec fn view(&self) -> EngineModel {
        EngineModel {
            node_id: self.node_id,
            pq: pq_view(self.pq),
            queued: qm_map(self.queued_messages@),
            next_local_id: self.next_local_id,
            next_priority_proposal: self.next_priority_proposal,
            reliable: self.reliable_multicast@,
        }
    }

    /// The engine's invariant: the priority queue and the record table hold
    /// exactly the same messages.
    pub closed spec fn wf(&self) -> bool {
        &&& self.reliable_multicast.wf()
        &&& qm_keys(self.queued_messages@).no_duplicates()
        &&& pq_view(self.pq).dom().finite()
        &&& forall|id: MessageId| #![trigger id_key(id)]
            qm_map(self.queued_messages@).dom().contains(id) <==> pq_view(self.pq).dom().contains(
                id_key(id),
            )
    }

    /// Brings the engine up over a fully connected handler set.
    pub fn new(node_id: NodeId, group: Vec<MulticastMemberHandle>) -> (r: TotalOrderedMulticast)
        requires
            group@.map_values(|h: MulticastMemberHandle| h.member_id).no_duplicates(),
        ensures
            r.wf(),
            r@.node_id == node_id,
            r@.pq == Map::<PqKey, PqPri>::empty(),
            r@.queued == Map::<MessageId, QmModel>::empty(),
            r@.next_local_id == 0,
            r@.next_priority_proposal == 0,
            r@.reliable.members == group@.map_values(
                |h: MulticastMemberHandle| h.member_id,
            ).to_set(),
            r@.reliable.prior_seq == Map::<NodeId, usize>::empty(),
            r@.reliable.next_seq_num == 0,
    {
        let r = TotalOrderedMulticast {
            node_id,
            pq: pq_new(),
            queued_messages: Vec::new(),
            next_local_id: 0,
            next_priority_proposal: 0,
            reliable_multicast: ReliableMulticast::new(group),
        };
        r
    }

    /// The live peers, in handler order.
    pub fn members(&self) -> (r: Vec<NodeId>)
        ensures
            r@.to_set() == self@.reliable.members,
    {
        self.reliable_multicast.members()
    }

    /// Allocates the identity of this node\'s next message.
    fn get_local_id(&mut self) -> (r: MessageId)
        requires
            old(self).next_local_id < usize::MAX,
        ensures
            r == (MessageId {
                original_sender: old(self)@.node_id,
                local_id: old(self)@.next_local_id,
            }),
            final(self)@ == (EngineModel {
                next_local_id: (old(self)@.next_local_id + 1) as usize,
                ..old(self)@
            }),
            final(self).wf() == old(self).wf(),
    {
        let local_id = self.next_local_id;
        self.next_local_id = self.next_local_id + 1;
        MessageId { original_sender: self.node_id, local_id }
    }

    /// Allocates this node\'s next priority proposal.
    fn get_next_priority(&mut self) -> (r: MessagePriority)
        requires
            old(self).next_priority_proposal < usize::MAX,
        ensures
            r == (MessagePriority {
                priority: old(self)@.next_priority_proposal,
                proposer: old(self)@.node_id,
            }),
            final(self)@ == (EngineModel {
                next_priority_proposal: (old(self)@.next_priority_proposal + 1) as usize,
                ..old(self)@
            }),
            final(self).wf() == old(self).wf(),
    {
        let priority = self.next_priority_proposal;
        self.next_priority_proposal = self.next_priority_proposal + 1;
        MessagePriority { priority, proposer: self.node_id }
    }

    /// Priority synchronization: on observing a priority at least as large
    /// as the next proposal, advances past it, so that this node\'s future
    /// proposals exceed every priority it has observed.
    pub fn sync_next_priority(&mut self, other_priority: &MessagePriority)
        ensures
            final(self)@ == (EngineModel {
                next_priority_proposal: synced_npp(
                    old(self)@.next_priority_proposal,
                    other_priority.priority,
                ),
                ..old(self)@
            }),
            final(self)@.next_priority_proposal >= old(self)@.next_priority_proposal,
            final(self).wf() == old(self).wf(),
    {
        if other_priority.priority >= self.next_priority_proposal {
            if other_priority.priority < usize::MAX {
                self.next_priority_proposal = other_priority.priority + 1;
            } else {
                self.next_priority_proposal = usize::MAX;
            }
        }
    }
}


// ---------------------------------------------------------------------------
// The drain and its contract
// ---------------------------------------------------------------------------

/// The delivered pairs with payloads as byte sequences.
pub open spec fn deliv_views(s: Seq<(MessageId, Vec<u8>)>) -> Seq<(MessageId, Seq<u8>)> {
    s.map_values(|d: (MessageId, Vec<u8>)| (d.0, d.1@))
}

/// The identities of the delivered messages.
pub open spec fn delivered_ids(s: Seq<(MessageId, Seq<u8>)>) -> Set<MessageId> {
    Set::new(|id: MessageId| exists|i: int| 0 <= i < s.len() && (#[trigger] s[i]).0 == id)
}

/// The queue keys standing for a set of identities.
pub open spec fn keyset_of(ids: Set<MessageId>) -> Set<PqKey> {
    Set::new(|k: PqKey| ids.contains(key_id(k)))
}

/// The engine model with the sender sequence number advanced by one
/// broadcast.
pub open spec fn with_seq_bumped(m: EngineModel) -> EngineModel {
    EngineModel {
        reliable: ReliableModel {
            next_seq_num: (m.reliable.next_seq_num + 1) as usize,
            ..m.reliable
        },
        ..m
    }
}

/// What a priority-queue drain does: `post` is `pre` with exactly the
/// messages in `delivered` gone, and `delivered` is a duplicate-free run of
/// messages that were queued and deliverable in `pre`, handed out in
/// ascending priority order; nothing remaining has a priority below any of
/// them, and no message that is minimal in what remains is deliverable.
pub open spec fn drained(
    pre: EngineModel,
    post: EngineModel,
    delivered: Seq<(MessageId, Seq<u8>)>,
) -> bool {
    &&& post.node_id == pre.node_id
    &&& post.next_local_id == pre.next_local_id
    &&& post.next_priority_proposal == pre.next_priority_proposal
    &&& post.reliable == pre.reliable
    &&& forall|i: int| #![trigger delivered[i]]
        0 <= i < delivered.len() ==> {
            &&& pre.queued.dom().contains(delivered[i].0)
            &&& pre.queued[delivered[i].0].deliverable
            &&& delivered[i].1 == pre.queued[delivered[i].0].message
            &&& pre.pq.dom().contains(id_key(delivered[i].0))
        }
    &&& forall|i: int, j: int| #![trigger delivered[i], delivered[j]]
        0 <= i < j < delivered.len() ==> delivered[i].0 != delivered[j].0 && tup_le(
            pre.pq[id_key(delivered[i].0)],
            pre.pq[id_key(delivered[j].0)],
        )
    &&& forall|i: int, k: PqKey| #![trigger delivered[i], post.pq.dom().contains(k)]
        0 <= i < delivered.len() && post.pq.dom().contains(k) ==> tup_le(
            pre.pq[id_key(delivered[i].0)],
            post.pq[k],
        )
    &&& post.queued == pre.queued.remove_keys(delivered_ids(delivered))
    &&& post.pq == pre.pq.remove_keys(keyset_of(delivered_ids(delivered)))
    &&& (post.pq.dom().len() != 0 ==> exists|k: PqKey|
        {
            &&& #[trigger] post.pq.dom().contains(k)
            &&& forall|k2: PqKey| post.pq.dom().contains(k2) ==> tup_le(post.pq[k], post.pq[k2])
            &&& !post.queued[key_id(k)].deliverable
        })
}

impl TotalOrderedMulticast {
    /// Priority-queue drain: while the top of the queue is deliverable, pops
    /// it and hands its payload out; stops at the first non-deliverable top.
    /// The messages come out in ascending priority order and leave the
    /// engine for good.
    pub fn try_empty_pq(&mut self) -> (delivered: Vec<(MessageId, Vec<u8>)>)
        requires
            old(self).wf(),
        ensures
            final(self).wf(),
            drained(old(self)@, final(self)@, deliv_views(delivered@)),
    {
        let mut delivered: Vec<(MessageId, Vec<u8>)> = Vec::new();
        proof {
            assert(self@.queued =~= old(self)@.queued.remove_keys(
                delivered_ids(deliv_views(delivered@)),
            ));
            assert(self@.pq =~= old(self)@.pq.remove_keys(
                keyset_of(delivered_ids(deliv_views(delivered@))),
            ));
        }
        loop
            invariant
                self.wf(),
                self@.node_id == old(self)@.node_id,
                self@.next_local_id == old(self)@.next_local_id,
                self@.next_priority_proposal == old(self)@.next_priority_proposal,
                self@.reliable == old(self)@.reliable,
                forall|i: int| #![trigger deliv_views(delivered@)[i]]
                    0 <= i < delivered@.len() ==> {
                        &&& old(self)@.queued.dom().contains(deliv_views(delivered@)[i].0)
                        &&& old(self)@.queued[deliv_views(delivered@)[i].0].deliverable
                        &&& deliv_views(delivered@)[i].1 == old(self)@.queued[deliv_views(
                            delivered@,
                        )[i].0].message
                        &&& old(self)@.pq.dom().contains(id_key(deliv_views(delivered@)[i].0))
                    },
                forall|i: int, j: int| #![trigger deliv_views(delivered@)[i], deliv_views(delivered@)[j]]
                    0 <= i < j < delivered@.len() ==> deliv_views(delivered@)[i].0 != deliv_views(
                        delivered@,
                    )[j].0 && tup_le(
                        old(self)@.pq[id_key(deliv_views(delivered@)[i].0)],
                        old(self)@.pq[id_key(deliv_views(delivered@)[j].0)],
                    ),
                forall|i: int, k: PqKey| #![trigger deliv_views(delivered@)[i], self@.pq.dom().contains(k)]
                    0 <= i < delivered@.len() && self@.pq.dom().contains(k) ==> tup_le(
                        old(self)@.pq[id_key(deliv_views(delivered@)[i].0)],
                        self@.pq[k],
                    ),
                self@.queued == old(self)@.queued.remove_keys(
                    delivered_ids(deliv_views(delivered@)),
                ),
                self@.pq == old(self)@.pq.remove_keys(
                    keyset_of(delivered_ids(deliv_views(delivered@))),
                ),
            ensures
                (self@.pq.dom().len() != 0 ==> exists|k: PqKey|
                    {
                        &&& #[trigger] self@.pq.dom().contains(k)
                        &&& forall|k2: PqKey|
                            self@.pq.dom().contains(k2) ==> tup_le(self@.pq[k], self@.pq[k2])
                        &&& !self@.queued[key_id(k)].deliverable
                    }),
            decreases self@.pq.dom().len(),
        {
            let top = match pq_peek(&self.pq) {
                None => {
                    proof {
                        assert(self@.pq.dom() =~= Set::<PqKey>::empty());
                        assert(self@.pq.dom().len() == 0);
                    }
                    break ;
                },
                Some(t) => t,
            };
            let k = top.0;
            let id = MessageId { original_sender: k.0, local_id: k.1 };
            proof {
                assert(id_key(id) == k);
                assert(self@.queued.dom().contains(id));
            }
            let deliverable = match tbl_get(&self.queued_messages, &id) {
                Some(qm) => qm.is_deliverable(),
                None => false,
            };
            if !deliverable {
                proof {
                    assert(self@.pq.dom().contains(k));
                    assert(!self@.queued[key_id(k)].deliverable) by {
                        assert(key_id(k) == id);
                    }
                }
                break ;
            }
            let ghost mid_state = self@;
            let ghost pre_delivered = delivered@;
            let _popped = pq_remove(&mut self.pq, k);
            let qm = match tbl_remove(&mut self.queued_messages, &id) {
                Some(qm) => qm,
                None => {
                    proof {
                        assert(false);
                    }
                    QueuedMessage::new(Vec::new())
                },
            };
            let payload = qm.into_message();
            delivered.push((id, payload));
            proof {
                assert(deliv_views(delivered@).drop_last() =~= deliv_views(pre_delivered));
                assert(deliv_views(delivered@).last() == (id, mid_state.queued[id].message));
                assert(delivered_ids(deliv_views(delivered@)) =~= delivered_ids(
                    deliv_views(pre_delivered),
                ).insert(id)) by {
                    assert forall|x: MessageId|
                        delivered_ids(deliv_views(delivered@)).contains(x) implies delivered_ids(
                        deliv_views(pre_delivered),
                    ).insert(id).contains(x) by {
                        let i = choose|i: int|
                            0 <= i < deliv_views(delivered@).len() && (#[trigger] deliv_views(
                                delivered@,
                            )[i]).0 == x;
                        if i < pre_delivered.len() {
                            assert(deliv_views(pre_delivered)[i].0 == x);
                        }
                    }
                    assert forall|x: MessageId|
                        delivered_ids(deliv_views(pre_delivered)).insert(id).contains(
                            x,
                        ) implies delivered_ids(deliv_views(delivered@)).contains(x) by {
                        if x == id {
                            assert((deliv_views(delivered@)[delivered@.len() - 1]).0 == x);
                        } else {
                            let i = choose|i: int|
                                0 <= i < deliv_views(pre_delivered).len() && (#[trigger] deliv_views(
                                    pre_delivered,
                                )[i]).0 == x;
                            assert((deliv_views(delivered@)[i]).0 == x);
                        }
                    }
                }
                assert(self@.queued =~= old(self)@.queued.remove_keys(
                    delivered_ids(deliv_views(delivered@)),
                ));
                assert(self@.pq =~= old(self)@.pq.remove_keys(
                    keyset_of(delivered_ids(deliv_views(delivered@))),
                )) by {
                    assert forall|k2: PqKey|
                        self@.pq.dom().contains(k2) == (old(self)@.pq.dom().contains(k2)
                            && !keyset_of(delivered_ids(deliv_views(delivered@))).contains(
                            k2,
                        )) by {
                        assert((k2.0, k2.1) == k2);
                        assert(id_key(key_id(k2)) == k2);
                        if k2 == k {
                            assert(key_id(k2) == id);
                        }
                    }
                }
                assert(mid_state.pq[k] == old(self)@.pq[k]);
                assert(self@.pq.dom().len() < mid_state.pq.dom().len()) by {
                    assert(self@.pq.dom() =~= mid_state.pq.dom().remove(k));
                }
                // relate the new delivery to the initial state
                assert(old(self)@.queued.dom().contains(id));
                assert(old(self)@.queued[id] == mid_state.queued[id]);
                assert(old(self)@.pq.dom().contains(id_key(id)));
                let dv = deliv_views(delivered@);
                let n = dv.len() - 1;
                assert(dv[n].0 == id && dv[n].1 == mid_state.queued[id].message);
                assert forall|i: int| 0 <= i < dv.len() implies {
                    &&& old(self)@.queued.dom().contains((#[trigger] dv[i]).0)
                    &&& old(self)@.queued[dv[i].0].deliverable
                    &&& dv[i].1 == old(self)@.queued[dv[i].0].message
                    &&& old(self)@.pq.dom().contains(id_key(dv[i].0))
                } by {
                    if i < n {
                        assert(dv[i] == deliv_views(pre_delivered)[i]);
                    }
                }
                assert forall|i: int, j: int|
                    0 <= i < j < dv.len() implies (#[trigger] dv[i]).0 != (#[trigger] dv[j]).0
                    && tup_le(old(self)@.pq[id_key(dv[i].0)], old(self)@.pq[id_key(dv[j].0)]) by {
                    if j < n {
                        assert(dv[i] == deliv_views(pre_delivered)[i]);
                        assert(dv[j] == deliv_views(pre_delivered)[j]);
                    } else {
                        assert(dv[j].0 == id);
                        if i < n {
                            assert(dv[i] == deliv_views(pre_delivered)[i]);
                            assert(tup_le(
                                old(self)@.pq[id_key(dv[i].0)],
                                mid_state.pq[id_key(id)],
                            ));
                            assert(dv[i].0 != id) by {
                                assert(!delivered_ids(deliv_views(pre_delivered)).contains(id));
                                assert((deliv_views(pre_delivered)[i]).0 == dv[i].0);
                            }
                        }
                    }
                }
                assert forall|i: int, k2: PqKey|
                    0 <= i < dv.len() && (#[trigger] self@.pq.dom().contains(k2)) implies tup_le(
                    old(self)@.pq[id_key((#[trigger] dv[i]).0)],
                    self@.pq[k2],
                ) by {
                    assert(mid_state.pq.dom().contains(k2));
                    assert(self@.pq[k2] == mid_state.pq[k2]);
                    if i < n {
                        assert(dv[i] == deliv_views(pre_delivered)[i]);
                    } else {
                        assert(dv[i].0 == id);
                        assert(tup_le(mid_state.pq[k], mid_state.pq[k2]));
                    }
                }
            }
        }
        delivered
    }
}


// ---------------------------------------------------------------------------
// The protocol steps as functions of the model
// ---------------------------------------------------------------------------

/// The next-proposal counter after observing a priority: advanced past any
/// observed priority at least as large, saturating at the machine limit.
pub open spec fn synced_npp(npp: usize, observed: usize) -> usize {
    if observed >= npp {
        if observed < usize::MAX {
            (observed + 1) as usize
        } else {
            usize::MAX
        }
    } else {
        npp
    }
}

/// Whether, after this proposal's vote is recorded, every live peer has
/// voted for the message.
pub open spec fn proposal_quorum(pre: EngineModel, p: PriorityProposalArgs) -> bool {
    pre.reliable.members.subset_of(
        pre.queued[p.requester_local_id].votes.insert(p.priority.proposer),
    )
}

/// The engine after recording one priority proposal for a known message:
/// the queue entry is raised to the proposed priority if that is larger, the
/// proposer's vote is recorded, and if every live peer has now voted the
/// message becomes deliverable and its final priority goes out (one
/// broadcast).
pub open spec fn proposal_step(pre: EngineModel, p: PriorityProposalArgs) -> EngineModel {
    let mid = p.requester_local_id;
    let k = id_key(mid);
    let newp = pri_val(p.priority);
    let raised = if tup_lt(pre.pq[k], newp) {
        pre.pq.insert(k, newp)
    } else {
        pre.pq
    };
    let votes2 = pre.queued[mid].votes.insert(p.priority.proposer);
    let quorum = pre.reliable.members.subset_of(votes2);
    let qm2 = QmModel {
        deliverable: pre.queued[mid].deliverable || quorum,
        votes: votes2,
        ..pre.queued[mid]
    };
    let stepped = EngineModel { pq: raised, queued: pre.queued.insert(mid, qm2), ..pre };
    if quorum {
        with_seq_bumped(stepped)
    } else {
        stepped
    }
}

/// The engine after receiving a final priority for a message: the
/// next-proposal counter synchronizes with the final priority, and if the
/// message is known its queue entry is raised to the final priority and
/// marked deliverable.
pub open spec fn priority_message_step(pre: EngineModel, m: PriorityMessageArgs) -> EngineModel {
    let synced = EngineModel {
        next_priority_proposal: synced_npp(pre.next_priority_proposal, m.priority.priority),
        ..pre
    };
    if !pre.queued.dom().contains(m.local_id) {
        synced
    } else {
        let k = id_key(m.local_id);
        let newp = pri_val(m.priority);
        let raised = if tup_lt(pre.pq[k], newp) {
            pre.pq.insert(k, newp)
        } else {
            pre.pq
        };
        let qm2 = QmModel { deliverable: true, ..pre.queued[m.local_id] };
        EngineModel { pq: raised, queued: pre.queued.insert(m.local_id, qm2), ..synced }
    }
}

impl TotalOrderedMulticast {
    /// Phase A, at the originator: allocates the message its identity and
    /// this node\'s own proposed priority, queues it with a self-vote, and
    /// reliably broadcasts the priority request. An error reports peers
    /// whose handler queue had closed.
    pub fn request_priority(&mut self, msg: Vec<u8>) -> (r: Result<(), MulticastError>)
        requires
            old(self).wf(),
            old(self)@.next_local_id < usize::MAX,
            old(self)@.next_priority_proposal < usize::MAX,
            old(self)@.reliable.next_seq_num < usize::MAX,
        ensures
            final(self).wf(),
            ({
                let id = MessageId {
                    original_sender: old(self)@.node_id,
                    local_id: old(self)@.next_local_id,
                };
                let pri = (old(self)@.next_priority_proposal, old(self)@.node_id);
                &&& final(self)@.node_id == old(self)@.node_id
                &&& final(self)@.pq == old(self)@.pq.insert(id_key(id), pri)
                &&& final(self)@.queued == old(self)@.queued.insert(
                    id,
                    QmModel {
                        message: msg@,
                        deliverable: false,
                        votes: Set::empty().insert(old(self)@.node_id),
                    },
                )
                &&& final(self)@.next_local_id == old(self)@.next_local_id + 1
                &&& final(self)@.next_priority_proposal == old(self)@.next_priority_proposal + 1
                &&& final(self)@.reliable == (ReliableModel {
                    next_seq_num: (old(self)@.reliable.next_seq_num + 1) as usize,
                    ..old(self)@.reliable
                })
            }),
            (r matches Err(e) ==> e matches MulticastError::BroadcastError(failed) && failed@.len()
                > 0 && forall|i: int|
                0 <= i < failed@.len() ==> old(self)@.reliable.members.contains(
                    #[trigger] failed@[i],
                )),
    {
        let local_id = self.get_local_id();
        let my_pri = self.get_next_priority();
        let ghost pre_q = self.queued_messages@;
        pq_push(&mut self.pq, (local_id.original_sender, local_id.local_id), (my_pri.priority, my_pri.proposer));
        let mut queued = QueuedMessage::new(clone_bytes(&msg));
        queued.add_voter(self.node_id);
        tbl_insert(&mut self.queued_messages, local_id, queued);
        proof {
            assert(id_key(local_id) == (local_id.original_sender, local_id.local_id));
            assert(pri_val(my_pri) == (my_pri.priority, my_pri.proposer));
            assert(self.wf()) by {
                assert forall|id2: MessageId| #![trigger id_key(id2)]
                    qm_map(self.queued_messages@).dom().contains(id2) <==> pq_view(
                        self.pq,
                    ).dom().contains(id_key(id2)) by {
                    if id2 != local_id {
                        assert(id_key(id2) != id_key(local_id));
                    }
                }
            }
        }
        let rq_type = PriorityRequestArgs { local_id, message: msg };
        self.reliable_multicast.broadcast(TotalOrderNetworkMessage::PriorityRequest(rq_type))
    }

    /// Phase B, at a receiver: allocates this node\'s proposed priority for
    /// the requested message, queues the message under that priority, and
    /// sends the proposal directly back to the originator as a one-off.
    pub fn propose_priority(&mut self, request: PriorityRequestArgs) -> (r: Result<
        (),
        MulticastError,
    >)
        requires
            old(self).wf(),
            old(self)@.next_priority_proposal < usize::MAX,
        ensures
            final(self).wf(),
            ({
                let mid = request.local_id;
                let pri = (old(self)@.next_priority_proposal, old(self)@.node_id);
                &&& final(self)@.node_id == old(self)@.node_id
                &&& final(self)@.pq == old(self)@.pq.insert(id_key(mid), pri)
                &&& final(self)@.queued == old(self)@.queued.insert(
                    mid,
                    QmModel { message: request.message@, deliverable: false, votes: Set::empty() },
                )
                &&& final(self)@.next_local_id == old(self)@.next_local_id
                &&& final(self)@.next_priority_proposal == old(self)@.next_priority_proposal + 1
                &&& final(self)@.reliable == old(self)@.reliable
            }),
            ({
                let origin = request.local_id.original_sender;
                &&& !old(self)@.reliable.members.contains(origin) ==> r == Err::<
                    (),
                    MulticastError,
                >(MulticastError::InvalidRecipient(origin))
                &&& old(self)@.reliable.members.contains(origin) ==> (r is Ok || r == Err::<
                    (),
                    MulticastError,
                >(MulticastError::ClientDisconnected(origin)))
            }),
    {
        let requester_local_id = request.local_id;
        let priority = self.get_next_priority();
        let recipient = requester_local_id.original_sender;
        pq_push(
            &mut self.pq,
            (requester_local_id.original_sender, requester_local_id.local_id),
            (priority.priority, priority.proposer),
        );
        tbl_insert(&mut self.queued_messages, requester_local_id, QueuedMessage::new(request.message));
        proof {
            assert(id_key(requester_local_id) == (
                requester_local_id.original_sender,
                requester_local_id.local_id,
            ));
            assert(self.wf()) by {
                assert forall|id2: MessageId| #![trigger id_key(id2)]
                    qm_map(self.queued_messages@).dom().contains(id2) <==> pq_view(
                        self.pq,
                    ).dom().contains(id_key(id2)) by {
                    if id2 != requester_local_id {
                        assert(id_key(id2) != id_key(requester_local_id));
                    }
                }
            }
        }
        let proposed_pri = PriorityProposalArgs { requester_local_id, priority };
        let msg_type = TotalOrderNetworkMessage::PriorityProposal(proposed_pri);
        self.reliable_multicast.send_to(msg_type, recipient)
    }

    /// Phase C, at the originator: reads the message\'s current queue
    /// priority — the maximum of the proposals seen — and reliably
    /// broadcasts it as the final agreed priority.
    fn confirmed_message_priority(&mut self, message_id: MessageId) -> (r: Result<
        (),
        MulticastError,
    >)
        requires
            old(self).wf(),
            old(self)@.pq.dom().contains(id_key(message_id)),
            old(self)@.reliable.next_seq_num < usize::MAX,
        ensures
            final(self).wf(),
            final(self)@ == with_seq_bumped(old(self)@),
            (r matches Err(e) ==> e matches MulticastError::BroadcastError(failed) && failed@.len()
                > 0),
    {
        let pri = match pq_get_priority(&self.pq, (message_id.original_sender, message_id.local_id)) {
            Some(p) => p,
            None => {
                proof {
                    assert(id_key(message_id) == (message_id.original_sender, message_id.local_id));
                    assert(false);
                }
                return Err(MulticastError::InternalError);
            },
        };
        let priority = MessagePriority { priority: pri.0, proposer: pri.1 };
        let r = self.reliable_multicast.broadcast(
            TotalOrderNetworkMessage::PriorityMessage(PriorityMessageArgs { local_id: message_id, priority }),
        );
        proof {
            assert(final(self)@ =~~= with_seq_bumped(old(self)@));
        }
        r
    }

    /// Records one incoming priority proposal for one of this node\'s own
    /// messages: raises the queue entry to the proposed priority if larger
    /// and records the vote. Once every live peer has voted, the message
    /// becomes deliverable, its final priority goes out, and the queue
    /// drains. A proposal for an unknown message changes nothing.
    pub fn process_priority_proposal(&mut self, proposal: PriorityProposalArgs) -> (r: (
        Vec<(MessageId, Vec<u8>)>,
        Result<(), MulticastError>,
    ))
        requires
            old(self).wf(),
            old(self)@.reliable.next_seq_num < usize::MAX,
        ensures
            final(self).wf(),
            (!old(self)@.queued.dom().contains(proposal.requester_local_id) ==> final(self)@ == old(
                self,
            )@ && r.0@.len() == 0 && r.1 is Ok),
            (old(self)@.queued.dom().contains(proposal.requester_local_id) ==> {
                let s1 = proposal_step(old(self)@, proposal);
                &&& (!proposal_quorum(old(self)@, proposal) ==> final(self)@ == s1 && r.0@.len()
                    == 0 && r.1 is Ok)
                &&& (proposal_quorum(old(self)@, proposal) && r.1 is Ok ==> drained(
                    s1,
                    final(self)@,
                    deliv_views(r.0@),
                ))
                &&& (proposal_quorum(old(self)@, proposal) && r.1 is Err ==> final(self)@ == s1
                    && r.0@.len() == 0)
            }),
    {
        let mid = proposal.requester_local_id;
        let i = match tbl_find(&self.queued_messages, &mid) {
            None => {
                return (Vec::new(), Ok(()));
            },
            Some(i) => i,
        };
        let ghost pre = self@;
        let ghost pre_q = self.queued_messages@;
        proof {
            lemma_qm_index(pre_q, i as int);
            assert(id_key(mid) == (mid.original_sender, mid.local_id));
        }
        pq_push_decrease(
            &mut self.pq,
            (mid.original_sender, mid.local_id),
            (proposal.priority.priority, proposal.priority.proposer),
        );
        let e = self.queued_messages.remove(i);
        let mut qm = e.1;
        qm.add_voter(proposal.priority.proposer);
        let members = self.reliable_multicast.members();
        let quorum = qm.votes_superset(&members);
        if quorum {
            qm.mark_deliverable();
        }
        self.queued_messages.insert(i, (e.0, qm));
        proof {
            assert(self.queued_messages@ =~= pre_q.update(i as int, (mid, qm)));
            lemma_qm_update(pre_q, i as int, qm);
            assert(pri_val(proposal.priority) == (
                proposal.priority.priority,
                proposal.priority.proposer,
            ));
            assert(quorum == proposal_quorum(pre, proposal));
            assert(self.wf()) by {
                assert forall|id2: MessageId| #![trigger id_key(id2)]
                    qm_map(self.queued_messages@).dom().contains(id2) <==> pq_view(
                        self.pq,
                    ).dom().contains(id_key(id2)) by {
                    if id2 != mid {
                        assert(id_key(id2) != id_key(mid));
                    }
                }
            }
        }
        if quorum {
            match self.confirmed_message_priority(mid) {
                Ok(()) => {
                    proof {
                        assert(self@ =~~= proposal_step(pre, proposal));
                    }
                    let delivered = self.try_empty_pq();
                    (delivered, Ok(()))
                },
                Err(e2) => {
                    proof {
                        assert(self@ =~~= proposal_step(pre, proposal));
                    }
                    (Vec::new(), Err(e2))
                },
            }
        } else {
            proof {
                assert(self@ =~~= proposal_step(pre, proposal));
            }
            (Vec::new(), Ok(()))
        }
    }

    /// Receives a final agreed priority: synchronizes the next-proposal
    /// counter with it, and if the message is known, raises its queue entry
    /// to the final priority, marks it deliverable, and drains the queue.
    /// A final priority for an unknown message only synchronizes.
    pub fn process_priority_message(&mut self, m: PriorityMessageArgs) -> (delivered: Vec<
        (MessageId, Vec<u8>)>)
        requires
            old(self).wf(),
        ensures
            final(self).wf(),
            (!old(self)@.queued.dom().contains(m.local_id) ==> final(self)@ == priority_message_step(
                old(self)@,
                m,
            ) && delivered@.len() == 0),
            (old(self)@.queued.dom().contains(m.local_id) ==> drained(
                priority_message_step(old(self)@, m),
                final(self)@,
                deliv_views(delivered@),
            )),
    {
        let ghost pre = self@;
        self.sync_next_priority(&m.priority);
        let mid = m.local_id;
        let i = match tbl_find(&self.queued_messages, &mid) {
            None => {
                return Vec::new();
            },
            Some(i) => i,
        };
        let ghost pre_q = self.queued_messages@;
        proof {
            lemma_qm_index(pre_q, i as int);
            assert(id_key(mid) == (mid.original_sender, mid.local_id));
        }
        let e = self.queued_messages.remove(i);
        let mut qm = e.1;
        qm.mark_deliverable();
        self.queued_messages.insert(i, (e.0, qm));
        pq_push_decrease(
            &mut self.pq,
            (mid.original_sender, mid.local_id),
            (m.priority.priority, m.priority.proposer),
        );
        proof {
            assert(self.queued_messages@ =~= pre_q.update(i as int, (mid, qm)));
            lemma_qm_update(pre_q, i as int, qm);
            assert(pri_val(m.priority) == (m.priority.priority, m.priority.proposer));
            assert(self.wf()) by {
                assert forall|id2: MessageId| #![trigger id_key(id2)]
                    qm_map(self.queued_messages@).dom().contains(id2) <==> pq_view(
                        self.pq,
                    ).dom().contains(id_key(id2)) by {
                    if id2 != mid {
                        assert(id_key(id2) != id_key(mid));
                    }
                }
            }
            assert(self@ =~~= priority_message_step(pre, m));
        }
        self.try_empty_pq()
    }
}


// ---------------------------------------------------------------------------
// Crash handling
// ---------------------------------------------------------------------------

/// The messages a grace-period flush removes: originated by the dead peer
/// and never finalized.
pub open spec fn flush_victims(pre: EngineModel, member_id: NodeId) -> Set<MessageId> {
    Set::new(
        |id: MessageId|
            pre.queued.dom().contains(id) && id.original_sender == member_id
                && !pre.queued[id].deliverable,
    )
}

/// The messages a delivery-status recheck newly finalizes: not yet
/// deliverable, but every live peer has voted for them.
pub open spec fn recheck_set(pre: EngineModel) -> Set<MessageId> {
    Set::new(
        |id: MessageId|
            pre.queued.dom().contains(id) && !pre.queued[id].deliverable
                && pre.reliable.members.subset_of(pre.queued[id].votes),
    )
}

/// The record table with the deliverable flag raised on a set of messages.
pub open spec fn mark_all(pre: Map<MessageId, QmModel>, ids: Set<MessageId>) -> Map<
    MessageId,
    QmModel,
> {
    Map::new(
        |id: MessageId| pre.dom().contains(id),
        |id: MessageId|
            if ids.contains(id) {
                QmModel { deliverable: true, ..pre[id] }
            } else {
                pre[id]
            },
    )
}

/// The live set with a list of dead peers taken out.
pub open spec fn members_minus(s: Set<NodeId>, dead: Seq<NodeId>) -> Set<NodeId> {
    Set::new(|x: NodeId| s.contains(x) && !dead.contains(x))
}

impl TotalOrderedMulticast {
    /// Grace-period flush: removes from the queue every message that the
    /// dead peer originated and that never became deliverable. These are
    /// unrecoverable; flushing them unblocks the queue for later messages.
    pub fn flush_pq_unconfirmed_messages(&mut self, member_id: NodeId)
        requires
            old(self).wf(),
        ensures
            final(self).wf(),
            final(self)@ == (EngineModel {
                queued: old(self)@.queued.remove_keys(flush_victims(old(self)@, member_id)),
                pq: old(self)@.pq.remove_keys(keyset_of(flush_victims(old(self)@, member_id))),
                ..old(self)@
            }),
    {
        let ghost pre = self@;
        let mut to_remove: Vec<MessageId> = Vec::new();
        let mut i: usize = 0;
        while i < self.queued_messages.len()
            invariant
                self.wf(),
                self == old(self),
                self@ == pre,
                i <= self.queued_messages@.len(),
                forall|j: int| #![trigger to_remove@[j]]
                    0 <= j < to_remove@.len() ==> flush_victims(pre, member_id).contains(
                        to_remove@[j],
                    ) && qm_keys(self.queued_messages@).take(i as int).contains(to_remove@[j]),
                forall|j: int|
                    0 <= j < i ==> (flush_victims(pre, member_id).contains(
                        #[trigger] self.queued_messages@[j].0,
                    ) ==> to_remove@.contains(self.queued_messages@[j].0)),
                to_remove@.no_duplicates(),
            decreases self.queued_messages@.len() - i,
        {
            let ghost pre_tr = to_remove@;
            let entry_id = self.queued_messages[i].0;
            let deliverable = self.queued_messages[i].1.is_deliverable();
            proof {
                lemma_qm_index(self.queued_messages@, i as int);
                assert(qm_keys(self.queued_messages@)[i as int] == entry_id);
            }
            let hit = entry_id.original_sender == member_id && !deliverable;
            if hit {
                proof {
                    assert forall|j: int| 0 <= j < to_remove@.len() implies to_remove@[j]
                        != entry_id by {
                        let t0 = qm_keys(self.queued_messages@).take(i as int);
                        let kk = choose|kk: int| 0 <= kk < t0.len() && t0[kk] == to_remove@[j];
                        assert(qm_keys(self.queued_messages@)[kk] == t0[kk]);
                    }
                    assert(flush_victims(pre, member_id).contains(entry_id));
                }
                to_remove.push(entry_id);
            }
            proof {
                let keys1 = qm_keys(self.queued_messages@).take(i as int + 1);
                assert forall|j: int| 0 <= j < to_remove@.len() implies flush_victims(
                    pre,
                    member_id,
                ).contains(#[trigger] to_remove@[j]) && keys1.contains(to_remove@[j]) by {
                    if j < pre_tr.len() {
                        assert(to_remove@[j] == pre_tr[j]);
                        let t0 = qm_keys(self.queued_messages@).take(i as int);
                        let kk = choose|kk: int| 0 <= kk < t0.len() && t0[kk] == pre_tr[j];
                        assert(keys1[kk] == to_remove@[j]);
                    } else {
                        assert(to_remove@[j] == entry_id);
                        assert(keys1[i as int] == entry_id);
                    }
                }
                assert forall|j: int|
                    0 <= j < i + 1 && flush_victims(pre, member_id).contains(
                        #[trigger] self.queued_messages@[j].0,
                    ) implies to_remove@.contains(self.queued_messages@[j].0) by {
                    if j < i {
                        assert(pre_tr.contains(self.queued_messages@[j].0));
                        let kk = choose|kk: int|
                            0 <= kk < pre_tr.len() && pre_tr[kk] == self.queued_messages@[j].0;
                        assert(to_remove@[kk] == self.queued_messages@[j].0);
                    } else {
                        assert(self.queued_messages@[j].0 == entry_id);
                        assert(hit);
                        assert(to_remove@[to_remove@.len() - 1] == entry_id);
                    }
                }
            }
            i = i + 1;
        }
        proof {
            lemma_qm_dom(self.queued_messages@);
            assert(to_remove@.to_set() =~= flush_victims(pre, member_id)) by {
                assert forall|x: MessageId| to_remove@.to_set().contains(x) implies flush_victims(
                    pre,
                    member_id,
                ).contains(x) by {
                    let j = choose|j: int| 0 <= j < to_remove@.len() && to_remove@[j] == x;
                }
                assert forall|x: MessageId|
                    flush_victims(pre, member_id).contains(x) implies to_remove@.to_set().contains(
                    x,
                ) by {
                    assert(qm_keys(self.queued_messages@).contains(x));
                    let j = choose|j: int|
                        0 <= j < qm_keys(self.queued_messages@).len() && qm_keys(
                            self.queued_messages@,
                        )[j] == x;
                    assert(self.queued_messages@[j].0 == x);
                }
            }
        }
        let mut j: usize = 0;
        while j < to_remove.len()
            invariant
                self.wf(),
                to_remove@.to_set() == flush_victims(pre, member_id),
                to_remove@.no_duplicates(),
                self@.node_id == pre.node_id,
                self@.next_local_id == pre.next_local_id,
                self@.next_priority_proposal == pre.next_priority_proposal,
                self@.reliable == pre.reliable,
                j <= to_remove@.len(),
                self@.queued == pre.queued.remove_keys(to_remove@.take(j as int).to_set()),
                self@.pq == pre.pq.remove_keys(keyset_of(to_remove@.take(j as int).to_set())),
            decreases to_remove@.len() - j,
        {
            let id = to_remove[j];
            let k = (id.original_sender, id.local_id);
            let ghost mid_state = self@;
            pq_remove(&mut self.pq, k);
            tbl_remove(&mut self.queued_messages, &id);
            proof {
                assert(id_key(id) == k);
                assert(to_remove@.take(j as int + 1).to_set() =~= to_remove@.take(
                    j as int,
                ).to_set().insert(id)) by {
                    assert(to_remove@.take(j as int + 1).drop_last() =~= to_remove@.take(j as int));
                    assert forall|x: MessageId|
                        to_remove@.take(j as int + 1).to_set().contains(x) implies to_remove@.take(
                        j as int,
                    ).to_set().insert(id).contains(x) by {
                        let t1 = to_remove@.take(j as int + 1);
                        let kk = choose|kk: int| 0 <= kk < t1.len() && t1[kk] == x;
                        if kk < j {
                            assert(to_remove@.take(j as int)[kk] == x);
                        }
                    }
                    assert forall|x: MessageId|
                        to_remove@.take(j as int).to_set().insert(id).contains(
                            x,
                        ) implies to_remove@.take(j as int + 1).to_set().contains(x) by {
                        if x == id {
                            assert(to_remove@.take(j as int + 1)[j as int] == x);
                        } else {
                            let kk = choose|kk: int|
                                0 <= kk < j && to_remove@.take(j as int)[kk] == x;
                            assert(to_remove@.take(j as int + 1)[kk] == x);
                        }
                    }
                }
                assert(self@.queued =~= pre.queued.remove_keys(
                    to_remove@.take(j as int + 1).to_set(),
                ));
                assert(self@.pq =~= pre.pq.remove_keys(
                    keyset_of(to_remove@.take(j as int + 1).to_set()),
                )) by {
                    assert forall|k2: PqKey|
                        self@.pq.dom().contains(k2) == (pre.pq.dom().contains(k2) && !keyset_of(
                            to_remove@.take(j as int + 1).to_set(),
                        ).contains(k2)) by {
                        assert((k2.0, k2.1) == k2);
                        assert(id_key(key_id(k2)) == k2);
                        if k2 == k {
                            assert(key_id(k2) == id);
                        }
                    }
                }
                assert(self.wf()) by {
                    assert forall|id2: MessageId| #![trigger id_key(id2)]
                        qm_map(self.queued_messages@).dom().contains(id2) <==> pq_view(
                            self.pq,
                        ).dom().contains(id_key(id2)) by {
                        if id2 != id {
                            assert(id_key(id2) != id_key(id));
                        }
                    }
                }
            }
            j = j + 1;
        }
        proof {
            assert(to_remove@.take(to_remove@.len() as int) =~= to_remove@);
            assert(final(self)@ =~~= (EngineModel {
                queued: pre.queued.remove_keys(flush_victims(pre, member_id)),
                pq: pre.pq.remove_keys(keyset_of(flush_victims(pre, member_id))),
                ..pre
            }));
        }
    }

    /// Recheck after a membership change: any message for which every still-
    /// live peer has voted becomes deliverable, and its final priority is
    /// broadcast. On a broadcast error the remaining final priorities are
    /// not sent, but every affected message is already marked.
    pub fn recheck_pq_delivery_status(&mut self) -> (r: Result<(), MulticastError>)
        requires
            old(self).wf(),
            old(self)@.reliable.next_seq_num + old(self)@.queued.dom().len() <= usize::MAX,
        ensures
            final(self).wf(),
            final(self)@.node_id == old(self)@.node_id,
            final(self)@.next_local_id == old(self)@.next_local_id,
            final(self)@.next_priority_proposal == old(self)@.next_priority_proposal,
            final(self)@.pq == old(self)@.pq,
            final(self)@.queued == mark_all(old(self)@.queued, recheck_set(old(self)@)),
            final(self)@.reliable.members == old(self)@.reliable.members,
            final(self)@.reliable.prior_seq == old(self)@.reliable.prior_seq,
            final(self)@.reliable.next_seq_num >= old(self)@.reliable.next_seq_num,
            (r matches Err(e) ==> e matches MulticastError::BroadcastError(failed)
                && failed@.len() > 0),
    {
        let ghost pre = self@;
        let members = self.reliable_multicast.members();
        let mut to_confirm: Vec<MessageId> = Vec::new();
        let mut i: usize = 0;
        proof {
            assert(qm_keys(self.queued_messages@).no_duplicates());
            qm_keys(self.queued_messages@).unique_seq_to_set();
            lemma_qm_dom(self.queued_messages@);
            assert(qm_keys(self.queued_messages@).to_set() =~= pre.queued.dom());
        }
        while i < self.queued_messages.len()
            invariant
                self.wf(),
                self == old(self),
                self@ == pre,
                members@.to_set() == pre.reliable.members,
                i <= self.queued_messages@.len(),
                forall|j: int| #![trigger to_confirm@[j]]
                    0 <= j < to_confirm@.len() ==> recheck_set(pre).contains(to_confirm@[j])
                        && qm_keys(self.queued_messages@).take(i as int).contains(to_confirm@[j]),
                forall|j: int|
                    0 <= j < i ==> (recheck_set(pre).contains(
                        #[trigger] self.queued_messages@[j].0,
                    ) ==> to_confirm@.contains(self.queued_messages@[j].0)),
                to_confirm@.no_duplicates(),
            decreases self.queued_messages@.len() - i,
        {
            let ghost pre_tr = to_confirm@;
            let entry_id = self.queued_messages[i].0;
            proof {
                lemma_qm_index(self.queued_messages@, i as int);
                assert(qm_keys(self.queued_messages@)[i as int] == entry_id);
            }
            let hit = !self.queued_messages[i].1.is_deliverable()
                && self.queued_messages[i].1.votes_superset(&members);
            if hit {
                proof {
                    assert forall|j: int| 0 <= j < to_confirm@.len() implies to_confirm@[j]
                        != entry_id by {
                        let t0 = qm_keys(self.queued_messages@).take(i as int);
                        let kk = choose|kk: int| 0 <= kk < t0.len() && t0[kk] == to_confirm@[j];
                        assert(qm_keys(self.queued_messages@)[kk] == t0[kk]);
                    }
                    assert(recheck_set(pre).contains(entry_id));
                }
                to_confirm.push(entry_id);
            }
            proof {
                let keys1 = qm_keys(self.queued_messages@).take(i as int + 1);
                assert forall|j: int| 0 <= j < to_confirm@.len() implies recheck_set(pre).contains(
                    #[trigger] to_confirm@[j],
                ) && keys1.contains(to_confirm@[j]) by {
                    if j < pre_tr.len() {
                        assert(to_confirm@[j] == pre_tr[j]);
                        let t0 = qm_keys(self.queued_messages@).take(i as int);
                        let kk = choose|kk: int| 0 <= kk < t0.len() && t0[kk] == pre_tr[j];
                        assert(keys1[kk] == to_confirm@[j]);
                    } else {
                        assert(to_confirm@[j] == entry_id);
                        assert(keys1[i as int] == entry_id);
                    }
                }
                assert forall|j: int|
                    0 <= j < i + 1 && recheck_set(pre).contains(
                        #[trigger] self.queued_messages@[j].0,
                    ) implies to_confirm@.contains(self.queued_messages@[j].0) by {
                    if j < i {
                        assert(pre_tr.contains(self.queued_messages@[j].0));
                        let kk = choose|kk: int|
                            0 <= kk < pre_tr.len() && pre_tr[kk] == self.queued_messages@[j].0;
                        assert(to_confirm@[kk] == self.queued_messages@[j].0);
                    } else {
                        assert(self.queued_messages@[j].0 == entry_id);
                        assert(hit);
                        assert(to_confirm@[to_confirm@.len() - 1] == entry_id);
                    }
                }
            }
            i = i + 1;
        }
        proof {
            lemma_qm_dom(self.queued_messages@);
            assert(to_confirm@.to_set() =~= recheck_set(pre)) by {
                assert forall|x: MessageId| to_confirm@.to_set().contains(x) implies recheck_set(
                    pre,
                ).contains(x) by {
                    let j = choose|j: int| 0 <= j < to_confirm@.len() && to_confirm@[j] == x;
                }
                assert forall|x: MessageId|
                    recheck_set(pre).contains(x) implies to_confirm@.to_set().contains(x) by {
                    assert(qm_keys(self.queued_messages@).contains(x));
                    let j = choose|j: int|
                        0 <= j < qm_keys(self.queued_messages@).len() && qm_keys(
                            self.queued_messages@,
                        )[j] == x;
                    assert(self.queued_messages@[j].0 == x);
                }
            }
            to_confirm@.unique_seq_to_set();
            vstd::set_lib::lemma_len_subset(to_confirm@.to_set(), pre.queued.dom());
        }
        let mut j: usize = 0;
        let mut out: Result<(), MulticastError> = Ok(());
        while j < to_confirm.len()
            invariant
                self.wf(),
                to_confirm@.to_set() == recheck_set(pre),
                to_confirm@.no_duplicates(),
                j <= to_confirm@.len(),
                self@.node_id == pre.node_id,
                self@.next_local_id == pre.next_local_id,
                self@.next_priority_proposal == pre.next_priority_proposal,
                self@.pq == pre.pq,
                self@.queued == mark_all(pre.queued, to_confirm@.take(j as int).to_set()),
                self@.reliable.members == pre.reliable.members,
                self@.reliable.prior_seq == pre.reliable.prior_seq,
                self@.reliable.next_seq_num >= pre.reliable.next_seq_num,
                self@.reliable.next_seq_num + (to_confirm@.len() - j) <= usize::MAX,
                (out matches Err(e) ==> e matches MulticastError::BroadcastError(failed)
                    && failed@.len() > 0),
            decreases to_confirm@.len() - j,
        {
            let id = to_confirm[j];
            proof {
                assert(to_confirm@.take(j as int + 1).to_set() =~= to_confirm@.take(
                    j as int,
                ).to_set().insert(id)) by {
                    assert forall|x: MessageId|
                        to_confirm@.take(j as int + 1).to_set().contains(x) implies to_confirm@
                        .take(j as int).to_set().insert(id).contains(x) by {
                        let t1 = to_confirm@.take(j as int + 1);
                        let kk = choose|kk: int| 0 <= kk < t1.len() && t1[kk] == x;
                        if kk < j {
                            assert(to_confirm@.take(j as int)[kk] == x);
                        }
                    }
                    assert forall|x: MessageId|
                        to_confirm@.take(j as int).to_set().insert(id).contains(
                            x,
                        ) implies to_confirm@.take(j as int + 1).to_set().contains(x) by {
                        if x == id {
                            assert(to_confirm@.take(j as int + 1)[j as int] == x);
                        } else {
                            let kk = choose|kk: int|
                                0 <= kk < j && to_confirm@.take(j as int)[kk] == x;
                            assert(to_confirm@.take(j as int + 1)[kk] == x);
                        }
                    }
                }
                assert(to_confirm@.to_set().contains(id));
                assert(pre.queued.dom().contains(id));
                assert(self@.queued.dom().contains(id));
            }
            let ghost mid_state = self@;
            let idx = match tbl_find(&self.queued_messages, &id) {
                Some(idx) => idx,
                None => {
                    proof {
                        assert(false);
                    }
                    return Err(MulticastError::InternalError);
                },
            };
            let ghost pre_q = self.queued_messages@;
            proof {
                lemma_qm_index(pre_q, idx as int);
            }
            let e = self.queued_messages.remove(idx);
            let mut qm = e.1;
            qm.mark_deliverable();
            self.queued_messages.insert(idx, (e.0, qm));
            proof {
                assert(self.queued_messages@ =~= pre_q.update(idx as int, (id, qm)));
                lemma_qm_update(pre_q, idx as int, qm);
                assert(self.wf()) by {
                    assert forall|id2: MessageId| #![trigger id_key(id2)]
                        qm_map(self.queued_messages@).dom().contains(id2) <==> pq_view(
                            self.pq,
                        ).dom().contains(id_key(id2)) by {
                        if id2 != id {
                            assert(id_key(id2) != id_key(id));
                        }
                    }
                }
                assert(self@.queued =~= mark_all(pre.queued, to_confirm@.take(j as int + 1).to_set()));
            }
            match self.confirmed_message_priority(id) {
                Ok(()) => {},
                Err(e2) => {
                    out = Err(e2);
                },
            }
            j = j + 1;
        }
        proof {
            assert(to_confirm@.take(to_confirm@.len() as int) =~= to_confirm@);
        }
        out
    }

    /// Declares one peer dead: it leaves the live set at once, so later
    /// vote-set comparisons use the shrunken set. The caller must schedule a
    /// grace-period flush for it.
    pub fn remove_node(&mut self, node_id: NodeId)
        requires
            old(self).wf(),
        ensures
            final(self).wf(),
            final(self)@ == (EngineModel {
                reliable: ReliableModel {
                    members: old(self)@.reliable.members.remove(node_id),
                    ..old(self)@.reliable
                },
                ..old(self)@
            }),
    {
        self.reliable_multicast.remove_member(&node_id);
        proof {
            assert(final(self)@ =~~= (EngineModel {
                reliable: ReliableModel {
                    members: old(self)@.reliable.members.remove(node_id),
                    ..old(self)@.reliable
                },
                ..old(self)@
            }));
        }
    }
}

/// Total order: at every node, messages are delivered in ascending final
/// priority. Two nodes that agree on each message\'s final priority and
/// deliver in strictly ascending priority order therefore deliver their
/// common messages in the same relative order. Final priorities of distinct
/// messages are distinct, since every priority a node issues is fresh.
pub proof fn lemma_total_order(
    a: Seq<MessageId>,
    b: Seq<MessageId>,
    pri: Map<MessageId, PqPri>,
    ia: int,
    ja: int,
    ib: int,
    jb: int,
)
    requires
        forall|i: int, j: int| #![trigger a[i], a[j]]
            0 <= i < j < a.len() ==> tup_lt(pri[a[i]], pri[a[j]]),
        forall|i: int, j: int| #![trigger b[i], b[j]]
            0 <= i < j < b.len() ==> tup_lt(pri[b[i]], pri[b[j]]),
        0 <= ia < ja < a.len(),
        0 <= ib < b.len(),
        0 <= jb < b.len(),
        a[ia] == b[ib],
        a[ja] == b[jb],
    ensures
        ib < jb,
{
    assert(tup_lt(pri[a[ia]], pri[a[ja]]));
    if ib == jb {
        assert(false);
    } else if jb < ib {
        assert(tup_lt(pri[b[jb]], pri[b[ib]]));
        assert(false);
    }
}


// ---------------------------------------------------------------------------
// The event-level interface
// ---------------------------------------------------------------------------

/// The engine after a list of peers is declared dead.
pub open spec fn after_deaths(pre: EngineModel, dead: Seq<NodeId>) -> EngineModel {
    EngineModel {
        reliable: ReliableModel {
            members: members_minus(pre.reliable.members, dead),
            ..pre.reliable
        },
        ..pre
    }
}

/// The engine right after Phase A for a new message: the message queued
/// under this node\'s own proposal with a self-vote, the counters advanced,
/// and the priority request broadcast (one send).
pub open spec fn after_request(pre: EngineModel, msg: Seq<u8>) -> EngineModel {
    let id = MessageId { original_sender: pre.node_id, local_id: pre.next_local_id };
    let pri = (pre.next_priority_proposal, pre.node_id);
    EngineModel {
        pq: pre.pq.insert(id_key(id), pri),
        queued: pre.queued.insert(
            id,
            QmModel {
                message: msg,
                deliverable: false,
                votes: Set::empty().insert(pre.node_id),
            },
        ),
        next_local_id: (pre.next_local_id + 1) as usize,
        next_priority_proposal: (pre.next_priority_proposal + 1) as usize,
        reliable: ReliableModel {
            next_seq_num: (pre.reliable.next_seq_num + 1) as usize,
            ..pre.reliable
        },
        ..pre
    }
}

/// Integrity: every message a drain delivers was queued beforehand, already
/// finalized, and is handed out with exactly the payload under which it was
/// queued — the engine never invents a delivery.
pub proof fn lemma_delivery_integrity(
    pre: EngineModel,
    post: EngineModel,
    d: Seq<(MessageId, Seq<u8>)>,
    i: int,
)
    requires
        drained(pre, post, d),
        0 <= i < d.len(),
    ensures
        pre.queued.dom().contains(d[i].0),
        pre.queued[d[i].0].deliverable,
        d[i].1 == pre.queued[d[i].0].message,
{
}

/// Queue-order delivery: a drain hands messages out in ascending priority
/// order, and nothing that stays behind has a priority strictly below any
/// delivered message's.
pub proof fn lemma_delivery_respects_priority(
    pre: EngineModel,
    post: EngineModel,
    d: Seq<(MessageId, Seq<u8>)>,
    i: int,
    j: int,
    k: PqKey,
)
    requires
        drained(pre, post, d),
        0 <= i < j < d.len(),
        post.pq.dom().contains(k),
    ensures
        tup_le(pre.pq[id_key(d[i].0)], pre.pq[id_key(d[j].0)]),
        !tup_lt(post.pq[k], pre.pq[id_key(d[i].0)]),
{
}

/// No message is delivered twice: the identities a drain hands out are gone
/// from the engine, so a later drain can never hand any of them out again.
pub proof fn lemma_no_redelivery(
    s1: EngineModel,
    s2: EngineModel,
    s3: EngineModel,
    d1: Seq<(MessageId, Seq<u8>)>,
    d2: Seq<(MessageId, Seq<u8>)>,
)
    requires
        drained(s1, s2, d1),
        drained(s2, s3, d2),
    ensures
        forall|i: int, j: int| #![trigger d1[i], d2[j]]
            0 <= i < d1.len() && 0 <= j < d2.len() ==> d1[i].0 != d2[j].0,
{
    assert forall|i: int, j: int| #![trigger d1[i], d2[j]]
        0 <= i < d1.len() && 0 <= j < d2.len() implies d1[i].0 != d2[j].0 by {
        assert(delivered_ids(d1).contains(d1[i].0));
        assert(!s2.queued.dom().contains(d1[i].0));
        assert(s2.queued.dom().contains(d2[j].0));
    }
}

impl TotalOrderedMulticast {
    /// Handles a failure report from below. Networking failures declare the
    /// named peers dead: each is removed from the live set, the delivery
    /// status of every queued message is rechecked against the shrunken set,
    /// the queue drains, and the reaction asks for a grace-period flush to
    /// be scheduled for each dead peer. The other failures are the caller\'s
    /// own and come back unchanged.
    pub fn handle_failure(&mut self, failure: MulticastError) -> (r: Result<
        EngineReaction,
        MulticastError,
    >)
        requires
            old(self).wf(),
            old(self)@.reliable.next_seq_num + old(self)@.queued.dom().len() <= usize::MAX,
        ensures
            final(self).wf(),
            (match failure {
                MulticastError::BroadcastError(_) => true,
                MulticastError::ClientDisconnected(_) => true,
                _ => r == Err::<EngineReaction, MulticastError>(failure) && final(self)@ == old(
                    self,
                )@,
            }),
            ({
                let dead = match failure {
                    MulticastError::BroadcastError(f) => f@,
                    MulticastError::ClientDisconnected(n) => seq![n],
                    _ => Seq::empty(),
                };
                (failure matches MulticastError::BroadcastError(_) || failure
                    matches MulticastError::ClientDisconnected(_)) ==> {
                    let s1 = after_deaths(old(self)@, dead);
                    let s2 = EngineModel {
                        queued: mark_all(s1.queued, recheck_set(s1)),
                        reliable: ReliableModel {
                            next_seq_num: final(self)@.reliable.next_seq_num,
                            ..s1.reliable
                        },
                        ..s1
                    };
                    &&& final(self)@.reliable.next_seq_num >= old(self)@.reliable.next_seq_num
                    &&& (r matches Ok(reaction) && reaction.schedule_flush@ == dead && drained(
                        s2,
                        final(self)@,
                        deliv_views(reaction.delivered@),
                    ))
                }
            }),
    {
        let failed: Vec<NodeId> = match failure {
            MulticastError::BroadcastError(f) => f,
            MulticastError::ClientDisconnected(n) => {
                let mut v: Vec<NodeId> = Vec::new();
                v.push(n);
                proof {
                    assert(v@ =~= seq![n]);
                }
                v
            },
            other => {
                return Err(other);
            },
        };
        let ghost pre = self@;
        let mut i: usize = 0;
        proof {
            assert(self@ =~~= after_deaths(pre, failed@.take(0))) by {
                assert(members_minus(pre.reliable.members, failed@.take(0)) =~= pre.reliable.members);
            }
        }
        while i < failed.len()
            invariant
                self.wf(),
                i <= failed@.len(),
                self@ == after_deaths(pre, failed@.take(i as int)),
            decreases failed@.len() - i,
        {
            self.remove_node(failed[i]);
            proof {
                assert(self@ =~~= after_deaths(pre, failed@.take(i as int + 1))) by {
                    assert(members_minus(pre.reliable.members, failed@.take(i as int + 1))
                        =~= members_minus(pre.reliable.members, failed@.take(i as int)).remove(
                        failed@[i as int],
                    )) by {
                        assert forall|x: NodeId|
                            members_minus(pre.reliable.members, failed@.take(i as int + 1)).contains(
                                x,
                            ) == members_minus(pre.reliable.members, failed@.take(i as int)).remove(
                                failed@[i as int],
                            ).contains(x) by {
                            let t0 = failed@.take(i as int);
                            let t1 = failed@.take(i as int + 1);
                            assert(t1.drop_last() =~= t0);
                            if t0.contains(x) {
                                let kk = choose|kk: int| 0 <= kk < t0.len() && t0[kk] == x;
                                assert(t1[kk] == x);
                            }
                            if t1.contains(x) && x != failed@[i as int] {
                                let kk = choose|kk: int| 0 <= kk < t1.len() && t1[kk] == x;
                                assert(t0[kk] == x);
                            }
                            assert(t1[i as int] == failed@[i as int]);
                        }
                    }
                }
            }
            i = i + 1;
        }
        proof {
            assert(failed@.take(failed@.len() as int) =~= failed@);
            assert(self@.queued.dom() =~= pre.queued.dom());
        }
        match self.recheck_pq_delivery_status() {
            Ok(()) => {},
            Err(_) => {},
        }
        let delivered = self.try_empty_pq();
        Ok(EngineReaction { delivered, schedule_flush: failed })
    }

    /// A grace-period flush timer fired for a dead peer: the peer\'s
    /// unconfirmed messages are flushed and the queue drains.
    pub fn handle_flush_timer(&mut self, member_id: NodeId) -> (delivered: Vec<
        (MessageId, Vec<u8>)>)
        requires
            old(self).wf(),
        ensures
            final(self).wf(),
            ({
                let s1 = EngineModel {
                    queued: old(self)@.queued.remove_keys(flush_victims(old(self)@, member_id)),
                    pq: old(self)@.pq.remove_keys(keyset_of(flush_victims(old(self)@, member_id))),
                    ..old(self)@
                };
                drained(s1, final(self)@, deliv_views(delivered@))
            }),
    {
        self.flush_pq_unconfirmed_messages(member_id);
        self.try_empty_pq()
    }

    /// The application broadcast: requests a priority for the message from
    /// every live peer (Phase A), then settles anything already decidable —
    /// with no live peer, the message is immediately deliverable — and
    /// drains. An error reports peers whose handler queue had closed; the
    /// message stays queued.
    pub fn broadcast(&mut self, msg: Vec<u8>) -> (r: Result<
        Vec<(MessageId, Vec<u8>)>,
        MulticastError,
    >)
        requires
            old(self).wf(),
            old(self)@.next_local_id < usize::MAX,
            old(self)@.next_priority_proposal < usize::MAX,
            old(self)@.reliable.next_seq_num + old(self)@.queued.dom().len() + 2 <= usize::MAX,
        ensures
            final(self).wf(),
            (r matches Err(e) ==> final(self)@ == after_request(old(self)@, msg@) && (e matches
            MulticastError::BroadcastError(failed) && failed@.len() > 0)),
            (r matches Ok(delivered) ==> {
                let s1 = after_request(old(self)@, msg@);
                let s2 = EngineModel {
                    queued: mark_all(s1.queued, recheck_set(s1)),
                    reliable: ReliableModel {
                        next_seq_num: final(self)@.reliable.next_seq_num,
                        ..s1.reliable
                    },
                    ..s1
                };
                &&& final(self)@.reliable.next_seq_num >= s1.reliable.next_seq_num
                &&& drained(s2, final(self)@, deliv_views(delivered@))
            }),
    {
        let ghost pre = self@;
        proof {
            broadcast use vstd::seq_lib::seq_to_set_is_finite;

            lemma_qm_dom(self.queued_messages@);
            assert(qm_keys(self.queued_messages@).to_set() =~= pre.queued.dom());
            assert(pre.queued.dom().finite());
        }
        match self.request_priority(msg) {
            Ok(()) => {},
            Err(e) => {
                proof {
                    assert(self@ =~~= after_request(pre, msg@));
                }
                return Err(e);
            },
        }
        proof {
            assert(self@ =~~= after_request(pre, msg@));
            assert(self@.queued.dom() =~= pre.queued.dom().insert(
                MessageId { original_sender: pre.node_id, local_id: pre.next_local_id },
            ));
            assert(self@.queued.dom().len() <= pre.queued.dom().len() + 1);
        }
        match self.recheck_pq_delivery_status() {
            Ok(()) => {},
            Err(_) => {},
        }
        Ok(self.try_empty_pq())
    }

    /// Sends an opaque payload to one peer, outside the agreement protocol,
    /// as a one-off: received exactly once or lost. Fails with
    /// `InvalidRecipient` exactly when the recipient is not a live peer.
    pub fn send_to(&self, msg: Vec<u8>, recipient: NodeId) -> (r: Result<(), MulticastError>)
        requires
            self.wf(),
        ensures
            !self@.reliable.members.contains(recipient) ==> r == Err::<(), MulticastError>(
                MulticastError::InvalidRecipient(recipient),
            ),
            self@.reliable.members.contains(recipient) ==> (r is Ok || r == Err::<
                (),
                MulticastError,
            >(MulticastError::ClientDisconnected(recipient))),
    {
        self.reliable_multicast.send_to(TotalOrderNetworkMessage::DirectMessage(msg), recipient)
    }

    /// Receive-side filter of the reliable layer, on one inbound envelope.
    pub fn receive_frame(&mut self, sender: NodeId, env: ReliableNetworkMessage) -> (r:
        ReceiveOutcome)
        requires
            old(self).wf(),
        ensures
            final(self).wf(),
            final(self)@ == (EngineModel {
                reliable: crate::reliable::spec_receive_state(old(self)@.reliable, sender, env@),
                ..old(self)@
            }),
            (r matches ReceiveOutcome::OneOff(m) <==> env.sequence_num is None),
            (r matches ReceiveOutcome::OneOff(m) ==> m == env.msg),
            (r is Duplicate <==> crate::reliable::spec_is_duplicate(
                old(self)@.reliable,
                sender,
                env@,
            )),
            (r matches ReceiveOutcome::Delivered { msg, failed } ==> msg == env.msg
                && failed@.no_duplicates() && forall|i: int|
                0 <= i < failed@.len() ==> old(self)@.reliable.members.contains(
                    #[trigger] failed@[i],
                ) && failed@[i] != sender && failed@[i] != crate::reliable::spec_origin(
                    sender,
                    env@,
                )),
    {
        let r = self.reliable_multicast.receive_frame(sender, env);
        proof {
            assert(final(self)@ =~~= (EngineModel {
                reliable: crate::reliable::spec_receive_state(old(self)@.reliable, sender, env@),
                ..old(self)@
            }));
        }
        r
    }
}

} // verus!
