//! Reliable multicast: wraps basic multicast with monotone sender sequence
//! numbers, a per-origin last-relayed table, and first-receive relay.
//!
//! Send wraps the payload as `(msg, sequence_num: Some(k), forwarded_for:
//! None)` with `k` this node's next sender sequence number. On receive, a
//! one-off (`sequence_num: None`) passes straight up; otherwise the origin is
//! `forwarded_for` or, failing that, the connection's peer, and the frame is
//! dropped when `prior_seq[origin]` already covers its sequence number, or
//! else recorded, relayed to everyone but `{sender, origin}`, and passed up.

use vstd::prelude::*;
use crate::basic::{clone_bytes, BasicMulticast};
use crate::codec::EnvelopeModel;
use crate::config::NodeId;
use crate::member::MulticastMemberHandle;
use crate::protocol::{MulticastError, ReliableNetworkMessage, TotalOrderNetworkMessage};

verus! {

/// Mathematical model of the reliable layer's state.
#[verifier::ext_equal]
pub struct ReliableModel {
    /// The live members.
    pub members: Set<NodeId>,
    /// The highest sequence number already relayed for each origin.
    pub prior_seq: Map<NodeId, usize>,
    /// This node's next sender sequence number.
    pub next_seq_num: usize,
}

/// The last-relayed table as a map: a later entry for an origin shadows an
/// earlier one.
pub open spec fn table_map(s: Seq<(NodeId, usize)>) -> Map<NodeId, usize>
    decreases s.len(),
{
    if s.len() == 0 {
        Map::empty()
    } else {
        table_map(s.drop_last()).insert(s.last().0, s.last().1)
    }
}

/// A map lookup as an option.
pub open spec fn map_get(m: Map<NodeId, usize>, id: NodeId) -> Option<usize> {
    if m.dom().contains(id) {
        Some(m[id])
    } else {
        None
    }
}

/// The origin of an envelope received from `sender`: who it was forwarded
/// for, or the sender itself.
pub open spec fn spec_origin(sender: NodeId, env: EnvelopeModel) -> NodeId {
    match env.forwarded_for {
        Some(o) => o,
        None => sender,
    }
}

/// Whether the reliable layer drops the envelope as an already-relayed
/// duplicate.
pub open spec fn spec_is_duplicate(s: ReliableModel, sender: NodeId, env: EnvelopeModel) -> bool {
    match env.sequence_num {
        Some(k) => {
            let origin = spec_origin(sender, env);
            s.prior_seq.dom().contains(origin) && s.prior_seq[origin] >= k
        },
        None => false,
    }
}

/// The reliable layer's state after receiving one envelope from `sender`:
/// unchanged for a one-off or a duplicate, and otherwise the origin's entry
/// in the last-relayed table is raised to the envelope's sequence number.
pub open spec fn spec_receive_state(s: ReliableModel, sender: NodeId, env: EnvelopeModel) -> ReliableModel {
    match env.sequence_num {
        None => s,
        Some(k) => {
            if spec_is_duplicate(s, sender, env) {
                s
            } else {
                ReliableModel { prior_seq: s.prior_seq.insert(spec_origin(sender, env), k), ..s }
            }
        },
    }
}

/// Each origin's `prior_seq` entry is non-decreasing across any receive: an
/// entry is never removed and never lowered.
pub proof fn lemma_prior_seq_monotone(s: ReliableModel, sender: NodeId, env: EnvelopeModel)
    ensures
        forall|o: NodeId|
            s.prior_seq.dom().contains(o) ==> {
                &&& spec_receive_state(s, sender, env).prior_seq.dom().contains(o)
                &&& spec_receive_state(s, sender, env).prior_seq[o] >= s.prior_seq[o]
            },
{
}

/// Receiving the same reliable frame twice leaves the state exactly as
/// receiving it once: the first receipt raises `prior_seq[origin]` at least
/// to the frame's sequence number, so the second is dropped as a duplicate.
pub proof fn lemma_receive_twice_idempotent(s: ReliableModel, sender: NodeId, env: EnvelopeModel)
    ensures
        spec_receive_state(spec_receive_state(s, sender, env), sender, env) == spec_receive_state(
            s,
            sender,
            env,
        ),
{
    let s1 = spec_receive_state(s, sender, env);
    match env.sequence_num {
        None => {
        },
        Some(k) => {
            if spec_is_duplicate(s, sender, env) {
            } else {
                assert(s1.prior_seq[spec_origin(sender, env)] == k);
                assert(spec_is_duplicate(s1, sender, env));
            }
        },
    }
}

/// What one receive hands back to the caller.
pub enum ReceiveOutcome {
    /// A one-off message: passed up directly, without relay or duplicate
    /// suppression.
    OneOff(TotalOrderNetworkMessage),
    /// A fresh reliable message: recorded and relayed; `failed` lists the
    /// members whose relay enqueue failed, to be treated as dead.
    Delivered { msg: TotalOrderNetworkMessage, failed: Vec<NodeId> },
    /// An already-relayed duplicate: dropped silently, nothing changed.
    Duplicate,
}

/// The reliable multicast layer over one node's handler set.
pub struct ReliableMulticast {
    basic: BasicMulticast,
    prior_seq: Vec<(NodeId, usize)>,
    next_seq_num: usize,
}

impl ReliableMulticast {
    pub closed spec fn view(&self) -> ReliableModel {
        ReliableModel {
            members: self.basic.members_set(),
            prior_seq: table_map(self.prior_seq@),
            next_seq_num: self.next_seq_num,
        }
    }

    pub closed spec fn wf(&self) -> bool {
        self.basic.wf()
    }

    /// Takes over a fully connected handler set.
    pub fn new(group: Vec<MulticastMemberHandle>) -> (r: ReliableMulticast)
        requires
            group@.map_values(|h: MulticastMemberHandle| h.member_id).no_duplicates(),
        ensures
            r.wf(),
            r@.members == group@.map_values(|h: MulticastMemberHandle| h.member_id).to_set(),
            r@.prior_seq == Map::<NodeId, usize>::empty(),
            r@.next_seq_num == 0,
    {
        ReliableMulticast { basic: BasicMulticast::new(group), prior_seq: Vec::new(), next_seq_num: 0 }
    }

    /// The live members, in handler order.
    pub fn members(&self) -> (r: Vec<NodeId>)
        ensures
            r@.to_set() == self@.members,
            r@.no_duplicates() <== self.wf(),
    {
        self.basic.members()
    }

    /// How many members are live.
    pub fn size(&self) -> (n: usize)
        ensures
            self.wf() ==> n == self@.members.len(),
    {
        self.basic.size()
    }

    /// Evicts a member from the live set.
    pub fn remove_member(&mut self, member_id: &NodeId)
        requires
            old(self).wf(),
        ensures
            final(self).wf(),
            final(self)@.members == old(self)@.members.remove(*member_id),
            final(self)@.prior_seq == old(self)@.prior_seq,
            final(self)@.next_seq_num == old(self)@.next_seq_num,
    {
        self.basic.remove_member(member_id);
    }

    fn get_next_seq_num(&mut self) -> (r: Option<usize>)
        requires
            old(self).next_seq_num < usize::MAX,
        ensures
            r == Some(old(self)@.next_seq_num),
            final(self)@ == (ReliableModel { next_seq_num: (old(self)@.next_seq_num + 1) as usize, ..old(self)@ }),
            final(self).wf() == old(self).wf(),
    {
        let id = self.next_seq_num;
        self.next_seq_num = self.next_seq_num + 1;
        Some(id)
    }

    /// Reliably broadcasts a message: wraps it with this node's next sender
    /// sequence number and fans it out to every live member. An error lists
    /// the members whose handler queue had closed.
    pub fn broadcast(&mut self, msg: TotalOrderNetworkMessage) -> (r: Result<(), MulticastError>)
        requires
            old(self).wf(),
            old(self)@.next_seq_num < usize::MAX,
        ensures
            final(self).wf(),
            final(self)@ == (ReliableModel { next_seq_num: (old(self)@.next_seq_num + 1) as usize, ..old(self)@ }),
            (r matches Err(e) ==> e matches MulticastError::BroadcastError(failed)
                && failed@.no_duplicates() && failed@.len() > 0 && forall|i: int|
                0 <= i < failed@.len() ==> old(self)@.members.contains(#[trigger] failed@[i])),
    {
        let sequence_num = self.get_next_seq_num();
        let env = ReliableNetworkMessage { msg, sequence_num, forwarded_for: None };
        self.basic.broadcast(&env)
    }

    /// Sends a one-off message to a single member, outside relay and
    /// duplicate suppression: it is received exactly once or lost. Fails
    /// with `InvalidRecipient` exactly when the recipient is not live.
    pub fn send_to(&self, msg: TotalOrderNetworkMessage, recipient: NodeId) -> (r: Result<
        (),
        MulticastError,
    >)
        requires
            self.wf(),
        ensures
            !self@.members.contains(recipient) ==> r == Err::<(), MulticastError>(
                MulticastError::InvalidRecipient(recipient),
            ),
            self@.members.contains(recipient) ==> (r is Ok || r == Err::<(), MulticastError>(
                MulticastError::ClientDisconnected(recipient),
            )),
    {
        let env = ReliableNetworkMessage { msg, sequence_num: None, forwarded_for: None };
        self.basic.send_to(&env, recipient)
    }

    /// Receive-side filter and relay for one inbound envelope: passes a
    /// one-off up unchanged, drops an already-relayed duplicate silently,
    /// and records and relays a fresh message to every member but the
    /// sender and the origin before passing it up.
    pub fn receive_frame(&mut self, sender: NodeId, env: ReliableNetworkMessage) -> (r:
        ReceiveOutcome)
        requires
            old(self).wf(),
        ensures
            final(self).wf(),
            final(self)@ == spec_receive_state(old(self)@, sender, env@),
            (r matches ReceiveOutcome::OneOff(m) <==> env.sequence_num is None),
            (r matches ReceiveOutcome::OneOff(m) ==> m == env.msg),
            (r is Duplicate <==> spec_is_duplicate(old(self)@, sender, env@)),
            (r matches ReceiveOutcome::Delivered { msg, failed } ==> msg == env.msg
                && failed@.no_duplicates() && forall|i: int|
                0 <= i < failed@.len() ==> old(self)@.members.contains(#[trigger] failed@[i])
                    && failed@[i] != sender && failed@[i] != spec_origin(sender, env@)),
    {
        let k = match env.sequence_num {
            None => {
                return ReceiveOutcome::OneOff(env.msg);
            },
            Some(k) => k,
        };
        let mut except: Vec<NodeId> = Vec::new();
        except.push(sender);
        let original_sender = match env.forwarded_for {
            Some(o) => {
                except.push(o);
                o
            },
            None => sender,
        };
        match table_get(&self.prior_seq, original_sender) {
            Some(last_seq) => {
                if last_seq >= k {
                    return ReceiveOutcome::Duplicate;
                }
            },
            None => {},
        }
        self.prior_seq.push((original_sender, k));
        proof {
            assert(self.prior_seq@.drop_last() =~= old(self).prior_seq@);
        }
        let relay = ReliableNetworkMessage {
            msg: clone_message(&env.msg),
            sequence_num: env.sequence_num,
            forwarded_for: Some(original_sender),
        };
        let failed: Vec<NodeId> = match self.basic.broadcast_except(&relay, &except) {
            Ok(()) => Vec::new(),
            Err(MulticastError::BroadcastError(failures)) => failures,
            Err(_) => Vec::new(),
        };
        proof {
            assert(forall|i: int|
                0 <= i < failed@.len() ==> #[trigger] except@.contains(failed@[i]) == false);
            assert(except@.contains(sender)) by {
                assert(except@[0] == sender);
            }
            assert(except@.contains(spec_origin(sender, env@))) by {
                if env@.forwarded_for is Some {
                    assert(except@[1] == spec_origin(sender, env@));
                } else {
                    assert(except@[0] == spec_origin(sender, env@));
                }
            }
        }
        ReceiveOutcome::Delivered { msg: env.msg, failed }
    }
}

/// A copy of a protocol message, field for field.
pub fn clone_message(m: &TotalOrderNetworkMessage) -> (r: TotalOrderNetworkMessage)
    ensures
        r@ == m@,
{
    match m {
        TotalOrderNetworkMessage::PriorityRequest(a) => TotalOrderNetworkMessage::PriorityRequest(
            crate::protocol::PriorityRequestArgs {
                local_id: a.local_id,
                message: clone_bytes(&a.message),
            },
        ),
        TotalOrderNetworkMessage::PriorityProposal(a) => TotalOrderNetworkMessage::PriorityProposal(
            *a,
        ),
        TotalOrderNetworkMessage::PriorityMessage(a) => TotalOrderNetworkMessage::PriorityMessage(
            *a,
        ),
        TotalOrderNetworkMessage::DirectMessage(v) => TotalOrderNetworkMessage::DirectMessage(
            clone_bytes(v),
        ),
    }
}

/// Looks an origin up in the last-relayed table; the latest entry wins.
fn table_get(t: &Vec<(NodeId, usize)>, id: NodeId) -> (r: Option<usize>)
    ensures
        r == map_get(table_map(t@), id),
{
    let mut i: usize = t.len();
    proof {
        assert(t@.take(t@.len() as int) =~= t@);
    }
    while i > 0
        invariant
            i <= t@.len(),
            map_get(table_map(t@), id) == map_get(table_map(t@.take(i as int)), id),
        decreases i,
    {
        i = i - 1;
        let entry = t[i];
        proof {
            assert(t@.take(i as int + 1).drop_last() =~= t@.take(i as int));
            assert(t@.take(i as int + 1).last() == t@[i as int]);
        }
        if entry.0 == id {
            return Some(entry.1);
        }
    }
    proof {
        assert(t@.take(0) =~= Seq::<(NodeId, usize)>::empty());
    }
    None
}

} // verus!
