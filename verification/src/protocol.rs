//! The wire-level data model: message identities, agreement priorities and
//! their total order, the three protocol variants of the priority-agreement
//! engine, the reliable-layer envelope, and the error taxonomy.

use vstd::prelude::*;
use crate::config::NodeId;

verus! {

/// Identity of an application message: the node that first broadcast it and
/// a per-sender counter, strictly increasing at that sender.
#[derive(Clone, Copy, Debug, PartialEq, Eq, Structural, Hash)]
pub struct MessageId {
    pub original_sender: NodeId,
    pub local_id: usize,
}

/// An agreement priority. The total order is lexicographic: first by
/// `priority`, ties broken by `proposer`; see [`pri_lt`].
#[derive(Clone, Copy, Debug, PartialEq, Eq, Structural, Hash)]
pub struct MessagePriority {
    pub priority: usize,
    pub proposer: NodeId,
}

/// The strict total order on priorities.
pub open spec fn pri_lt(a: MessagePriority, b: MessagePriority) -> bool {
    a.priority < b.priority || (a.priority == b.priority && a.proposer < b.proposer)
}

/// The reflexive closure of [`pri_lt`].
pub open spec fn pri_le(a: MessagePriority, b: MessagePriority) -> bool {
    pri_lt(a, b) || a == b
}

/// [`pri_lt`] is a strict total order: irreflexive, transitive, and any two
/// distinct priorities are comparable one way or the other.
pub proof fn lemma_pri_lt_strict_total_order(a: MessagePriority, b: MessagePriority, c: MessagePriority)
    ensures
        !pri_lt(a, a),
        pri_lt(a, b) && pri_lt(b, c) ==> pri_lt(a, c),
        a != b ==> (pri_lt(a, b) <==> !pri_lt(b, a)),
{
}

impl MessagePriority {
    /// Executable form of the [`pri_lt`] comparison.
    pub fn lt(&self, other: &MessagePriority) -> (r: bool)
        ensures
            r == pri_lt(*self, *other),
    {
        self.priority < other.priority
            || (self.priority == other.priority && self.proposer < other.proposer)
    }
}

/// A request from the originator of a message that each peer propose a
/// priority for it. The payload rides along so that every peer can queue it.
#[derive(Clone, Debug)]
pub struct PriorityRequestArgs {
    pub local_id: MessageId,
    pub message: Vec<u8>,
}

/// One peer's proposed priority for the message `requester_local_id`,
/// directed back at the originator.
#[derive(Clone, Copy, Debug, PartialEq, Eq, Structural)]
pub struct PriorityProposalArgs {
    pub requester_local_id: MessageId,
    pub priority: MessagePriority,
}

/// The final agreed priority for `local_id`, broadcast by the originator
/// once every live peer has proposed: the maximum of the proposals.
#[derive(Clone, Copy, Debug, PartialEq, Eq, Structural)]
pub struct PriorityMessageArgs {
    pub local_id: MessageId,
    pub priority: MessagePriority,
}

/// The closed union of messages the priority-agreement engine exchanges.
/// `DirectMessage` carries an opaque payload to a single recipient outside
/// the agreement protocol.
#[derive(Clone, Debug)]
pub enum TotalOrderNetworkMessage {
    PriorityRequest(PriorityRequestArgs),
    PriorityProposal(PriorityProposalArgs),
    PriorityMessage(PriorityMessageArgs),
    DirectMessage(Vec<u8>),
}

/// The reliable-layer envelope around every protocol message.
///
/// `sequence_num: Some(k)` marks a message that must be reliably delivered;
/// `k` is the origin's sender sequence number. `None` marks a one-off
/// directed message that bypasses relay and duplicate suppression.
/// `forwarded_for: Some(o)` marks a relayed copy whose origin is `o`;
/// `None` means the message originated at the connection it arrived on.
#[derive(Clone, Debug)]
pub struct ReliableNetworkMessage {
    pub msg: TotalOrderNetworkMessage,
    pub sequence_num: Option<usize>,
    pub forwarded_for: Option<NodeId>,
}

/// What can go wrong below or inside the engine.
#[derive(Clone, Debug, PartialEq, Eq)]
pub enum MulticastError {
    /// Some peers' local send queues were closed; they are to be treated as
    /// dead.
    BroadcastError(Vec<NodeId>),
    /// `send_to` was given a peer that is unknown or already evicted.
    InvalidRecipient(NodeId),
    /// A peer's handler reported a network error; the peer is dead.
    ClientDisconnected(NodeId),
    /// Every peer handler has closed; fatal for the engine.
    AllClientsDisconnected,
    /// The channel between the engine and its external adapter broke; fatal.
    InternalError,
}

/// What a per-peer handler can report to the engine for one inbound
/// operation: a decoded message, or a fatal socket failure.
#[derive(Clone, Debug)]
pub enum MemberStateMessageType {
    Message(ReliableNetworkMessage),
    NetworkError,
}

/// A handler report tagged with the peer it concerns.
#[derive(Clone, Debug)]
pub struct MemberStateMessage {
    pub msg: MemberStateMessageType,
    pub member_id: NodeId,
}

} // verus!
