//! Basic multicast: best-effort one-to-many and one-to-one send over the
//! current live handler set. No retransmission, no buffering: a fan-out of
//! already-established local queues, reporting the peers whose queue was
//! closed.

use vstd::prelude::*;
use crate::config::NodeId;
use crate::codec::encode_envelope;
use crate::member::MulticastMemberHandle;
use crate::protocol::{MulticastError, ReliableNetworkMessage};

verus! {

/// The live handler set. A peer is removed on first detected disconnect and
/// never re-added.
pub struct BasicMulticast {
    group: Vec<MulticastMemberHandle>,
}

impl BasicMulticast {
    /// The identities of the live members, in handler order.
    pub closed spec fn members_seq(&self) -> Seq<NodeId> {
        self.group@.map_values(|h: MulticastMemberHandle| h.member_id)
    }

    /// The set of live members.
    pub open spec fn members_set(&self) -> Set<NodeId> {
        self.members_seq().to_set()
    }

    /// Each live member appears once.
    pub closed spec fn wf(&self) -> bool {
        self.members_seq().no_duplicates()
    }

    /// Takes over a fully connected handler set, one handler per peer.
    pub fn new(group: Vec<MulticastMemberHandle>) -> (r: BasicMulticast)
        requires
            group@.map_values(|h: MulticastMemberHandle| h.member_id).no_duplicates(),
        ensures
            r.wf(),
            r.members_seq() == group@.map_values(|h: MulticastMemberHandle| h.member_id),
    {
        BasicMulticast { group }
    }

    /// The live members as a list, in handler order.
    pub fn members(&self) -> (r: Vec<NodeId>)
        ensures
            r@ == self.members_seq(),
            self.wf() ==> r@.no_duplicates(),
    {
        let mut out: Vec<NodeId> = Vec::new();
        let mut i: usize = 0;
        while i < self.group.len()
            invariant
                i <= self.group@.len(),
                out@ =~= self.members_seq().take(i as int),
            decreases self.group@.len() - i,
        {
            out.push(self.group[i].member_id);
            i = i + 1;
        }
        assert(out@ =~= self.members_seq());
        out
    }

    /// How many members are live.
    pub fn size(&self) -> (n: usize)
        ensures
            n == self.members_seq().len(),
            self.wf() ==> n == self.members_set().len(),
    {
        proof {
            if self.wf() {
                self.members_seq().unique_seq_to_set();
            }
        }
        self.group.len()
    }

    /// Evicts a member: its handler handle is dropped and it is never
    /// re-added.
    pub fn remove_member(&mut self, member_id: &NodeId)
        requires
            old(self).wf(),
        ensures
            final(self).wf(),
            final(self).members_set() =~= old(self).members_set().remove(*member_id),
            final(self).members_seq().len() >= old(self).members_seq().len() - 1,
    {
        let mut i: usize = 0;
        while i < self.group.len()
            invariant
                i <= self.group@.len(),
                self.wf(),
                self == old(self),
                forall|j: int| 0 <= j < i ==> self.members_seq()[j] != *member_id,
            decreases self.group@.len() - i,
        {
            if self.group[i].member_id == *member_id {
                let ghost pre = self.members_seq();
                assert(pre[i as int] == *member_id);
                self.group.remove(i);
                assert(self.members_seq() =~= pre.remove(i as int));
                assert(self.members_seq().no_duplicates()) by {
                    assert(forall|a: int|
                        0 <= a < self.members_seq().len() ==> self.members_seq()[a] == if a < i {
                            pre[a]
                        } else {
                            pre[a + 1]
                        });
                }
                assert(final(self).members_set() =~= old(self).members_set().remove(*member_id))
                    by {
                    assert(forall|x: NodeId| #[trigger]
                        self.members_seq().contains(x) ==> pre.contains(x)) by {
                        assert(forall|a: int|
                            0 <= a < self.members_seq().len() ==> self.members_seq()[a] == if a
                                < i {
                                pre[a]
                            } else {
                                pre[a + 1]
                            });
                    }
                    assert(forall|x: NodeId|
                        pre.contains(x) && x != *member_id ==> #[trigger] self.members_seq()
                            .contains(x)) by {
                        assert forall|x: NodeId|
                            pre.contains(x) && x != *member_id implies #[trigger] self.members_seq()
                            .contains(x) by {
                            let a = choose|a: int| 0 <= a < pre.len() && pre[a] == x;
                            if a < i {
                                assert(self.members_seq()[a] == x);
                            } else if a > i {
                                assert(self.members_seq()[a - 1] == x);
                            }
                        }
                    }
                    assert(!self.members_seq().contains(*member_id)) by {
                        assert forall|a: int|
                            0 <= a < self.members_seq().len() implies self.members_seq()[a]
                            != *member_id by {
                            if a < i {
                                assert(pre[a] == self.members_seq()[a]);
                            } else {
                                assert(pre[a + 1] == self.members_seq()[a]);
                            }
                        }
                    }
                }
                return ;
            }
            i = i + 1;
        }
        assert(final(self).members_set() =~= old(self).members_set().remove(*member_id)) by {
            assert(!self.members_seq().contains(*member_id));
        }
    }

    /// Hands the encoded message to every live handler not in `except`.
    /// Succeeds when every enqueue succeeded; otherwise reports exactly the
    /// members whose handler queue had closed, each once, so the caller can
    /// treat them as dead.
    pub fn broadcast_except(&self, msg: &ReliableNetworkMessage, except: &Vec<NodeId>) -> (r:
        Result<(), MulticastError>)
        requires
            self.wf(),
        ensures
            (r matches Err(e) ==> e matches MulticastError::BroadcastError(failed)
                && failed@.no_duplicates() && failed@.len() > 0 && forall|i: int|
                0 <= i < failed@.len() ==> self.members_set().contains(#[trigger] failed@[i])
                    && !except@.contains(failed@[i])),
    {
        let to_send = encode_envelope(msg);
        let mut failures: Vec<NodeId> = Vec::new();
        let mut i: usize = 0;
        while i < self.group.len()
            invariant
                i <= self.group@.len(),
                self.wf(),
                forall|j: int|
                    0 <= j < failures@.len() ==> self.members_set().contains(
                        #[trigger] failures@[j],
                    ) && !except@.contains(failures@[j]),
                forall|j: int|
                    0 <= j < failures@.len() ==> self.members_seq().take(i as int).contains(
                        #[trigger] failures@[j],
                    ),
                failures@.no_duplicates(),
            decreases self.group@.len() - i,
        {
            let ghost pre = failures@;
            let ghost ms = self.members_seq();
            let handle = &self.group[i];
            assert(ms[i as int] == handle.member_id);
            if !vec_contains(except, &handle.member_id) {
                if handle.pass_message(clone_bytes(&to_send)).is_err() {
                    assert forall|j: int| 0 <= j < pre.len() implies pre[j]
                        != handle.member_id by {
                        let k = choose|k: int| 0 <= k < i && ms.take(i as int)[k] == pre[j];
                        assert(ms[k] == pre[j]);
                        assert(ms[k] != ms[i as int]);
                    }
                    failures.push(handle.member_id);
                    proof {
                        assert(self.members_set().contains(handle.member_id)) by {
                            assert(ms.contains(handle.member_id)) by {
                                assert(ms[i as int] == handle.member_id);
                            }
                        }
                    }
                }
            }
            proof {
                assert forall|j: int| 0 <= j < failures@.len() implies ms.take(
                    i as int + 1,
                ).contains(#[trigger] failures@[j]) by {
                    if j < pre.len() {
                        let k = choose|k: int| 0 <= k < i && ms.take(i as int)[k] == pre[j];
                        assert(ms.take(i as int + 1)[k] == failures@[j]);
                    } else {
                        assert(failures@[j] == handle.member_id);
                        assert(ms.take(i as int + 1)[i as int] == failures@[j]);
                    }
                }
            }
            i = i + 1;
        }
        if failures.len() == 0 {
            Ok(())
        } else {
            Err(MulticastError::BroadcastError(failures))
        }
    }

    /// Hands the encoded message to every live handler. Succeeds when every
    /// enqueue succeeded; otherwise reports exactly the members whose queue
    /// had closed.
    pub fn broadcast(&self, msg: &ReliableNetworkMessage) -> (r: Result<(), MulticastError>)
        requires
            self.wf(),
        ensures
            (r matches Err(e) ==> e matches MulticastError::BroadcastError(failed)
                && failed@.no_duplicates() && failed@.len() > 0 && forall|i: int|
                0 <= i < failed@.len() ==> self.members_set().contains(#[trigger] failed@[i])),
    {
        let except: Vec<NodeId> = Vec::new();
        self.broadcast_except(msg, &except)
    }

    /// Hands the encoded message to one recipient's handler. Fails with
    /// `InvalidRecipient` exactly when the recipient is not a live member,
    /// and with `ClientDisconnected` when its queue had closed.
    pub fn send_to(&self, msg: &ReliableNetworkMessage, recipient: NodeId) -> (r: Result<
        (),
        MulticastError,
    >)
        requires
            self.wf(),
        ensures
            !self.members_set().contains(recipient) ==> r == Err::<(), MulticastError>(
                MulticastError::InvalidRecipient(recipient),
            ),
            self.members_set().contains(recipient) ==> (r is Ok || r == Err::<(), MulticastError>(
                MulticastError::ClientDisconnected(recipient),
            )),
    {
        let mut i: usize = 0;
        while i < self.group.len()
            invariant
                i <= self.group@.len(),
                self.wf(),
                forall|j: int| 0 <= j < i ==> self.members_seq()[j] != recipient,
            decreases self.group@.len() - i,
        {
            let handle = &self.group[i];
            if handle.member_id == recipient {
                proof {
                    assert(self.members_set().contains(recipient)) by {
                        assert(self.members_seq().contains(recipient)) by {
                            assert(self.members_seq()[i as int] == recipient);
                        }
                    }
                }
                let to_send = encode_envelope(msg);
                return match handle.pass_message(to_send) {
                    Ok(()) => Ok(()),
                    Err(()) => Err(MulticastError::ClientDisconnected(recipient)),
                };
            }
            i = i + 1;
        }
        assert(!self.members_seq().contains(recipient));
        Err(MulticastError::InvalidRecipient(recipient))
    }
}

/// Whether the list holds the value.
pub fn vec_contains(v: &Vec<NodeId>, x: &NodeId) -> (r: bool)
    ensures
        r == v@.contains(*x),
{
    let mut i: usize = 0;
    while i < v.len()
        invariant
            i <= v@.len(),
            forall|j: int| 0 <= j < i ==> v@[j] != *x,
        decreases v@.len() - i,
    {
        if v[i] == *x {
            return true;
        }
        i = i + 1;
    }
    false
}

/// A fresh copy of a byte buffer.
pub fn clone_bytes(v: &Vec<u8>) -> (r: Vec<u8>)
    ensures
        r@ == v@,
{
    let mut out: Vec<u8> = Vec::new();
    out.extend_from_slice(v.as_slice());
    out
}

} // verus!
