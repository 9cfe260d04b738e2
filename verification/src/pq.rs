//! The engine's priority queue: the `priority_queue` crate's indexed queue,
//! keyed by message identity, with an agreement priority as the value.
//!
//! The queue is instantiated at plain integer pairs: a key is
//! `(original_sender, local_id)` of a [`crate::protocol::MessageId`], a
//! priority is `(priority, proposer)` of a
//! [`crate::protocol::MessagePriority`]. Priorities are stored reversed, so
//! the queue's "greatest" element is the least pair under the lexicographic
//! order [`tup_lt`] — the next message in delivery order.
//!
//! The crate's queue is declared opaquely; [`pq_view`] names what it holds,
//! a map from keys to (inner, unreversed) priorities, and each wrapper below
//! states over that name what the crate's source shows of the call.

use vstd::prelude::*;
use priority_queue::PriorityQueue;
use std::cmp::Reverse;

verus! {

#[verifier::external_type_specification]
#[verifier::external_body]
#[verifier::reject_recursive_types(I)]
#[verifier::reject_recursive_types(P)]
#[verifier::reject_recursive_types(H)]
pub struct ExPriorityQueue<I, P, H>(PriorityQueue<I, P, H>);

#[verifier::external_type_specification]
#[verifier::reject_recursive_types(T)]
pub struct ExReverse<T>(Reverse<T>);

/// A priority-queue key: the two fields of a message identity.
pub type PqKey = (usize, usize);

/// The queue at the engine's instantiation.
pub type EnginePq = PriorityQueue<PqKey, Reverse<PqPri>>;

/// An inner (unreversed) priority: the two fields of a message priority.
pub type PqPri = (usize, usize);

/// The strict lexicographic order on priority pairs.
pub open spec fn tup_lt(a: PqPri, b: PqPri) -> bool {
    a.0 < b.0 || (a.0 == b.0 && a.1 < b.1)
}

/// The reflexive closure of [`tup_lt`].
pub open spec fn tup_le(a: PqPri, b: PqPri) -> bool {
    tup_lt(a, b) || a == b
}

/// The empty contents.
pub open spec fn pq_empty_map() -> Map<PqKey, PqPri> {
    Map::empty()
}

/// What the queue holds: each queued key, mapped to its current inner
/// priority.
pub uninterp spec fn pq_view(q: EnginePq) -> Map<PqKey, PqPri>;

/// Relies on PriorityQueue::new: creates an empty queue.
#[verifier::external_body]
pub(crate) fn pq_new() -> (que: EnginePq)
    ensures
        pq_view(que) == pq_empty_map(),
{
    PriorityQueue::new()
}

/// Relies on PriorityQueue::push: inserts the key with the given priority,
/// or replaces the priority of a key already present, returning the old one.
#[verifier::external_body]
pub(crate) fn pq_push(q: &mut EnginePq, key: PqKey, pri: PqPri) -> (r:
    Option<PqPri>)
    ensures
        pq_view(*final(q)) == pq_view(*old(q)).insert(key, pri),
        r == if pq_view(*old(q)).dom().contains(key) {
            Some(pq_view(*old(q))[key])
        } else {
            None::<PqPri>
        },
{
    q.push(key, Reverse(pri)).map(|p| p.0)
}

/// Relies on PriorityQueue::push_decrease, called on reversed priorities:
/// inserts an absent key; raises the priority of a present key to `pri` if
/// `pri` is the greater under [`tup_lt`]; otherwise leaves the queue as it
/// was. Returns nothing for an absent key, the displaced priority for a
/// raised one, and `pri` itself where the queue already held something at
/// least as great.
#[verifier::external_body]
pub(crate) fn pq_push_decrease(
    q: &mut EnginePq,
    key: PqKey,
    pri: PqPri,
) -> (r: Option<PqPri>)
    ensures
        pq_view(*old(q)).dom().contains(key) ==> {
            &&& tup_lt(pq_view(*old(q))[key], pri) ==> (pq_view(*final(q)) == pq_view(
                *old(q),
            ).insert(key, pri) && r == Some(pq_view(*old(q))[key]))
            &&& !tup_lt(pq_view(*old(q))[key], pri) ==> (pq_view(*final(q)) == pq_view(*old(q))
                && r == Some(pri))
        },
        !pq_view(*old(q)).dom().contains(key) ==> (pq_view(*final(q)) == pq_view(*old(q)).insert(
            key,
            pri,
        ) && r is None),
{
    q.push_decrease(key, Reverse(pri)).map(|p| p.0)
}

/// Relies on PriorityQueue::peek: the pair with the greatest queue priority,
/// which under the reversed order is a pair whose inner priority is least;
/// nothing when the queue is empty.
#[verifier::external_body]
pub(crate) fn pq_peek(q: &EnginePq) -> (r: Option<(PqKey, PqPri)>)
    ensures
        (r matches Some((k, p)) ==> {
            &&& pq_view(*q).dom().contains(k)
            &&& pq_view(*q)[k] == p
            &&& forall|k2: PqKey|
                pq_view(*q).dom().contains(k2) ==> tup_le(p, #[trigger] pq_view(*q)[k2])
        }),
        (r is None ==> pq_view(*q).dom() == Set::<PqKey>::empty()),
{
    q.peek().map(|(k, p)| (*k, p.0))
}

/// Relies on PriorityQueue::remove: takes the key out of the queue, handing
/// back the pair it held, or nothing if the key was not there.
#[verifier::external_body]
pub(crate) fn pq_remove(q: &mut EnginePq, key: PqKey) -> (r: Option<
    (PqKey, PqPri)>)
    ensures
        pq_view(*final(q)) == pq_view(*old(q)).remove(key),
        (r matches Some((k, p)) ==> k == key && pq_view(*old(q)).dom().contains(key) && pq_view(
            *old(q),
        )[key] == p),
        (r is None ==> !pq_view(*old(q)).dom().contains(key)),
{
    q.remove(&key).map(|(k, p)| (k, p.0))
}

/// Relies on PriorityQueue::get_priority: the priority currently stored at
/// the key, or nothing if the key is not in the queue.
#[verifier::external_body]
pub(crate) fn pq_get_priority(q: &EnginePq, key: PqKey) -> (r: Option<
    PqPri>)
    ensures
        r == if pq_view(*q).dom().contains(key) {
            Some(pq_view(*q)[key])
        } else {
            None::<PqPri>
        },
{
    q.get_priority(&key).map(|p| p.0)
}

} // verus!
