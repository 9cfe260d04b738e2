//! The engine's handle for one peer's handler task.
//!
//! A handler task owns the peer's socket; the engine reaches it only through
//! an in-process queue of already-encoded frames. The queue is tokio's
//! unbounded channel, declared opaquely here.

use vstd::prelude::*;
use tokio::sync::mpsc::UnboundedSender;
use crate::config::NodeId;

verus! {

#[verifier::external_type_specification]
#[verifier::external_body]
#[verifier::reject_recursive_types(T)]
pub struct ExUnboundedSender<T>(UnboundedSender<T>);

/// The peer's identity and the send end of its handler's outbound queue.
pub struct MulticastMemberHandle {
    pub member_id: NodeId,
    pub to_client: UnboundedSender<Vec<u8>>,
}

impl MulticastMemberHandle {
    /// Relies on tokio's `UnboundedSender::send`: queues the bytes for the
    /// peer's handler task; fails exactly when the handler has closed or
    /// dropped its receive end. Which outcome comes back depends on the
    /// channel's state, so nothing is promised of it.
    #[verifier::external_body]
    pub fn pass_message(&self, msg: Vec<u8>) -> (r: Result<(), ()>) {
        match self.to_client.send(msg) {
            Ok(()) => Ok(()),
            Err(_) => Err(()),
        }
    }
}

} // verus!
