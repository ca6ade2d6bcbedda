//! The per-peer reader's failure policy.
//!
//! Each reader task counts failed communications; within one loop
//! iteration only the first failure counts. Ten counted failures
//! disconnect the peer.

use vstd::prelude::*;

verus! {

/// Counted failures that disconnect a peer.
pub const DISCONNECT_THRESHOLD: u8 = 10;

/// The failure state one reader task carries across its iterations.
pub struct ReaderFailures {
    /// Failures counted so far, at most one per iteration.
    pub failure_count: u8,
    /// Whether the threshold was reached and the peer is to be dropped.
    pub disconnect_from_peer: bool,
}

impl ReaderFailures {
    /// The flag tracks the threshold, and the count stops there.
    pub open spec fn wf(&self) -> bool {
        &&& self.failure_count <= DISCONNECT_THRESHOLD
        &&& self.disconnect_from_peer == (self.failure_count >= DISCONNECT_THRESHOLD)
    }

    pub fn new() -> (r: ReaderFailures)
        ensures
            r.wf(),
            r.failure_count == 0,
            !r.disconnect_from_peer,
    {
        ReaderFailures { failure_count: 0, disconnect_from_peer: false }
    }

    /// Whether the count reached the threshold.
    pub fn should_disconnect(&self) -> (r: bool)
        requires
            self.wf(),
        ensures
            r == self.disconnect_from_peer,
            r == (self.failure_count >= DISCONNECT_THRESHOLD),
    {
        self.failure_count >= DISCONNECT_THRESHOLD
    }

    /// Notes one failed communication. Only the first failure of an
    /// iteration is counted: `failure` says whether this iteration
    /// already failed, and is raised. Reaching the threshold raises
    /// the disconnect flag.
    pub fn handle_failure(&mut self, failure: &mut bool)
        requires
            old(self).wf(),
            !old(self).disconnect_from_peer,
        ensures
            final(self).wf(),
            *final(failure),
            !*old(failure) ==> {
                &&& final(self).failure_count == old(self).failure_count + 1
                &&& final(self).disconnect_from_peer == (final(self).failure_count
                    >= DISCONNECT_THRESHOLD)
            },
            *old(failure) ==> *final(self) == *old(self),
    {
        if !*failure {
            *failure = true;
            self.failure_count = self.failure_count + 1;
            self.disconnect_from_peer = self.failure_count >= DISCONNECT_THRESHOLD;
        }
    }
}

/// Flaky-peer eviction, stated in general: once a reader has counted
/// ten failures its disconnect flag is raised — so the loop exits and
/// emits the synthetic disconnect, whose effect on the book (the peer
/// moves from connected to disconnected) is the contract of
/// [`crate::node::Node::handle_disconnect`].
pub proof fn lemma_threshold_disconnects(state: &ReaderFailures)
    requires
        state.wf(),
        state.failure_count >= DISCONNECT_THRESHOLD,
    ensures
        state.disconnect_from_peer,
{
}

} // verus!
