//! The ping registry: nonce-stamped liveness probes.
//!
//! Each connected peer has at most one ping in flight. A pong is
//! accepted exactly when a ping is pending for that peer, carries the
//! same nonce, and arrives within the configured window; acceptance
//! consumes the pending ping.

use vstd::prelude::*;
use crate::addr::{PeerAddress, AddrV};
use crate::addr_map::AddrMap;
use crate::message::{Message, MessageV};

verus! {

/// A pong that matches no pending ping, or not its nonce or window.
#[derive(Debug, Clone, Copy, PartialEq, Eq)]
pub enum PingError {
    UnexpectedPong,
}

/// The ping registry: per address, the pending nonce and send time.
pub struct Pings {
    /// Pending pings: nonce and the time it was sent.
    pub entries: AddrMap<(u64, i64)>,
    /// How long after sending a pong is still accepted, in seconds.
    pub window: i64,
}

impl Pings {
    pub open spec fn wf(&self) -> bool {
        &&& self.entries.wf()
        &&& self.window >= 0
    }

    pub fn new(window: i64) -> (r: Pings)
        requires
            window >= 0,
        ensures
            r.wf(),
            r.entries@ == Map::<AddrV, (u64, i64)>::empty(),
            r.window == window,
    {
        Pings { entries: AddrMap::new(), window }
    }

    /// Records a fresh ping for `a` and hands back the message that
    /// carries its nonce.
    pub fn record_ping(&mut self, a: &PeerAddress, nonce: u64, now: i64) -> (r: Message)
        requires
            old(self).wf(),
            a.wf(),
        ensures
            final(self).wf(),
            final(self).window == old(self).window,
            final(self).entries@ == old(self).entries@.insert(a@, (nonce, now)),
            r@ == (MessageV::Ping { nonce }),
    {
        self.entries.put(a, (nonce, now));
        Message::Ping { nonce }
    }

    /// The immediate answer to a ping: a pong echoing its nonce.
    pub fn make_pong(ping_nonce: u64) -> (r: Message)
        ensures
            r@ == (MessageV::Pong { nonce: ping_nonce }),
    {
        Message::Pong { nonce: ping_nonce }
    }

    /// Accepts a pong exactly when a ping is pending for `a` with the
    /// same nonce and `now` lies within the window after it was sent;
    /// acceptance consumes the pending ping, failure changes nothing.
    pub fn accept_pong(&mut self, a: &PeerAddress, nonce: u64, now: i64) -> (r: Result<
        (),
        PingError,
    >)
        requires
            old(self).wf(),
        ensures
            final(self).wf(),
            final(self).window == old(self).window,
            r is Ok <==> {
                &&& old(self).entries@.contains_key(a@)
                &&& old(self).entries@[a@].0 == nonce
                &&& now - old(self).entries@[a@].1 <= old(self).window
            },
            r is Ok ==> final(self).entries@ == old(self).entries@.remove(a@),
            r is Err ==> *final(self) == *old(self),
    {
        match self.entries.lookup(a) {
            Some((pending_nonce, sent)) => {
                if pending_nonce == nonce && (now as i128) - (sent as i128) <= (
                self.window as i128) {
                    let _ = self.entries.take_out(a);
                    Ok(())
                } else {
                    Err(PingError::UnexpectedPong)
                }
            }
            None => Err(PingError::UnexpectedPong),
        }
    }
}

/// An accepted pong echoes the pending nonce and arrives before the
/// window expires.
pub proof fn lemma_pong_accepted_fresh(p: &Pings, a: AddrV, nonce: u64, now: i64)
    requires
        p.wf(),
        p.entries@.contains_key(a),
        p.entries@[a].0 == nonce,
        now - p.entries@[a].1 <= p.window,
    ensures
        now <= p.entries@[a].1 + p.window,
{
}

} // verus!
