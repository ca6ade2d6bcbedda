//! The handshake registry: in-flight version/verack exchanges.
//!
//! Either side sends its version message; the responder echoes the
//! received nonce in a verack and sends a version of its own. A
//! handshake keyed by the peer's address waits for the verack that
//! echoes the nonce we sent, and completes exactly on a match.

use vstd::prelude::*;
use crate::addr::{PeerAddress, AddrV};
use crate::addr_map::AddrMap;
use crate::message::{Message, MessageV};

verus! {

/// Why a verack was rejected.
#[derive(Debug, Clone, Copy, PartialEq, Eq)]
pub enum HandshakeError {
    /// No handshake is pending for that address.
    Missing,
    /// A handshake is pending but the nonce differs.
    NonceMismatch,
}

/// Where an in-flight handshake stands.
#[derive(Debug, Clone, Copy, PartialEq, Eq, Structural)]
pub enum HandshakeState {
    AwaitingVerack,
    Completed,
}

/// One in-flight handshake: the nonce the peer must echo.
#[derive(Debug, Clone, Copy, PartialEq, Eq, Structural)]
pub struct HandshakeRecord {
    /// The nonce our version message carried.
    pub nonce: u64,
    pub state: HandshakeState,
}

/// The handshake registry, keyed by peer address.
pub struct Handshakes {
    pub entries: AddrMap<HandshakeRecord>,
}

impl Handshakes {
    pub open spec fn wf(&self) -> bool {
        self.entries.wf()
    }

    pub fn new() -> (r: Handshakes)
        ensures
            r.wf(),
            r.entries@ == Map::<AddrV, HandshakeRecord>::empty(),
    {
        Handshakes { entries: AddrMap::new() }
    }

    /// Opens an outbound handshake to `to`: records the nonce to be
    /// echoed and hands back the version message to send.
    pub fn send_request(&mut self, version: u64, height: u32, local: &PeerAddress,
        to: &PeerAddress, nonce: u64, now: i64) -> (r: Message)
        requires
            old(self).wf(),
            local.wf(),
            to.wf(),
        ensures
            final(self).wf(),
            final(self).entries@ == old(self).entries@.insert(to@, HandshakeRecord {
                nonce,
                state: HandshakeState::AwaitingVerack,
            }),
            r@ == (MessageV::Version {
                version,
                height,
                nonce,
                timestamp: now,
                address_receiver: to@,
                address_sender: local@,
            }),
    {
        self.entries.put(to, HandshakeRecord { nonce, state: HandshakeState::AwaitingVerack });
        Message::Version {
            version,
            height,
            nonce,
            timestamp: now,
            address_receiver: to.duplicate(),
            address_sender: local.duplicate(),
        }
    }

    /// Answers a version message from `peer`: records our own nonce to
    /// be echoed, and hands back the verack echoing theirs together
    /// with our own version message.
    pub fn receive_request(&mut self, their_nonce: u64, peer: &PeerAddress, version: u64,
        height: u32, local: &PeerAddress, our_nonce: u64, now: i64) -> (r: (Message, Message))
        requires
            old(self).wf(),
            local.wf(),
            peer.wf(),
        ensures
            final(self).wf(),
            final(self).entries@ == old(self).entries@.insert(peer@, HandshakeRecord {
                nonce: our_nonce,
                state: HandshakeState::AwaitingVerack,
            }),
            r.0@ == (MessageV::Verack { nonce: their_nonce }),
            r.1@ == (MessageV::Version {
                version,
                height,
                nonce: our_nonce,
                timestamp: now,
                address_receiver: peer@,
                address_sender: local@,
            }),
    {
        self.entries.put(peer, HandshakeRecord {
            nonce: our_nonce,
            state: HandshakeState::AwaitingVerack,
        });
        let verack = Message::Verack { nonce: their_nonce };
        let version_msg = Message::Version {
            version,
            height,
            nonce: our_nonce,
            timestamp: now,
            address_receiver: peer.duplicate(),
            address_sender: local.duplicate(),
        };
        (verack, version_msg)
    }

    /// Completes the handshake with `a` exactly when one is pending
    /// and the verack echoes its nonce; says why otherwise.
    pub fn accept_response(&mut self, a: &PeerAddress, verack_nonce: u64) -> (r: Result<
        (),
        HandshakeError,
    >)
        requires
            old(self).wf(),
            a.wf(),
        ensures
            final(self).wf(),
            match r {
                Ok(()) => {
                    &&& old(self).entries@.contains_key(a@)
                    &&& old(self).entries@[a@].nonce == verack_nonce
                    &&& final(self).entries@ == old(self).entries@.insert(a@, HandshakeRecord {
                        nonce: verack_nonce,
                        state: HandshakeState::Completed,
                    })
                },
                Err(HandshakeError::Missing) => !old(self).entries@.contains_key(a@) && *final(
                    self) == *old(self),
                Err(HandshakeError::NonceMismatch) => old(self).entries@.contains_key(a@) && old(
                    self).entries@[a@].nonce != verack_nonce && *final(self) == *old(self),
            },
    {
        match self.entries.lookup(a) {
            Some(rec) => {
                if rec.nonce == verack_nonce {
                    self.entries.put(a, HandshakeRecord {
                        nonce: verack_nonce,
                        state: HandshakeState::Completed,
                    });
                    Ok(())
                } else {
                    Err(HandshakeError::NonceMismatch)
                }
            }
            None => Err(HandshakeError::Missing),
        }
    }
}

} // verus!
