//! The peer book: three disjoint address sets with last-seen times.
//!
//! A peer is *connected* when a handshake completed over a live
//! channel, *gossiped* when its address was only learned from others,
//! and *disconnected* when a former connection was dropped. The book
//! keeps the three sets pairwise disjoint, and never holds more
//! connected peers than its capacity allows. The connected set can be
//! saved as a byte blob and read back unchanged.

use vstd::prelude::*;
use crate::addr::{PeerAddress, AddrV, wf_addr};
use crate::addr_map::{AddrMap, entries_map, distinct_keys};
use crate::message::{Message, MessageV, wf_msg, msg_bytes};
use crate::codec::{encode, decode, WireError, lemma_msg_bytes_injective};

verus! {

/// The peer book.
pub struct PeerBook {
    /// Peers with a live, acknowledged session.
    pub connected: AddrMap<i64>,
    /// Addresses learned from peers or persisted state, not connected.
    pub gossiped: AddrMap<i64>,
    /// Formerly connected peers that were dropped.
    pub disconnected: AddrMap<i64>,
    /// Most connected peers allowed at once.
    pub max_peers: usize,
}

impl PeerBook {
    /// No address sits in two of the three sets, and the connected set
    /// respects the capacity.
    pub open spec fn wf(&self) -> bool {
        &&& self.connected.wf()
        &&& self.gossiped.wf()
        &&& self.disconnected.wf()
        &&& forall|a: AddrV| !(#[trigger] self.connected@.contains_key(a)
            && #[trigger] self.gossiped@.contains_key(a))
        &&& forall|a: AddrV| !(#[trigger] self.connected@.contains_key(a)
            && #[trigger] self.disconnected@.contains_key(a))
        &&& forall|a: AddrV| !(#[trigger] self.gossiped@.contains_key(a)
            && #[trigger] self.disconnected@.contains_key(a))
        &&& self.connected.spec_len() <= self.max_peers
    }

    pub fn new(max_peers: usize) -> (r: PeerBook)
        ensures
            r.wf(),
            r.connected@ == Map::<AddrV, i64>::empty(),
            r.gossiped@ == Map::<AddrV, i64>::empty(),
            r.disconnected@ == Map::<AddrV, i64>::empty(),
            r.max_peers == max_peers,
    {
        PeerBook {
            connected: AddrMap::new(),
            gossiped: AddrMap::new(),
            disconnected: AddrMap::new(),
            max_peers,
        }
    }

    /// Marks `a` connected with last-seen time `ts`, first removing it
    /// from the other two sets. Refused exactly when the book is at
    /// capacity and `a` is not already connected.
    pub fn update_connected(&mut self, a: &PeerAddress, ts: i64) -> (accepted: bool)
        requires
            old(self).wf(),
            a.wf(),
        ensures
            final(self).wf(),
            final(self).max_peers == old(self).max_peers,
            accepted == (old(self).connected@.contains_key(a@) || old(self).connected.spec_len()
                < old(self).max_peers),
            accepted ==> {
                &&& final(self).connected@ == old(self).connected@.insert(a@, ts)
                &&& final(self).gossiped@ == old(self).gossiped@.remove(a@)
                &&& final(self).disconnected@ == old(self).disconnected@.remove(a@)
                &&& final(self).connected.spec_len() == old(self).connected.spec_len() + (if old(
                    self).connected@.contains_key(a@) {
                    0int
                } else {
                    1int
                })
            },
            !accepted ==> *final(self) == *old(self),
    {
        let already = self.connected.has(a);
        if already || self.connected.len() < self.max_peers {
            let _ = self.gossiped.take_out(a);
            let _ = self.disconnected.take_out(a);
            self.connected.put(a, ts);
            true
        } else {
            false
        }
    }

    /// Records `a` as gossiped with time `ts`; a no-op when `a` is
    /// already connected. Removes `a` from the disconnected set.
    pub fn update_gossiped(&mut self, a: &PeerAddress, ts: i64)
        requires
            old(self).wf(),
            a.wf(),
        ensures
            final(self).wf(),
            final(self).max_peers == old(self).max_peers,
            old(self).connected@.contains_key(a@) ==> *final(self) == *old(self),
            !old(self).connected@.contains_key(a@) ==> {
                &&& final(self).connected == old(self).connected
                &&& final(self).gossiped@ == old(self).gossiped@.insert(a@, ts)
                &&& final(self).disconnected@ == old(self).disconnected@.remove(a@)
            },
    {
        if self.connected.has(a) {
            return ;
        }
        let _ = self.disconnected.take_out(a);
        self.gossiped.put(a, ts);
    }

    /// Moves `a` from connected to disconnected, stamped with `now`.
    /// Reports whether `a` was connected; otherwise nothing changes.
    pub fn disconnect_peer(&mut self, a: &PeerAddress, now: i64) -> (was: bool)
        requires
            old(self).wf(),
            a.wf(),
        ensures
            final(self).wf(),
            final(self).max_peers == old(self).max_peers,
            was == old(self).connected@.contains_key(a@),
            was ==> {
                &&& final(self).connected@ == old(self).connected@.remove(a@)
                &&& final(self).gossiped@ == old(self).gossiped@
                &&& final(self).disconnected@ == old(self).disconnected@.insert(a@, now)
            },
            !was ==> *final(self) == *old(self),
    {
        match self.connected.take_out(a) {
            Some(_) => {
                self.disconnected.put(a, now);
                true
            }
            None => false,
        }
    }

    /// Removes `a` from every set.
    pub fn forget_peer(&mut self, a: &PeerAddress)
        requires
            old(self).wf(),
        ensures
            final(self).wf(),
            final(self).max_peers == old(self).max_peers,
            final(self).connected@ == old(self).connected@.remove(a@),
            final(self).gossiped@ == old(self).gossiped@.remove(a@),
            final(self).disconnected@ == old(self).disconnected@.remove(a@),
    {
        let _ = self.connected.take_out(a);
        let _ = self.gossiped.take_out(a);
        let _ = self.disconnected.take_out(a);
    }

    /// Whether `a` is connected.
    pub fn connected_contains(&self, a: &PeerAddress) -> (r: bool)
        ensures
            r == self.connected@.contains_key(a@),
    {
        self.connected.has(a)
    }

    /// How many peers are connected.
    pub fn connected_total(&self) -> (r: usize)
        ensures
            r == self.connected.spec_len(),
    {
        self.connected.len()
    }

    /// The connected peers with their last-seen times.
    pub fn get_connected(&self) -> (r: Vec<(PeerAddress, i64)>)
        requires
            self.wf(),
        ensures
            r@.map_values(|p: (PeerAddress, i64)| (p.0@, p.1)) == self.connected.seq_view(),
            entries_map(r@.map_values(|p: (PeerAddress, i64)| (p.0@, p.1))) == self.connected@,
            distinct_keys(r@.map_values(|p: (PeerAddress, i64)| (p.0@, p.1))),
            forall|k: int| 0 <= k < r@.len() ==> wf_addr((#[trigger] r@[k].0)@),
    {
        let d = self.connected.duplicate();
        proof {
            assert forall|k: int| 0 <= k < d.entries@.len() implies wf_addr(
                (#[trigger] d.entries@[k].0)@) by {
                assert(d.seq_view()[k].0 == d.entries@[k].0@);
            }
        }
        d.entries
    }

    /// The connected peers except `a`: what a peer-list request from
    /// `a` is answered with.
    pub fn connected_without(&self, a: &PeerAddress) -> (r: AddrMap<i64>)
        requires
            self.wf(),
        ensures
            r.wf(),
            r@ == self.connected@.remove(a@),
            r.spec_len() <= self.connected.spec_len(),
    {
        let mut d = self.connected.duplicate();
        proof {
            assert(d.wf());
        }
        let _ = d.take_out(a);
        d
    }
}

/// Every peer sits in at most one of the three sets.
///
/// Law: membership in connected, gossiped and disconnected is mutually
/// exclusive, at every reachable state of a well-formed book.
pub proof fn lemma_book_sets_disjoint(pb: &PeerBook, a: AddrV)
    requires
        pb.wf(),
    ensures
        !(pb.connected@.contains_key(a) && pb.gossiped@.contains_key(a)),
        !(pb.connected@.contains_key(a) && pb.disconnected@.contains_key(a)),
        !(pb.gossiped@.contains_key(a) && pb.disconnected@.contains_key(a)),
{
}

/// The connected set never outgrows the configured capacity.
pub proof fn lemma_book_capacity(pb: &PeerBook)
    requires
        pb.wf(),
    ensures
        pb.connected.spec_len() <= pb.max_peers,
{
}

/// Saves a peer list as a byte blob: the frame of a peers message.
pub fn save_peer_entries(entries: Vec<(PeerAddress, i64)>) -> (r: Vec<u8>)
    requires
        wf_msg(MessageV::Peers {
            addresses: entries@.map_values(|p: (PeerAddress, i64)| (p.0@, p.1)),
        }),
    ensures
        r@ == msg_bytes(MessageV::Peers {
            addresses: entries@.map_values(|p: (PeerAddress, i64)| (p.0@, p.1)),
        }),
{
    let m = Message::Peers { addresses: entries };
    encode(&m)
}

/// Loads a peer list saved by [`save_peer_entries`]. Fails exactly
/// when the bytes are no saved peer list.
pub fn load_peer_entries(bytes: &Vec<u8>) -> (r: Result<Vec<(PeerAddress, i64)>, WireError>)
    ensures
        match r {
            Ok(l) => {
                &&& wf_msg(MessageV::Peers {
                    addresses: l@.map_values(|p: (PeerAddress, i64)| (p.0@, p.1)),
                })
                &&& bytes@ == msg_bytes(MessageV::Peers {
                    addresses: l@.map_values(|p: (PeerAddress, i64)| (p.0@, p.1)),
                })
            },
            Err(_) => forall|lv: Seq<(AddrV, i64)>| wf_msg(MessageV::Peers { addresses: lv })
                ==> bytes@ != #[trigger] msg_bytes(MessageV::Peers { addresses: lv }),
        },
{
    match decode(bytes) {
        Ok(m) => {
            match m {
                Message::Peers { addresses } => Ok(addresses),
                other => {
                    proof {
                        assert forall|lv: Seq<(AddrV, i64)>| wf_msg(MessageV::Peers {
                            addresses: lv,
                        }) implies bytes@ != #[trigger] msg_bytes(MessageV::Peers {
                            addresses: lv,
                        }) by {
                            if bytes@ == msg_bytes(MessageV::Peers { addresses: lv }) {
                                lemma_msg_bytes_injective(other@, MessageV::Peers {
                                    addresses: lv,
                                });
                            }
                        }
                    }
                    Err(WireError::InvalidFormat)
                }
            }
        }
        Err(e) => {
            proof {
                assert forall|lv: Seq<(AddrV, i64)>| wf_msg(MessageV::Peers { addresses: lv })
                    implies bytes@ != #[trigger] msg_bytes(MessageV::Peers { addresses: lv })
                    by {}
            }
            Err(e)
        }
    }
}

/// Saving a peer list and loading the blob yields entries carrying the
/// same address-to-time map.
pub proof fn lemma_peer_blob_round_trip(ev: Seq<(AddrV, i64)>, lv: Seq<(AddrV, i64)>)
    requires
        wf_msg(MessageV::Peers { addresses: ev }),
        wf_msg(MessageV::Peers { addresses: lv }),
        msg_bytes(MessageV::Peers { addresses: ev }) == msg_bytes(MessageV::Peers {
            addresses: lv,
        }),
    ensures
        ev == lv,
        entries_map(ev) == entries_map(lv),
{
    lemma_msg_bytes_injective(MessageV::Peers { addresses: ev }, MessageV::Peers {
        addresses: lv,
    });
}

} // verus!
