//! The chain-sync state machine.
//!
//! One peer at a time is the sync node. Hashes it announces and we do
//! not have are queued; each step hands out the next hash to request,
//! and the state falls back to idle once every pending hash is either
//! requested and stored or discarded.

use vstd::prelude::*;
use crate::addr::PeerAddress;
use crate::message::HASH_LEN;

verus! {

/// Whether a catch-up from the sync node is in flight.
#[derive(Debug, Clone, Copy, PartialEq, Eq, Structural)]
pub enum SyncState {
    Idle,
    Syncing,
}

/// The hashes of `h` that the storage answers say are missing: entry
/// `k` is kept when `in_storage[k]` is false.
pub open spec fn missing_hashes(h: Seq<Seq<u8>>, in_storage: Seq<bool>) -> Seq<Seq<u8>>
    decreases h.len(),
{
    if h.len() == 0 {
        Seq::empty()
    } else {
        missing_hashes(h.drop_last(), in_storage.drop_last()) + (if in_storage[h.len() - 1] {
            Seq::empty()
        } else {
            seq![h.last()]
        })
    }
}

/// Keeping or dropping the next hash extends the filtered list.
pub proof fn lemma_missing_take(h: Seq<Seq<u8>>, f: Seq<bool>, i: int)
    requires
        0 <= i < h.len(),
        i < f.len(),
    ensures
        missing_hashes(h.take(i + 1), f.take(i + 1)) == missing_hashes(h.take(i), f.take(i))
            + (if f[i] {
            Seq::<Seq<u8>>::empty()
        } else {
            seq![h[i]]
        }),
{
    assert(h.take(i + 1).drop_last() =~= h.take(i));
    assert(f.take(i + 1).drop_last() =~= f.take(i));
    assert(h.take(i + 1).last() == h[i]);
    assert(f.take(i + 1)[h.take(i + 1).len() - 1] == f[i]);
}

/// The sync handler: state, sync node, and the queue of block hashes
/// still to request.
pub struct SyncHandler {
    /// Idle, or catching up from the sync node.
    pub sync_state: SyncState,
    /// The one peer blocks are requested from.
    pub sync_node: PeerAddress,
    /// Hashes to request, oldest first; consumed from the cursor on.
    pub pending_hashes: Vec<Vec<u8>>,
    /// How many pending hashes were already requested.
    pub cursor: usize,
}

impl SyncHandler {
    /// The hashes not yet requested.
    pub open spec fn remaining(&self) -> Seq<Seq<u8>> {
        self.pending_hashes@.map_values(|h: Vec<u8>| h@).skip(self.cursor as int)
    }

    /// The cursor stays in range, hashes have their fixed width, and
    /// an idle handler has nothing pending.
    pub open spec fn wf(&self) -> bool {
        &&& self.cursor <= self.pending_hashes@.len()
        &&& forall|k: int| 0 <= k < self.pending_hashes@.len() ==> (
        #[trigger] self.pending_hashes@[k])@.len() == HASH_LEN
        &&& self.sync_node.wf()
        &&& self.sync_state is Idle ==> self.remaining().len() == 0
    }

    pub fn new(sync_node: PeerAddress) -> (r: SyncHandler)
        requires
            sync_node.wf(),
        ensures
            r.wf(),
            r.sync_state is Idle,
            r.remaining().len() == 0,
            r.sync_node@ == sync_node@,
    {
        let r = SyncHandler { sync_state: SyncState::Idle, sync_node, pending_hashes: Vec::new(), cursor: 0 };
        proof {
            assert(r.remaining() =~= Seq::<Seq<u8>>::empty());
        }
        r
    }

    /// Whether a catch-up is in flight.
    pub fn is_syncing(&self) -> (r: bool)
        ensures
            r == (self.sync_state is Syncing),
    {
        match self.sync_state {
            SyncState::Syncing => true,
            SyncState::Idle => false,
        }
    }

    /// Adopts `a` as the sync node.
    pub fn set_sync_node(&mut self, a: &PeerAddress)
        requires
            old(self).wf(),
            a.wf(),
        ensures
            final(self).wf(),
            final(self).sync_node@ == a@,
            final(self).sync_state == old(self).sync_state,
            final(self).remaining() == old(self).remaining(),
    {
        self.sync_node = a.duplicate();
    }

    /// Takes the hashes a sync answer announced, keeps those the
    /// storage answers say are missing, and starts syncing when any
    /// are left.
    pub fn receive_hashes(&mut self, hashes: Vec<Vec<u8>>, in_storage: &Vec<bool>)
        requires
            old(self).wf(),
            in_storage@.len() == hashes@.len(),
            forall|k: int| 0 <= k < hashes@.len() ==> (#[trigger] hashes@[k])@.len() == HASH_LEN,
        ensures
            final(self).wf(),
            final(self).sync_node@ == old(self).sync_node@,
            final(self).remaining() == missing_hashes(hashes@.map_values(|h: Vec<u8>| h@),
                in_storage@),
            final(self).sync_state == (if final(self).remaining().len() > 0 {
                SyncState::Syncing
            } else {
                old(self).sync_state
            }),
    {
        let ghost hv = hashes@.map_values(|h: Vec<u8>| h@);
        let n = hashes.len();
        let mut kept: Vec<Vec<u8>> = Vec::new();
        let mut j: usize = 0;
        while j < n
            invariant
                j <= n,
                n == hashes@.len(),
                hv == hashes@.map_values(|h: Vec<u8>| h@),
                in_storage@.len() == n,
                forall|k: int| 0 <= k < n ==> (#[trigger] hashes@[k])@.len() == HASH_LEN,
                forall|k: int| 0 <= k < kept@.len() ==> (#[trigger] kept@[k])@.len() == HASH_LEN,
                kept@.map_values(|h: Vec<u8>| h@) == missing_hashes(hv.take(j as int),
                    in_storage@.take(j as int)),
            decreases n - j,
        {
            proof {
                lemma_missing_take(hv, in_storage@, j as int);
            }
            if !in_storage[j] {
                let h = crate::bytes::copy_range(&hashes[j], 0, hashes[j].len());
                proof {
                    assert(h@ =~= hashes@[j as int]@);
                }
                kept.push(h);
            }
            proof {
                assert(kept@.map_values(|h: Vec<u8>| h@) =~= missing_hashes(hv.take(j + 1),
                    in_storage@.take(j + 1)));
            }
            j = j + 1;
        }
        proof {
            assert(hv.take(n as int) =~= hv);
            assert(in_storage@.take(n as int) =~= in_storage@);
        }
        let any = kept.len() > 0;
        self.pending_hashes = kept;
        self.cursor = 0;
        if any {
            self.sync_state = SyncState::Syncing;
        }
        proof {
            assert(self.remaining() =~= self.pending_hashes@.map_values(|h: Vec<u8>| h@));
        }
    }

    /// Hands out the next hash to request from the sync node and moves
    /// the cursor past it; with nothing left, falls back to idle.
    pub fn increment(&mut self) -> (r: Option<Vec<u8>>)
        requires
            old(self).wf(),
        ensures
            final(self).wf(),
            final(self).sync_node@ == old(self).sync_node@,
            match r {
                Some(h) => {
                    &&& old(self).remaining().len() > 0
                    &&& h@ == old(self).remaining()[0]
                    &&& final(self).remaining() == old(self).remaining().drop_first()
                    &&& final(self).sync_state == old(self).sync_state
                },
                None => {
                    &&& old(self).remaining().len() == 0
                    &&& final(self).sync_state is Idle
                    &&& final(self).remaining().len() == 0
                },
            },
    {
        if self.cursor < self.pending_hashes.len() {
            let i = self.cursor;
            let h = crate::bytes::copy_range(&self.pending_hashes[i], 0,
                self.pending_hashes[i].len());
            proof {
                assert(h@ =~= self.pending_hashes@[i as int]@);
                assert(old(self).remaining()[0] == self.pending_hashes@[i as int]@);
            }
            self.cursor = i + 1;
            proof {
                assert(self.remaining() =~= old(self).remaining().drop_first());
            }
            Some(h)
        } else {
            proof {
                assert(old(self).remaining().len() == 0);
            }
            self.sync_state = SyncState::Idle;
            proof {
                assert(self.remaining() =~= old(self).remaining());
            }
            None
        }
    }

    /// Discards pending hashes whose blocks arrived meanwhile; with
    /// nothing left, falls back to idle.
    pub fn clear_pending(&mut self, in_storage: &Vec<bool>)
        requires
            old(self).wf(),
            in_storage@.len() == old(self).remaining().len(),
        ensures
            final(self).wf(),
            final(self).sync_node@ == old(self).sync_node@,
            final(self).remaining() == missing_hashes(old(self).remaining(), in_storage@),
            final(self).sync_state == (if final(self).remaining().len() == 0 {
                SyncState::Idle
            } else {
                old(self).sync_state
            }),
    {
        let ghost rv = self.remaining();
        let n = self.pending_hashes.len();
        let c = self.cursor;
        let mut kept: Vec<Vec<u8>> = Vec::new();
        let mut j: usize = 0;
        while j < n - c
            invariant
                j <= n - c,
                c <= n,
                n == self.pending_hashes@.len(),
                c == self.cursor,
                *self == *old(self),
                rv == self.remaining(),
                in_storage@.len() == n - c,
                forall|k: int| 0 <= k < n ==> (#[trigger] self.pending_hashes@[k])@.len()
                    == HASH_LEN,
                forall|k: int| 0 <= k < kept@.len() ==> (#[trigger] kept@[k])@.len() == HASH_LEN,
                kept@.map_values(|h: Vec<u8>| h@) == missing_hashes(rv.take(j as int),
                    in_storage@.take(j as int)),
            decreases n - c - j,
        {
            proof {
                lemma_missing_take(rv, in_storage@, j as int);
                assert(rv[j as int] == self.pending_hashes@[c + j]@);
            }
            if !in_storage[j] {
                let h = crate::bytes::copy_range(&self.pending_hashes[c + j], 0,
                    self.pending_hashes[c + j].len());
                proof {
                    assert(h@ =~= self.pending_hashes@[c + j]@);
                }
                kept.push(h);
            }
            proof {
                assert(kept@.map_values(|h: Vec<u8>| h@) =~= missing_hashes(rv.take(j + 1),
                    in_storage@.take(j + 1)));
            }
            j = j + 1;
        }
        proof {
            assert(rv.take(n - c) =~= rv);
            assert(in_storage@.take(n - c) =~= in_storage@);
        }
        let empty = kept.len() == 0;
        self.pending_hashes = kept;
        self.cursor = 0;
        if empty {
            self.sync_state = SyncState::Idle;
        }
        proof {
            assert(self.remaining() =~= self.pending_hashes@.map_values(|h: Vec<u8>| h@));
        }
    }
}

/// An idle handler has nothing pending.
pub proof fn lemma_idle_no_pending(s: &SyncHandler)
    requires
        s.wf(),
        s.sync_state is Idle,
    ensures
        s.remaining().len() == 0,
{
}

/// A sync answer hands back at most this many hashes per request.
pub const SYNC_BATCH_CAP: u32 = 4000;

/// The span of block heights a sync request is answered with: from
/// just above the latest shared height up to the requester's gap or
/// the batch cap, whichever ends first. `None` when no locator hash
/// is shared or the responder has nothing newer.
pub open spec fn sync_span(shared_height: Option<u32>, current_height: u32) -> Option<(u32, u32)> {
    match shared_height {
        Some(shared) => if shared < current_height {
            if current_height - shared > SYNC_BATCH_CAP {
                Some(((shared + 1) as u32, (shared + SYNC_BATCH_CAP) as u32))
            } else {
                Some(((shared + 1) as u32, current_height))
            }
        } else {
            None
        },
        None => None,
    }
}

/// Computes [`sync_span`]: the inclusive height range whose hashes
/// answer a sync request, never more than the batch cap. A request
/// whose locator shares nothing with our chain gets no span: it is
/// answered with an empty hash list.
pub fn sync_response_span(shared_height: Option<u32>, current_height: u32) -> (r: Option<
    (u32, u32),
>)
    ensures
        r == sync_span(shared_height, current_height),
        match r {
            Some(span) => {
                &&& shared_height matches Some(shared) && span.0 == shared + 1
                &&& span.0 <= span.1
                &&& span.1 <= current_height
                &&& span.1 - span.0 + 1 <= SYNC_BATCH_CAP
            },
            None => shared_height matches Some(shared) ==> shared >= current_height,
        },
{
    match shared_height {
        Some(shared) => {
            if shared < current_height {
                if current_height - shared > SYNC_BATCH_CAP {
                    Some((shared + 1, shared + SYNC_BATCH_CAP))
                } else {
                    Some((shared + 1, current_height))
                }
            } else {
                None
            }
        }
        None => None,
    }
}

} // verus!
