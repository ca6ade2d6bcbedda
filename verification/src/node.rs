//! The node: shared state and the central message handler.
//!
//! One handler consumes every inbound message and mutates the shared
//! state: the peer book, the ping and handshake registries, the sync
//! handler and the connection table. Storage and consensus are
//! collaborators at the edge: their answers come in as [`Facts`], and
//! everything to perform outside — writes to peers, dials, mempool
//! submissions — goes out as [`Action`]s.

use vstd::prelude::*;
use crate::addr::{PeerAddress, AddrV, wf_addr};
use crate::addr_map::{AddrMap, entries_map, distinct_keys, has_entry};
use crate::message::{Message, MessageV, wf_msg, HASH_LEN};
use crate::peer_book::PeerBook;
use crate::pings::{Pings, PingError};
use crate::handshake::{Handshakes, HandshakeRecord, HandshakeState};
use crate::sync::{SyncHandler, SyncState};

verus! {

/// The version number our version messages advertise.
pub const PROTOCOL_VERSION: u64 = 1;

/// Something the caller performs outside the node's state: a message
/// written to a peer, an outbound handshake, a transaction handed to
/// the mempool, or a channel to close.
pub enum Action {
    /// Write `message` to the channel of `to`.
    Send { to: PeerAddress, message: Message },
    /// Open an outbound handshake to `to`.
    DialHandshake { to: PeerAddress },
    /// Hand a received transaction to the mempool.
    SubmitTransaction { data: Vec<u8> },
    /// Close the channel of `peer`.
    Disconnect { peer: PeerAddress },
}

/// Mathematical image of an [`Action`].
#[verifier::ext_equal]
pub enum ActionV {
    Send { to: AddrV, message: MessageV },
    DialHandshake { to: AddrV },
    SubmitTransaction { data: Seq<u8> },
    Disconnect { peer: AddrV },
}

impl View for Action {
    type V = ActionV;

    open spec fn view(&self) -> ActionV {
        match self {
            Action::Send { to, message } => ActionV::Send { to: to@, message: message@ },
            Action::DialHandshake { to } => ActionV::DialHandshake { to: to@ },
            Action::SubmitTransaction { data } => ActionV::SubmitTransaction { data: data@ },
            Action::Disconnect { peer } => ActionV::Disconnect { peer: peer@ },
        }
    }
}

/// The action images of an action list.
pub open spec fn acts_view(acts: Seq<Action>) -> Seq<ActionV> {
    acts.map_values(|a: Action| a@)
}

/// Sending `m` to every connected peer but `except`, in book order.
pub open spec fn fanout_actions(conn: Seq<(AddrV, i64)>, except: AddrV, m: MessageV) -> Seq<
    ActionV,
>
    decreases conn.len(),
{
    if conn.len() == 0 {
        Seq::empty()
    } else {
        fanout_actions(conn.drop_last(), except, m) + (if conn.last().0 == except {
            Seq::empty()
        } else {
            seq![ActionV::Send { to: conn.last().0, message: m }]
        })
    }
}

/// Nothing is ever sent back to the peer a fan-out excludes, and only
/// connected peers are written to.
pub proof fn lemma_fanout_excludes(conn: Seq<(AddrV, i64)>, except: AddrV, m: MessageV)
    ensures
        forall|k: int| 0 <= k < fanout_actions(conn, except, m).len() ==> ({
            &&& (#[trigger] fanout_actions(conn, except, m)[k]) matches ActionV::Send {
                to,
                message,
            }
            &&& to != except
            &&& has_entry(conn, to)
            &&& message == m
        }),
    decreases conn.len(),
{
    if conn.len() > 0 {
        lemma_fanout_excludes(conn.drop_last(), except, m);
        assert forall|k: int| 0 <= k < fanout_actions(conn, except, m).len() implies ({
            &&& (#[trigger] fanout_actions(conn, except, m)[k]) matches ActionV::Send {
                to,
                message,
            }
            &&& to != except
            &&& has_entry(conn, to)
            &&& message == m
        }) by {
            let pre = fanout_actions(conn.drop_last(), except, m);
            if k < pre.len() {
                assert(fanout_actions(conn, except, m)[k] == pre[k]);
                match pre[k] {
                    ActionV::Send { to, message } => {
                        let i = crate::addr_map::entry_index(conn.drop_last(), to);
                        assert(conn[i] == conn.drop_last()[i]);
                        assert(has_entry(conn, to));
                    }
                    _ => {}
                }
            } else {
                assert(conn.last().0 != except);
                assert(fanout_actions(conn, except, m)[k] == (ActionV::Send {
                    to: conn.last().0,
                    message: m,
                }));
                assert(conn[conn.len() - 1].0 == conn.last().0);
                assert(has_entry(conn, conn.last().0));
            }
        }
    }
}

/// Every connected peer other than the excluded one is written to.
pub proof fn lemma_fanout_covers(conn: Seq<(AddrV, i64)>, except: AddrV, m: MessageV, i: int)
    requires
        0 <= i < conn.len(),
        conn[i].0 != except,
    ensures
        exists|k: int| 0 <= k < fanout_actions(conn, except, m).len()
            && (#[trigger] fanout_actions(conn, except, m)[k]) == (ActionV::Send {
            to: conn[i].0,
            message: m,
        }),
    decreases conn.len(),
{
    let acts = fanout_actions(conn, except, m);
    let pre = fanout_actions(conn.drop_last(), except, m);
    if i == conn.len() - 1 {
        assert(acts[acts.len() - 1] == (ActionV::Send { to: conn[i].0, message: m }));
    } else {
        lemma_fanout_covers(conn.drop_last(), except, m, i);
        let k = choose|k: int| 0 <= k < pre.len() && (#[trigger] pre[k]) == (ActionV::Send {
            to: conn.drop_last()[i].0,
            message: m,
        });
        assert(acts[k] == pre[k]);
        assert(conn.drop_last()[i] == conn[i]);
    }
}

/// Builds the fan-out of `m` over `conn`, skipping `except`.
fn fanout(conn: &Vec<(PeerAddress, i64)>, except: &PeerAddress, m: &Message, out: &mut Vec<
    Action,
>)
    requires
        m.wf(),
    ensures
        acts_view(final(out)@) == acts_view(old(out)@) + fanout_actions(conn@.map_values(
            |p: (PeerAddress, i64)| (p.0@, p.1)), except@, m@),
        forall|k: int| old(out)@.len() <= k < final(out)@.len() ==> ({
            &&& (#[trigger] final(out)@[k]) matches Action::Send { message, .. }
            &&& message.wf()
        }),
{
    let ghost cv = conn@.map_values(|p: (PeerAddress, i64)| (p.0@, p.1));
    let n = conn.len();
    let mut j: usize = 0;
    while j < n
        invariant
            j <= n,
            n == conn@.len(),
            cv == conn@.map_values(|p: (PeerAddress, i64)| (p.0@, p.1)),
            m.wf(),
            acts_view(out@) == acts_view(old(out)@) + fanout_actions(cv.take(j as int), except@,
                m@),
            forall|k: int| old(out)@.len() <= k < out@.len() ==> ({
                &&& (#[trigger] out@[k]) matches Action::Send { message, .. }
                &&& message.wf()
            }),
        decreases n - j,
    {
        proof {
            assert(cv.take(j + 1).drop_last() =~= cv.take(j as int));
            assert(cv.take(j + 1).last() == cv[j as int]);
            assert(cv[j as int] == (conn@[j as int].0@, conn@[j as int].1));
        }
        let ghost prev_acts = acts_view(out@);
        if !conn[j].0.same(except) {
            let dup = conn[j].0.duplicate();
            let msg = m.duplicate();
            out.push(Action::Send { to: dup, message: msg });
            proof {
                assert(acts_view(out@) =~= prev_acts + seq![ActionV::Send {
                    to: cv[j as int].0,
                    message: m@,
                }]);
                assert(fanout_actions(cv.take(j + 1), except@, m@) == fanout_actions(
                    cv.take(j as int), except@, m@) + seq![ActionV::Send {
                    to: cv[j as int].0,
                    message: m@,
                }]);
                assert(acts_view(out@) =~= acts_view(old(out)@) + fanout_actions(cv.take(j + 1),
                    except@, m@));
            }
        } else {
            proof {
                assert(fanout_actions(cv.take(j + 1), except@, m@) =~= fanout_actions(
                    cv.take(j as int), except@, m@));
                assert(acts_view(out@) =~= acts_view(old(out)@) + fanout_actions(cv.take(j + 1),
                    except@, m@));
            }
        }
        j = j + 1;
    }
    proof {
        assert(cv.take(n as int) =~= cv);
    }
}

/// Storage and consensus answers a message needs, fetched by the
/// caller before the handler runs.
pub enum Facts {
    /// For messages that need none.
    Nothing,
    /// For a version message: our chain height, and our block locator
    /// hashes in case a sync is to be requested.
    Chain { local_height: u32, locator: Vec<Vec<u8>> },
    /// For a block request: the stored block bytes, if any.
    BlockLookup { block: Option<Vec<u8>> },
    /// For a received block: whether its hash was already stored,
    /// whether the consensus call inserted it, and which of the
    /// pending sync hashes are now in storage.
    BlockReceipt { hash_known: bool, inserted: bool, pending_in_storage: Vec<bool> },
    /// For a sync request: the hashes of the span computed with
    /// [`crate::sync::sync_response_span`].
    SyncReply { hashes: Vec<Vec<u8>> },
    /// For a sync answer: which of its hashes are already stored.
    SyncHashes { in_storage: Vec<bool> },
    /// For a pool request: the pooled transactions.
    PoolContents { transactions: Vec<Vec<u8>> },
    /// For a received transaction: whether the mempool took it.
    TxReceipt { inserted: bool },
}

/// The node's shared state, mutated only by the central handler.
pub struct Node {
    /// Our own address, rewritten once on self-discovery.
    pub local_address: PeerAddress,
    /// Well-known entry addresses.
    pub bootnodes: Vec<PeerAddress>,
    /// A bootnode does not redial stored peers.
    pub is_bootnode: bool,
    pub peer_book: PeerBook,
    pub pings: Pings,
    pub handshakes: Handshakes,
    pub sync_handler: SyncHandler,
    /// Addresses with a live channel the caller can write to.
    pub connections: AddrMap<bool>,
}

/// The three peer-book maps after merging one learned address: a
/// connected peer is refreshed, anyone else lands in the gossiped set,
/// and our own address is skipped.
pub open spec fn merge_one(t: (Map<AddrV, i64>, Map<AddrV, i64>, Map<AddrV, i64>),
    e: (AddrV, i64), local: AddrV) -> (Map<AddrV, i64>, Map<AddrV, i64>, Map<AddrV, i64>) {
    if e.0 == local {
        t
    } else if t.0.contains_key(e.0) {
        (t.0.insert(e.0, e.1), t.1.remove(e.0), t.2.remove(e.0))
    } else {
        (t.0, t.1.insert(e.0, e.1), t.2.remove(e.0))
    }
}

/// The peer-book maps after merging a whole learned list, in order.
pub open spec fn merge_fold(t: (Map<AddrV, i64>, Map<AddrV, i64>, Map<AddrV, i64>),
    l: Seq<(AddrV, i64)>, local: AddrV) -> (Map<AddrV, i64>, Map<AddrV, i64>, Map<AddrV, i64>)
    decreases l.len(),
{
    if l.len() == 0 {
        t
    } else {
        merge_one(merge_fold(t, l.drop_last(), local), l.last(), local)
    }
}

/// The gossiped and disconnected maps after recording each listed
/// bootnode in turn: an already connected bootnode is left alone, any
/// other lands in the gossiped set and leaves the disconnected set.
pub open spec fn boot_gossip_fold(c: Map<AddrV, i64>, g: Map<AddrV, i64>, d: Map<AddrV, i64>,
    rest: Seq<AddrV>, now: i64) -> (Map<AddrV, i64>, Map<AddrV, i64>)
    decreases rest.len(),
{
    if rest.len() == 0 {
        (g, d)
    } else {
        let prev = boot_gossip_fold(c, g, d, rest.drop_last(), now);
        let b = rest.last();
        if c.contains_key(b) {
            prev
        } else {
            (prev.0.insert(b, now), prev.1.remove(b))
        }
    }
}

/// What refreshing a peer's last-seen time does to the book: the
/// update of [`PeerBook::update_connected`], refused only at capacity.
pub open spec fn touched_book(pre: PeerBook, post: PeerBook, a: AddrV, now: i64) -> bool {
    if pre.connected@.contains_key(a) || pre.connected.spec_len() < pre.max_peers {
        &&& post.connected@ == pre.connected@.insert(a, now)
        &&& post.gossiped@ == pre.gossiped@.remove(a)
        &&& post.disconnected@ == pre.disconnected@.remove(a)
        &&& post.max_peers == pre.max_peers
    } else {
        post == pre
    }
}

impl Node {
    pub open spec fn wf(&self) -> bool {
        &&& self.local_address.wf()
        &&& forall|k: int| 0 <= k < self.bootnodes@.len() ==> (
        #[trigger] self.bootnodes@[k]).wf()
        &&& self.peer_book.wf()
        &&& self.pings.wf()
        &&& self.handshakes.wf()
        &&& self.sync_handler.wf()
        &&& self.connections.wf()
        &&& self.peer_book.max_peers <= 0xFF_FFFF
    }

    /// A fresh node around its configuration. The capacity is bounded
    /// so that a full peer list always fits one frame.
    pub fn new(local_address: PeerAddress, bootnodes: Vec<PeerAddress>, is_bootnode: bool,
        max_peers: usize, ping_window: i64) -> (r: Node)
        requires
            local_address.wf(),
            forall|k: int| 0 <= k < bootnodes@.len() ==> (#[trigger] bootnodes@[k]).wf(),
            max_peers <= 0xFF_FFFF,
            ping_window >= 0,
        ensures
            r.wf(),
            r.local_address@ == local_address@,
            r.is_bootnode == is_bootnode,
            r.peer_book.max_peers == max_peers,
            r.peer_book.connected@ == Map::<AddrV, i64>::empty(),
            r.sync_handler.sync_state is Idle,
            r.connections@ == Map::<AddrV, bool>::empty(),
    {
        let sync_node = local_address.duplicate();
        Node {
            local_address,
            bootnodes,
            is_bootnode,
            peer_book: PeerBook::new(max_peers),
            pings: Pings::new(ping_window),
            handshakes: Handshakes::new(),
            sync_handler: SyncHandler::new(sync_node),
            connections: AddrMap::new(),
        }
    }

    /// Whether a new inbound connection may proceed: the acceptor
    /// drops the stream when the book is full.
    pub fn should_accept_connection(&self) -> (r: bool)
        ensures
            r == (self.peer_book.connected.spec_len() < self.peer_book.max_peers),
    {
        self.peer_book.connected_total() < self.peer_book.max_peers
    }

    /// Adopts the address a peer observed for us, forgetting any book
    /// entry under it; a no-op when it is what we already advertise.
    pub fn discover_local_address(&mut self, receiver_address: &PeerAddress) -> (changed: bool)
        requires
            old(self).wf(),
            receiver_address.wf(),
        ensures
            final(self).wf(),
            changed == (old(self).local_address@ != receiver_address@),
            changed ==> {
                &&& final(self).local_address@ == receiver_address@
                &&& final(self).peer_book.connected@ == old(self).peer_book.connected@.remove(
                    receiver_address@)
                &&& final(self).peer_book.gossiped@ == old(self).peer_book.gossiped@.remove(
                    receiver_address@)
                &&& final(self).peer_book.disconnected@ == old(
                    self).peer_book.disconnected@.remove(receiver_address@)
            },
            !changed ==> *final(self) == *old(self),
            final(self).sync_handler == old(self).sync_handler,
            final(self).connections == old(self).connections,
    {
        if !self.local_address.same(receiver_address) {
            self.local_address = receiver_address.duplicate();
            self.peer_book.forget_peer(receiver_address);
            true
        } else {
            false
        }
    }

    /// Adopts `peer` as sync node and requests its chain state, when
    /// it is ahead of us and no sync is in flight.
    pub fn consider_sync_node(&mut self, peer: &PeerAddress, their_height: u32, our_height: u32,
        locator: Vec<Vec<u8>>) -> (r: Option<Action>)
        requires
            old(self).wf(),
            peer.wf(),
            wf_msg(MessageV::GetSync { locator: locator@.map_values(|h: Vec<u8>| h@) }),
        ensures
            final(self).wf(),
            final(self).peer_book == old(self).peer_book,
            final(self).pings == old(self).pings,
            final(self).handshakes == old(self).handshakes,
            final(self).connections == old(self).connections,
            final(self).local_address == old(self).local_address,
            if their_height > our_height && !(old(self).sync_handler.sync_state is Syncing) {
                &&& final(self).sync_handler.sync_node@ == peer@
                &&& final(self).sync_handler.sync_state == old(self).sync_handler.sync_state
                &&& final(self).sync_handler.remaining() == old(self).sync_handler.remaining()
                &&& r matches Some(a) && a@ == (ActionV::Send {
                    to: peer@,
                    message: MessageV::GetSync {
                        locator: locator@.map_values(|h: Vec<u8>| h@),
                    },
                })
            } else {
                r is None && final(self).sync_handler == old(self).sync_handler
            },
    {
        if their_height > our_height && !self.sync_handler.is_syncing() {
            self.sync_handler.set_sync_node(peer);
            let to = peer.duplicate();
            Some(Action::Send { to, message: Message::GetSync { locator } })
        } else {
            None
        }
    }

    /// Records a live channel for `a`.
    pub fn store_connection(&mut self, a: &PeerAddress)
        requires
            old(self).wf(),
            a.wf(),
        ensures
            final(self).wf(),
            final(self).connections@ == old(self).connections@.insert(a@, true),
            final(self).peer_book == old(self).peer_book,
            final(self).pings == old(self).pings,
            final(self).handshakes == old(self).handshakes,
            final(self).sync_handler == old(self).sync_handler,
            final(self).local_address == old(self).local_address,
    {
        self.connections.put(a, true);
    }

    /// Drops the channel record of `a`.
    pub fn close_connection(&mut self, a: &PeerAddress)
        requires
            old(self).wf(),
        ensures
            final(self).wf(),
            final(self).connections@ == old(self).connections@.remove(a@),
            final(self).peer_book == old(self).peer_book,
            final(self).pings == old(self).pings,
            final(self).handshakes == old(self).handshakes,
            final(self).sync_handler == old(self).sync_handler,
            final(self).local_address == old(self).local_address,
    {
        let _ = self.connections.take_out(a);
    }

    /// Whether a live channel is recorded for `a`.
    pub fn has_connection(&self, a: &PeerAddress) -> (r: bool)
        ensures
            r == self.connections@.contains_key(a@),
    {
        self.connections.has(a)
    }

    /// The pending sync hashes not yet cleared, for the caller to hold
    /// against storage.
    pub fn pending_remaining(&self) -> (r: Vec<Vec<u8>>)
        requires
            self.wf(),
        ensures
            r@.map_values(|h: Vec<u8>| h@) == self.sync_handler.remaining(),
    {
        let n = self.sync_handler.pending_hashes.len();
        let c = self.sync_handler.cursor;
        let mut r: Vec<Vec<u8>> = Vec::new();
        let mut j: usize = c;
        while j < n
            invariant
                c <= j <= n,
                n == self.sync_handler.pending_hashes@.len(),
                c == self.sync_handler.cursor,
                forall|k: int| 0 <= k < r@.len() ==> (#[trigger] r@[k])@
                    == self.sync_handler.pending_hashes@[c + k]@,
                r@.len() == j - c,
            decreases n - j,
        {
            r.push(crate::bytes::dup_bytes(&self.sync_handler.pending_hashes[j]));
            j = j + 1;
        }
        proof {
            assert(r@.map_values(|h: Vec<u8>| h@) =~= self.sync_handler.remaining());
        }
        r
    }

    /// Opens an outbound handshake: records the nonce to be echoed and
    /// hands back the version message to send to `to`.
    pub fn send_handshake(&mut self, to: &PeerAddress, our_height: u32, our_nonce: u64,
        now: i64) -> (r: Message)
        requires
            old(self).wf(),
            to.wf(),
        ensures
            final(self).wf(),
            final(self).handshakes.entries@ == old(self).handshakes.entries@.insert(to@,
                HandshakeRecord { nonce: our_nonce, state: HandshakeState::AwaitingVerack }),
            final(self).peer_book == old(self).peer_book,
            final(self).pings == old(self).pings,
            final(self).sync_handler == old(self).sync_handler,
            final(self).connections == old(self).connections,
            final(self).local_address == old(self).local_address,
            r@ == (MessageV::Version {
                version: PROTOCOL_VERSION as u64,
                height: our_height,
                nonce: our_nonce,
                timestamp: now,
                address_receiver: to@,
                address_sender: old(self).local_address@,
            }),
    {
        let local = self.local_address.duplicate();
        self.handshakes.send_request(PROTOCOL_VERSION, our_height, &local, to, our_nonce, now)
    }

    /// Plans the first contact with the network: a handshake to the
    /// first bootnode (unless it is ourselves), the rest gossiped.
    pub fn connect_bootnodes(&mut self, now: i64) -> (acts: Vec<Action>)
        requires
            old(self).wf(),
        ensures
            final(self).wf(),
            final(self).pings == old(self).pings,
            final(self).handshakes == old(self).handshakes,
            final(self).sync_handler == old(self).sync_handler,
            final(self).connections == old(self).connections,
            final(self).local_address == old(self).local_address,
            final(self).peer_book.connected == old(self).peer_book.connected,
            final(self).peer_book.max_peers == old(self).peer_book.max_peers,
            (final(self).peer_book.gossiped@, final(self).peer_book.disconnected@)
                == boot_gossip_fold(old(self).peer_book.connected@, old(self).peer_book.gossiped@,
                old(self).peer_book.disconnected@, (if old(self).bootnodes@.len() == 0 {
                Seq::<AddrV>::empty()
            } else {
                old(self).bootnodes@.map_values(|b: PeerAddress| b@).skip(1)
            }), now),
            forall|k: int| 0 <= k < acts@.len() ==> ({
                &&& (#[trigger] acts@[k]) matches Action::DialHandshake { to }
                &&& to@ == old(self).bootnodes@[0]@
            }),
            acts@.len() == (if old(self).bootnodes@.len() > 0 && old(self).bootnodes@[0]@ != old(
                self).local_address@ {
                1int
            } else {
                0int
            }),
    {
        let ghost bs = self.bootnodes@.map_values(|b: PeerAddress| b@);
        let mut acts: Vec<Action> = Vec::new();
        let n = self.bootnodes.len();
        let mut j: usize = 0;
        while j < n
            invariant
                j <= n,
                n == self.bootnodes@.len(),
                bs == self.bootnodes@.map_values(|b: PeerAddress| b@),
                self.wf(),
                self.bootnodes == old(self).bootnodes,
                self.local_address == old(self).local_address,
                self.pings == old(self).pings,
                self.handshakes == old(self).handshakes,
                self.sync_handler == old(self).sync_handler,
                self.connections == old(self).connections,
                self.peer_book.connected == old(self).peer_book.connected,
                self.peer_book.max_peers == old(self).peer_book.max_peers,
                j == 0 ==> self.peer_book == old(self).peer_book,
                j >= 1 ==> (self.peer_book.gossiped@, self.peer_book.disconnected@)
                    == boot_gossip_fold(old(self).peer_book.connected@,
                    old(self).peer_book.gossiped@, old(self).peer_book.disconnected@,
                    bs.subrange(1, j as int), now),
                forall|k: int| 0 <= k < acts@.len() ==> ({
                    &&& (#[trigger] acts@[k]) matches Action::DialHandshake { to }
                    &&& to@ == old(self).bootnodes@[0]@
                }),
                acts@.len() == (if j > 0 && old(self).bootnodes@[0]@ != old(
                    self).local_address@ {
                    1int
                } else {
                    0int
                }),
            decreases n - j,
        {
            if j == 0 {
                if !self.local_address.same(&self.bootnodes[0]) {
                    let to = self.bootnodes[0].duplicate();
                    acts.push(Action::DialHandshake { to });
                }
                proof {
                    assert(bs.subrange(1, 1) =~= Seq::<AddrV>::empty());
                }
            } else {
                proof {
                    assert(bs.subrange(1, j + 1).drop_last() =~= bs.subrange(1, j as int));
                    assert(bs.subrange(1, j + 1).last() == bs[j as int]);
                    assert(bs[j as int] == self.bootnodes@[j as int]@);
                    assert((#[trigger] self.bootnodes@[j as int]).wf());
                }
                let b = self.bootnodes[j].duplicate();
                self.peer_book.update_gossiped(&b, now);
            }
            j = j + 1;
        }
        proof {
            if n >= 1 {
                assert(bs.subrange(1, n as int) =~= bs.skip(1));
            }
        }
        acts
    }

    /// Plans a redial of every stored peer.
    pub fn connect_stored_peers(&mut self, stored: &Vec<(PeerAddress, i64)>) -> (acts: Vec<
        Action,
    >)
        requires
            old(self).wf(),
            forall|k: int| 0 <= k < stored@.len() ==> wf_addr((#[trigger] stored@[k]).0@),
        ensures
            final(self).wf(),
            *final(self) == *old(self),
            acts@.len() == (if old(self).is_bootnode {
                0int
            } else {
                stored@.len() as int
            }),
            forall|k: int| 0 <= k < acts@.len() ==> ({
                &&& (#[trigger] acts@[k]) matches Action::DialHandshake { to }
                &&& to@ == stored@[k].0@
            }),
    {
        let mut acts: Vec<Action> = Vec::new();
        if self.is_bootnode {
            return acts;
        }
        let n = stored.len();
        let mut j: usize = 0;
        while j < n
            invariant
                j <= n,
                n == stored@.len(),
                acts@.len() == j,
                forall|k: int| 0 <= k < j ==> ({
                    &&& (#[trigger] acts@[k]) matches Action::DialHandshake { to }
                    &&& to@ == stored@[k].0@
                }),
            decreases n - j,
        {
            let to = stored[j].0.duplicate();
            acts.push(Action::DialHandshake { to });
            j = j + 1;
        }
        acts
    }
}

impl Node {
    /// A ping refreshes a connected sender and is answered with a
    /// pong echoing its nonce.
    pub fn receive_ping(&mut self, source: &PeerAddress, nonce: u64, now: i64) -> (acts: Vec<
        Action,
    >)
        requires
            old(self).wf(),
            source.wf(),
        ensures
            final(self).wf(),
            if old(self).peer_book.connected@.contains_key(source@) {
                touched_book(old(self).peer_book, final(self).peer_book, source@, now)
            } else {
                final(self).peer_book == old(self).peer_book
            },
            final(self).pings == old(self).pings,
            final(self).handshakes == old(self).handshakes,
            final(self).sync_handler == old(self).sync_handler,
            final(self).connections == old(self).connections,
            final(self).local_address == old(self).local_address,
            acts_view(acts@) == seq![ActionV::Send {
                to: source@,
                message: MessageV::Pong { nonce },
            }],
    {
        if self.peer_book.connected_contains(source) {
            let _ = self.peer_book.update_connected(source, now);
        }
        let mut acts: Vec<Action> = Vec::new();
        let to = source.duplicate();
        acts.push(Action::Send { to, message: Pings::make_pong(nonce) });
        proof {
            assert(acts_view(acts@) =~= seq![ActionV::Send {
                to: source@,
                message: MessageV::Pong { nonce },
            }]);
        }
        acts
    }

    /// A pong is held against the pending ping of its sender: on a
    /// match within the window the ping is consumed and the sender
    /// refreshed, otherwise nothing changes.
    pub fn receive_pong(&mut self, source: &PeerAddress, nonce: u64, now: i64) -> (acts: Vec<
        Action,
    >)
        requires
            old(self).wf(),
            source.wf(),
        ensures
            final(self).wf(),
            ({
                let accepted = {
                    &&& old(self).pings.entries@.contains_key(source@)
                    &&& old(self).pings.entries@[source@].0 == nonce
                    &&& now - old(self).pings.entries@[source@].1 <= old(self).pings.window
                };
                if accepted {
                    &&& final(self).pings.entries@ == old(self).pings.entries@.remove(source@)
                    &&& touched_book(old(self).peer_book, final(self).peer_book, source@, now)
                } else {
                    &&& final(self).pings == old(self).pings
                    &&& final(self).peer_book == old(self).peer_book
                }
            }),
            final(self).handshakes == old(self).handshakes,
            final(self).sync_handler == old(self).sync_handler,
            final(self).connections == old(self).connections,
            final(self).local_address == old(self).local_address,
            acts@.len() == 0,
    {
        match self.pings.accept_pong(source, nonce, now) {
            Ok(()) => {
                let _ = self.peer_book.update_connected(source, now);
            }
            Err(PingError::UnexpectedPong) => {}
        }
        Vec::new()
    }

    /// A verack completes the pending handshake that its nonce
    /// echoes: the sender becomes a connected peer and is asked for
    /// its peer list. A verack that matches nothing changes nothing.
    pub fn receive_verack(&mut self, source: &PeerAddress, nonce: u64, now: i64) -> (acts: Vec<
        Action,
    >)
        requires
            old(self).wf(),
            source.wf(),
        ensures
            final(self).wf(),
            ({
                let matched = {
                    &&& old(self).handshakes.entries@.contains_key(source@)
                    &&& old(self).handshakes.entries@[source@].nonce == nonce
                };
                if matched {
                    &&& final(self).handshakes.entries@ == old(self).handshakes.entries@.insert(
                        source@, HandshakeRecord {
                            nonce,
                            state: HandshakeState::Completed,
                        })
                    &&& touched_book(old(self).peer_book, final(self).peer_book, source@, now)
                    &&& acts_view(acts@) == seq![ActionV::Send {
                        to: source@,
                        message: MessageV::GetPeers,
                    }]
                } else {
                    &&& final(self).handshakes == old(self).handshakes
                    &&& final(self).peer_book == old(self).peer_book
                    &&& acts@.len() == 0
                }
            }),
            final(self).pings == old(self).pings,
            final(self).sync_handler == old(self).sync_handler,
            final(self).connections == old(self).connections,
            final(self).local_address == old(self).local_address,
    {
        let mut acts: Vec<Action> = Vec::new();
        match self.handshakes.accept_response(source, nonce) {
            Ok(()) => {
                let _ = self.peer_book.update_connected(source, now);
                let to = source.duplicate();
                acts.push(Action::Send { to, message: Message::GetPeers });
                proof {
                    assert(acts_view(acts@) =~= seq![ActionV::Send {
                        to: source@,
                        message: MessageV::GetPeers,
                    }]);
                }
            }
            Err(_) => {}
        }
        acts
    }

    /// A peer-list request is answered with our connected peers,
    /// without the requester itself.
    pub fn receive_get_peers(&self, source: &PeerAddress) -> (acts: Vec<Action>)
        requires
            self.wf(),
            source.wf(),
        ensures
            acts@.len() == 1,
            ({
                &&& acts@[0]@ matches ActionV::Send { to, message }
                &&& to == source@
                &&& message matches MessageV::Peers { addresses }
                &&& entries_map(addresses) == self.peer_book.connected@.remove(
                    source@)
                &&& distinct_keys(addresses)
                &&& wf_msg(message)
            }),
    {
        let reply = self.peer_book.connected_without(source);
        let ghost al = reply.seq_view();
        let m = Message::Peers { addresses: reply.entries };
        proof {
            crate::codec::lemma_peers_len(al);
            assert(al.len() <= self.peer_book.connected.spec_len());
            assert(forall|k: int| 0 <= k < al.len() ==> wf_addr((#[trigger] al[k]).0));
            assert(wf_msg(m@));
        }
        let to = source.duplicate();
        let mut acts: Vec<Action> = Vec::new();
        acts.push(Action::Send { to, message: m });
        acts
    }

    /// Learned addresses are merged into the book: our own address is
    /// skipped, connected peers are refreshed, anyone else is
    /// gossiped; then the sender itself is refreshed.
    pub fn receive_peers(&mut self, source: &PeerAddress, addresses: Vec<(PeerAddress, i64)>,
        now: i64) -> (acts: Vec<Action>)
        requires
            old(self).wf(),
            source.wf(),
            forall|k: int| 0 <= k < addresses@.len() ==> wf_addr((#[trigger] addresses@[k]).0@),
        ensures
            final(self).wf(),
            ({
                let entries = addresses@.map_values(|p: (PeerAddress, i64)| (p.0@, p.1));
                let m = merge_fold((old(self).peer_book.connected@, old(
                    self).peer_book.gossiped@, old(self).peer_book.disconnected@), entries, old(
                    self).local_address@);
                let accepted = m.0.contains_key(source@) || old(
                    self).peer_book.connected.spec_len() < old(self).peer_book.max_peers;
                if accepted {
                    &&& final(self).peer_book.connected@ == m.0.insert(source@, now)
                    &&& final(self).peer_book.gossiped@ == m.1.remove(source@)
                    &&& final(self).peer_book.disconnected@ == m.2.remove(source@)
                } else {
                    &&& final(self).peer_book.connected@ == m.0
                    &&& final(self).peer_book.gossiped@ == m.1
                    &&& final(self).peer_book.disconnected@ == m.2
                }
            }),
            final(self).peer_book.max_peers == old(self).peer_book.max_peers,
            final(self).pings == old(self).pings,
            final(self).handshakes == old(self).handshakes,
            final(self).sync_handler == old(self).sync_handler,
            final(self).connections == old(self).connections,
            final(self).local_address == old(self).local_address,
            acts@.len() == 0,
    {
        let ghost entries = addresses@.map_values(|p: (PeerAddress, i64)| (p.0@, p.1));
        let ghost t0 = (old(self).peer_book.connected@, old(self).peer_book.gossiped@, old(
            self).peer_book.disconnected@);
        let n = addresses.len();
        let mut j: usize = 0;
        while j < n
            invariant
                j <= n,
                n == addresses@.len(),
                entries == addresses@.map_values(|p: (PeerAddress, i64)| (p.0@, p.1)),
                forall|k: int| 0 <= k < n ==> wf_addr((#[trigger] addresses@[k]).0@),
                self.wf(),
                self.local_address == old(self).local_address,
                self.pings == old(self).pings,
                self.handshakes == old(self).handshakes,
                self.sync_handler == old(self).sync_handler,
                self.connections == old(self).connections,
                self.peer_book.max_peers == old(self).peer_book.max_peers,
                self.peer_book.connected.spec_len() == old(self).peer_book.connected.spec_len(),
                (self.peer_book.connected@, self.peer_book.gossiped@,
                    self.peer_book.disconnected@) == merge_fold(t0, entries.take(j as int), old(
                    self).local_address@),
            decreases n - j,
        {
            proof {
                assert(entries.take(j + 1).drop_last() =~= entries.take(j as int));
                assert(entries.take(j + 1).last() == entries[j as int]);
                assert(entries[j as int] == (addresses@[j as int].0@, addresses@[j as int].1));
            }
            let addr = &addresses[j].0;
            let ts = addresses[j].1;
            if self.local_address.same(addr) {
            } else if self.peer_book.connected_contains(addr) {
                let _ = self.peer_book.update_connected(addr, ts);
            } else {
                self.peer_book.update_gossiped(addr, ts);
            }
            j = j + 1;
        }
        proof {
            assert(entries.take(n as int) =~= entries);
        }
        let _ = self.peer_book.update_connected(source, now);
        Vec::new()
    }

    /// A block request is answered with the stored block, or silence.
    pub fn receive_get_block(&self, source: &PeerAddress, block: Option<Vec<u8>>) -> (acts: Vec<
        Action,
    >)
        requires
            self.wf(),
            source.wf(),
            block matches Some(d) ==> d@.len() < 0xFFFF_FFF0,
        ensures
            match block {
                Some(d) => acts_view(acts@) == seq![ActionV::Send {
                    to: source@,
                    message: MessageV::SyncBlock { data: d@ },
                }],
                None => acts@.len() == 0,
            },
    {
        let mut acts: Vec<Action> = Vec::new();
        match block {
            Some(data) => {
                let ghost dv = data@;
                let m = Message::SyncBlock { data };
                let to = source.duplicate();
                acts.push(Action::Send { to, message: m });
                proof {
                    assert(acts_view(acts@) =~= seq![ActionV::Send {
                        to: source@,
                        message: MessageV::SyncBlock { data: dv },
                    }]);
                }
            }
            None => {}
        }
        acts
    }

    /// A sync request is answered with the hashes of the computed
    /// span; an empty answer says we have nothing newer.
    pub fn receive_get_sync(&self, source: &PeerAddress, hashes: Vec<Vec<u8>>) -> (acts: Vec<
        Action,
    >)
        requires
            self.wf(),
            source.wf(),
            wf_msg(MessageV::Sync { hashes: hashes@.map_values(|h: Vec<u8>| h@) }),
        ensures
            acts_view(acts@) == seq![ActionV::Send {
                to: source@,
                message: MessageV::Sync { hashes: hashes@.map_values(|h: Vec<u8>| h@) },
            }],
    {
        let ghost hv = hashes@.map_values(|h: Vec<u8>| h@);
        let m = Message::Sync { hashes };
        let to = source.duplicate();
        let mut acts: Vec<Action> = Vec::new();
        acts.push(Action::Send { to, message: m });
        proof {
            assert(acts_view(acts@) =~= seq![ActionV::Send {
                to: source@,
                message: MessageV::Sync { hashes: hv },
            }]);
        }
        acts
    }

    /// A pool request is answered with the pooled transactions, or
    /// silence when the pool is empty.
    pub fn receive_get_memory_pool(&self, source: &PeerAddress, transactions: Vec<Vec<u8>>) -> (
        acts: Vec<Action>)
        requires
            self.wf(),
            source.wf(),
            wf_msg(MessageV::MemoryPool {
                transactions: transactions@.map_values(|t: Vec<u8>| t@),
            }),
        ensures
            transactions@.len() > 0 ==> acts_view(acts@) == seq![ActionV::Send {
                to: source@,
                message: MessageV::MemoryPool {
                    transactions: transactions@.map_values(|t: Vec<u8>| t@),
                },
            }],
            transactions@.len() == 0 ==> acts@.len() == 0,
    {
        let mut acts: Vec<Action> = Vec::new();
        if transactions.len() > 0 {
            let ghost tv = transactions@.map_values(|t: Vec<u8>| t@);
            let m = Message::MemoryPool { transactions };
            let to = source.duplicate();
            acts.push(Action::Send { to, message: m });
            proof {
                assert(acts_view(acts@) =~= seq![ActionV::Send {
                    to: source@,
                    message: MessageV::MemoryPool { transactions: tv },
                }]);
            }
        }
        acts
    }

    /// Pooled transactions a peer offered are each handed to the
    /// mempool for validation and insertion.
    pub fn receive_memory_pool(&self, transactions: Vec<Vec<u8>>) -> (acts: Vec<Action>)
        ensures
            acts@.len() == transactions@.len(),
            forall|k: int| 0 <= k < acts@.len() ==> (#[trigger] acts@[k]@) == (
            ActionV::SubmitTransaction { data: transactions@[k]@ }),
    {
        let n = transactions.len();
        let mut acts: Vec<Action> = Vec::new();
        let mut j: usize = 0;
        while j < n
            invariant
                j <= n,
                n == transactions@.len(),
                acts@.len() == j,
                forall|k: int| 0 <= k < j ==> (#[trigger] acts@[k]@) == (
                ActionV::SubmitTransaction { data: transactions@[k]@ }),
            decreases n - j,
        {
            let data = crate::bytes::dup_bytes(&transactions[j]);
            acts.push(Action::SubmitTransaction { data });
            j = j + 1;
        }
        acts
    }

    /// A transaction the mempool took is propagated to every
    /// connected peer but its sender; a refused one goes nowhere.
    pub fn receive_transaction(&self, source: &PeerAddress, data: Vec<u8>, inserted: bool) -> (
        acts: Vec<Action>)
        requires
            self.wf(),
            source.wf(),
            wf_msg(MessageV::Transaction { data: data@ }),
        ensures
            inserted ==> acts_view(acts@) == fanout_actions(self.peer_book.connected.seq_view(),
                source@, MessageV::Transaction { data: data@ }),
            !inserted ==> acts@.len() == 0,
    {
        let mut acts: Vec<Action> = Vec::new();
        if inserted {
            let m = Message::Transaction { data };
            let conn = self.peer_book.get_connected();
            fanout(&conn, source, &m, &mut acts);
            proof {
                assert(acts_view(acts@) =~= fanout_actions(self.peer_book.connected.seq_view(),
                    source@, m@));
            }
        }
        acts
    }

    /// A synthetic disconnect: the peer moves from connected to
    /// disconnected and its channel is closed.
    pub fn handle_disconnect(&mut self, source: &PeerAddress, now: i64) -> (acts: Vec<Action>)
        requires
            old(self).wf(),
            source.wf(),
        ensures
            final(self).wf(),
            if old(self).peer_book.connected@.contains_key(source@) {
                &&& final(self).peer_book.connected@ == old(self).peer_book.connected@.remove(
                    source@)
                &&& final(self).peer_book.gossiped@ == old(self).peer_book.gossiped@
                &&& final(self).peer_book.disconnected@ == old(
                    self).peer_book.disconnected@.insert(source@, now)
            } else {
                final(self).peer_book == old(self).peer_book
            },
            final(self).connections@ == old(self).connections@.remove(source@),
            final(self).pings == old(self).pings,
            final(self).handshakes == old(self).handshakes,
            final(self).sync_handler == old(self).sync_handler,
            final(self).local_address == old(self).local_address,
            acts@.len() == 1,
            acts@[0]@ == (ActionV::Disconnect { peer: source@ }),
    {
        let _ = self.peer_book.disconnect_peer(source, now);
        let _ = self.connections.take_out(source);
        let mut acts: Vec<Action> = Vec::new();
        let peer = source.duplicate();
        acts.push(Action::Disconnect { peer });
        acts
    }
}

impl Node {
    /// A version message: the peer (re-)introduces itself. Unless the
    /// book is full or the sender claims our own address, a handshake
    /// entry is recorded and answered with a verack and our own
    /// version; a peer ahead of an idle sync handler becomes the sync
    /// node and is asked for its chain state. The channel address is
    /// updated to the sender's advertised port.
    pub fn receive_version(&mut self, source: &PeerAddress, height: u32, nonce: u64,
        address_sender: &PeerAddress, local_height: u32, locator: Vec<Vec<u8>>, our_nonce: u64,
        now: i64) -> (r: (PeerAddress, Vec<Action>))
        requires
            old(self).wf(),
            source.wf(),
            address_sender.wf(),
            wf_msg(MessageV::GetSync { locator: locator@.map_values(|h: Vec<u8>| h@) }),
        ensures
            final(self).wf(),
            version_outcome(*old(self), *final(self), source@, height, nonce,
                address_sender@.port, locator@.map_values(|h: Vec<u8>| h@), our_nonce,
                local_height, now, r.0@, acts_view(r.1@)),
    {
        let peer = source.with_port(address_sender.port);
        let mut acts: Vec<Action> = Vec::new();
        let under_cap = self.peer_book.connected_total() < self.peer_book.max_peers;
        let known = self.peer_book.connected_contains(&peer);
        let is_self = self.local_address.same(&peer);
        if (under_cap || known) && !is_self {
            let ghost peerv = peer@;
            let local = self.local_address.duplicate();
            let (verack, our_version) = self.handshakes.receive_request(nonce, &peer,
                PROTOCOL_VERSION, local_height, &local, our_nonce, now);
            let ghost verackv = verack@;
            let ghost versionv = our_version@;
            let to1 = peer.duplicate();
            let to2 = peer.duplicate();
            acts.push(Action::Send { to: to1, message: verack });
            acts.push(Action::Send { to: to2, message: our_version });
            match self.consider_sync_node(&peer, height, local_height, locator) {
                Some(a) => {
                    let ghost av = a@;
                    acts.push(a);
                    proof {
                        assert(acts_view(acts@) =~= seq![ActionV::Send {
                            to: peerv,
                            message: verackv,
                        }, ActionV::Send { to: peerv, message: versionv }, av]);
                    }
                }
                None => {
                    proof {
                        assert(acts_view(acts@) =~= seq![ActionV::Send {
                            to: peerv,
                            message: verackv,
                        }, ActionV::Send { to: peerv, message: versionv }]);
                    }
                }
            }
        }
        (peer, acts)
    }

    /// A received block. One already stored is dropped. Otherwise the
    /// caller has offered it to consensus: pending sync hashes now in
    /// storage are cleared; a freshly inserted block that may
    /// propagate is fanned out to every connected peer but its
    /// sender; a sync-answer block pulls the next pending hash from
    /// the sync node — but only when the sync node itself sent it, so
    /// no other peer can drive the pull by withholding propagation.
    pub fn receive_block_message(&mut self, source: &PeerAddress, data: Vec<u8>,
        propagate: bool, hash_known: bool, inserted: bool, pending_in_storage: &Vec<bool>) -> (
        acts: Vec<Action>)
        requires
            old(self).wf(),
            source.wf(),
            wf_msg(MessageV::Block { data: data@ }),
            pending_in_storage@.len() == old(self).sync_handler.remaining().len(),
        ensures
            final(self).wf(),
            block_outcome(*old(self), *final(self), source@, data@, propagate, hash_known,
                inserted, pending_in_storage@, acts_view(acts@)),
    {
        let mut acts: Vec<Action> = Vec::new();
        if hash_known {
            return acts;
        }
        self.sync_handler.clear_pending(pending_in_storage);
        if inserted && propagate {
            let m = Message::Block { data };
            let conn = self.peer_book.get_connected();
            fanout(&conn, source, &m, &mut acts);
            proof {
                assert(acts_view(acts@) =~= fanout_actions(
                    old(self).peer_book.connected.seq_view(), source@, MessageV::Block {
                    data: data@,
                }));
            }
        } else if !propagate {
            if self.sync_handler.is_syncing() {
                let sn = self.sync_handler.sync_node.duplicate();
                if self.has_connection(&sn) && source.same(&sn) {
                    match self.sync_handler.increment() {
                        Some(h) => {
                            let ghost hv = h@;
                            acts.push(Action::Send { to: sn, message: Message::GetBlock {
                                hash: h,
                            } });
                            proof {
                                assert(acts_view(acts@) =~= seq![ActionV::Send {
                                    to: old(self).sync_handler.sync_node@,
                                    message: MessageV::GetBlock { hash: hv },
                                }]);
                            }
                        }
                        None => {}
                    }
                }
            }
        }
        acts
    }

    /// A sync answer: its hashes feed the sync handler, and the next
    /// missing block is requested from the sync node at once.
    pub fn receive_sync(&mut self, hashes: Vec<Vec<u8>>, in_storage: &Vec<bool>) -> (acts: Vec<
        Action,
    >)
        requires
            old(self).wf(),
            in_storage@.len() == hashes@.len(),
            forall|k: int| 0 <= k < hashes@.len() ==> (#[trigger] hashes@[k])@.len() == HASH_LEN,
        ensures
            final(self).wf(),
            sync_outcome(*old(self), *final(self), hashes@.map_values(|h: Vec<u8>| h@),
                in_storage@, acts_view(acts@)),
    {
        self.sync_handler.receive_hashes(hashes, in_storage);
        let mut acts: Vec<Action> = Vec::new();
        let sn = self.sync_handler.sync_node.duplicate();
        if self.has_connection(&sn) {
            match self.sync_handler.increment() {
                Some(h) => {
                    let ghost hv = h@;
                    acts.push(Action::Send { to: sn, message: Message::GetBlock { hash: h } });
                    proof {
                        assert(acts_view(acts@) =~= seq![ActionV::Send {
                            to: old(self).sync_handler.sync_node@,
                            message: MessageV::GetBlock { hash: hv },
                        }]);
                    }
                }
                None => {}
            }
        }
        acts
    }
}

/// What handling a version message leaves behind.
pub open spec fn version_outcome(pre: Node, post: Node, source: AddrV, height: u32, nonce: u64,
    sender_port: u16, locator: Seq<Seq<u8>>, our_nonce: u64, local_height: u32, now: i64,
    peer_out: AddrV, acts: Seq<ActionV>) -> bool {
    let peer = AddrV { v6: source.v6, octets: source.octets, port: sender_port };
    let gate = (pre.peer_book.connected.spec_len() < pre.peer_book.max_peers
        || pre.peer_book.connected@.contains_key(peer)) && pre.local_address@ != peer;
    let adopt = height > local_height && !(pre.sync_handler.sync_state is Syncing);
    let verack = ActionV::Send { to: peer, message: MessageV::Verack { nonce } };
    let our_version = ActionV::Send {
        to: peer,
        message: MessageV::Version {
            version: PROTOCOL_VERSION as u64,
            height: local_height,
            nonce: our_nonce,
            timestamp: now,
            address_receiver: peer,
            address_sender: pre.local_address@,
        },
    };
    let get_sync = ActionV::Send { to: peer, message: MessageV::GetSync { locator } };
    &&& peer_out == peer
    &&& post.peer_book == pre.peer_book
    &&& post.pings == pre.pings
    &&& post.connections == pre.connections
    &&& post.local_address == pre.local_address
    &&& if gate {
        &&& post.handshakes.entries@ == pre.handshakes.entries@.insert(peer,
            crate::handshake::HandshakeRecord {
                nonce: our_nonce,
                state: crate::handshake::HandshakeState::AwaitingVerack,
            })
        &&& if adopt {
            &&& post.sync_handler.sync_node@ == peer
            &&& post.sync_handler.sync_state == pre.sync_handler.sync_state
            &&& post.sync_handler.remaining() == pre.sync_handler.remaining()
            &&& acts == seq![verack, our_version, get_sync]
        } else {
            &&& post.sync_handler == pre.sync_handler
            &&& acts == seq![verack, our_version]
        }
    } else {
        &&& post.handshakes == pre.handshakes
        &&& post.sync_handler == pre.sync_handler
        &&& acts.len() == 0
    }
}

/// What handling a received block leaves behind.
pub open spec fn block_outcome(pre: Node, post: Node, source: AddrV, data: Seq<u8>,
    propagate: bool, hash_known: bool, inserted: bool, pending_in_storage: Seq<bool>,
    acts: Seq<ActionV>) -> bool {
    if hash_known {
        post == pre && acts.len() == 0
    } else {
        let cleared = crate::sync::missing_hashes(pre.sync_handler.remaining(),
            pending_in_storage);
        let cstate = if cleared.len() == 0 {
            SyncState::Idle
        } else {
            pre.sync_handler.sync_state
        };
        &&& post.peer_book == pre.peer_book
        &&& post.pings == pre.pings
        &&& post.handshakes == pre.handshakes
        &&& post.connections == pre.connections
        &&& post.local_address == pre.local_address
        &&& post.sync_handler.sync_node@ == pre.sync_handler.sync_node@
        &&& if inserted && propagate {
            &&& post.sync_handler.remaining() == cleared
            &&& post.sync_handler.sync_state == cstate
            &&& acts == fanout_actions(pre.peer_book.connected.seq_view(), source,
                MessageV::Block { data })
        } else if !propagate && cstate is Syncing && pre.connections@.contains_key(
            pre.sync_handler.sync_node@) && source == pre.sync_handler.sync_node@ {
            &&& acts == seq![ActionV::Send {
                to: pre.sync_handler.sync_node@,
                message: MessageV::GetBlock { hash: cleared[0] },
            }]
            &&& post.sync_handler.remaining() == cleared.drop_first()
            &&& post.sync_handler.sync_state == cstate
        } else {
            &&& post.sync_handler.remaining() == cleared
            &&& post.sync_handler.sync_state == cstate
            &&& acts.len() == 0
        }
    }
}

/// What handling a sync answer leaves behind.
pub open spec fn sync_outcome(pre: Node, post: Node, hashes: Seq<Seq<u8>>,
    in_storage: Seq<bool>, acts: Seq<ActionV>) -> bool {
    let got = crate::sync::missing_hashes(hashes, in_storage);
    let st1 = if got.len() > 0 {
        SyncState::Syncing
    } else {
        pre.sync_handler.sync_state
    };
    &&& post.peer_book == pre.peer_book
    &&& post.pings == pre.pings
    &&& post.handshakes == pre.handshakes
    &&& post.connections == pre.connections
    &&& post.local_address == pre.local_address
    &&& post.sync_handler.sync_node@ == pre.sync_handler.sync_node@
    &&& if pre.connections@.contains_key(pre.sync_handler.sync_node@) {
        if got.len() > 0 {
            &&& acts == seq![ActionV::Send {
                to: pre.sync_handler.sync_node@,
                message: MessageV::GetBlock { hash: got[0] },
            }]
            &&& post.sync_handler.remaining() == got.drop_first()
            &&& post.sync_handler.sync_state == st1
        } else {
            &&& acts.len() == 0
            &&& post.sync_handler.remaining().len() == 0
            &&& post.sync_handler.sync_state is Idle
        }
    } else {
        &&& acts.len() == 0
        &&& post.sync_handler.remaining() == got
        &&& post.sync_handler.sync_state == st1
    }
}

/// Whether `facts` carries the storage and consensus answers that
/// handling `msg` needs.
pub open spec fn facts_match(node: &Node, msg: &Message, facts: &Facts) -> bool {
    match (msg, facts) {
        (Message::Version { .. }, Facts::Chain { locator, .. }) => wf_msg(MessageV::GetSync {
            locator: locator@.map_values(|h: Vec<u8>| h@),
        }),
        (Message::Verack { .. }, Facts::Nothing) => true,
        (Message::Ping { .. }, Facts::Nothing) => true,
        (Message::Pong { .. }, Facts::Nothing) => true,
        (Message::GetPeers, Facts::Nothing) => true,
        (Message::Peers { .. }, Facts::Nothing) => true,
        (Message::GetBlock { .. }, Facts::BlockLookup { block }) => (block matches Some(d)
            ==> d@.len() < 0xFFFF_FFF0),
        (Message::Block { .. }, Facts::BlockReceipt { pending_in_storage, .. }) =>
            pending_in_storage@.len() == node.sync_handler.remaining().len(),
        (Message::SyncBlock { .. }, Facts::BlockReceipt { pending_in_storage, .. }) =>
            pending_in_storage@.len() == node.sync_handler.remaining().len(),
        (Message::GetSync { .. }, Facts::SyncReply { hashes }) => wf_msg(MessageV::Sync {
            hashes: hashes@.map_values(|h: Vec<u8>| h@),
        }),
        (Message::Sync { hashes }, Facts::SyncHashes { in_storage }) => in_storage@.len()
            == hashes@.len(),
        (Message::GetMemoryPool, Facts::PoolContents { transactions }) => wf_msg(
            MessageV::MemoryPool { transactions: transactions@.map_values(|t: Vec<u8>| t@) }),
        (Message::MemoryPool { .. }, Facts::Nothing) => true,
        (Message::Transaction { .. }, Facts::TxReceipt { .. }) => true,
        _ => false,
    }
}

/// What one step of the central handler leaves behind, for every
/// message kind: the new state, the actions to perform, and the
/// channel address handed back (changed only by a version message).
pub open spec fn handler_post(pre: Node, post: Node, source: PeerAddress, msg: Message,
    facts: Facts, our_nonce: u64, now: i64, r_addr: PeerAddress, acts: Seq<ActionV>) -> bool {
    match (msg, facts) {
        (Message::Version { height, nonce, address_sender, .. }, Facts::Chain {
            local_height,
            locator,
        }) => version_outcome(pre, post, source@, height, nonce, address_sender@.port,
            locator@.map_values(|h: Vec<u8>| h@), our_nonce, local_height, now, r_addr@, acts),
        (Message::Verack { nonce }, Facts::Nothing) => {
            let matched = pre.handshakes.entries@.contains_key(source@)
                && pre.handshakes.entries@[source@].nonce == nonce;
            &&& r_addr@ == source@
            &&& post.pings == pre.pings
            &&& post.sync_handler == pre.sync_handler
            &&& post.connections == pre.connections
            &&& post.local_address == pre.local_address
            &&& if matched {
                &&& post.handshakes.entries@ == pre.handshakes.entries@.insert(source@,
                    crate::handshake::HandshakeRecord {
                        nonce,
                        state: crate::handshake::HandshakeState::Completed,
                    })
                &&& touched_book(pre.peer_book, post.peer_book, source@, now)
                &&& acts == seq![ActionV::Send { to: source@, message: MessageV::GetPeers }]
            } else {
                &&& post.handshakes == pre.handshakes
                &&& post.peer_book == pre.peer_book
                &&& acts.len() == 0
            }
        },
        (Message::Ping { nonce }, Facts::Nothing) => {
            &&& r_addr@ == source@
            &&& if pre.peer_book.connected@.contains_key(source@) {
                touched_book(pre.peer_book, post.peer_book, source@, now)
            } else {
                post.peer_book == pre.peer_book
            }
            &&& post.pings == pre.pings
            &&& post.handshakes == pre.handshakes
            &&& post.sync_handler == pre.sync_handler
            &&& post.connections == pre.connections
            &&& post.local_address == pre.local_address
            &&& acts == seq![ActionV::Send { to: source@, message: MessageV::Pong { nonce } }]
        },
        (Message::Pong { nonce }, Facts::Nothing) => {
            let accepted = pre.pings.entries@.contains_key(source@)
                && pre.pings.entries@[source@].0 == nonce && now - pre.pings.entries@[source@].1
                <= pre.pings.window;
            &&& r_addr@ == source@
            &&& if accepted {
                &&& post.pings.entries@ == pre.pings.entries@.remove(source@)
                &&& touched_book(pre.peer_book, post.peer_book, source@, now)
            } else {
                &&& post.pings == pre.pings
                &&& post.peer_book == pre.peer_book
            }
            &&& post.handshakes == pre.handshakes
            &&& post.sync_handler == pre.sync_handler
            &&& post.connections == pre.connections
            &&& post.local_address == pre.local_address
            &&& acts.len() == 0
        },
        (Message::GetPeers, Facts::Nothing) => {
            &&& r_addr@ == source@
            &&& post == pre
            &&& acts.len() == 1
            &&& acts[0] matches ActionV::Send { to, message }
            &&& to == source@
            &&& message matches MessageV::Peers { addresses }
            &&& entries_map(addresses) == pre.peer_book.connected@.remove(
                source@)
            &&& distinct_keys(addresses)
            &&& wf_msg(message)
        },
        (Message::Peers { addresses }, Facts::Nothing) => {
            let entries = addresses@.map_values(|p: (PeerAddress, i64)| (p.0@, p.1));
            let m = merge_fold((pre.peer_book.connected@, pre.peer_book.gossiped@,
                pre.peer_book.disconnected@), entries, pre.local_address@);
            let accepted = m.0.contains_key(source@) || pre.peer_book.connected.spec_len()
                < pre.peer_book.max_peers;
            &&& r_addr@ == source@
            &&& if accepted {
                &&& post.peer_book.connected@ == m.0.insert(source@, now)
                &&& post.peer_book.gossiped@ == m.1.remove(source@)
                &&& post.peer_book.disconnected@ == m.2.remove(source@)
            } else {
                &&& post.peer_book.connected@ == m.0
                &&& post.peer_book.gossiped@ == m.1
                &&& post.peer_book.disconnected@ == m.2
            }
            &&& post.pings == pre.pings
            &&& post.handshakes == pre.handshakes
            &&& post.sync_handler == pre.sync_handler
            &&& post.connections == pre.connections
            &&& post.local_address == pre.local_address
            &&& acts.len() == 0
        },
        (Message::GetBlock { .. }, Facts::BlockLookup { block }) => {
            &&& r_addr@ == source@
            &&& post == pre
            &&& match block {
                Some(d) => acts == seq![ActionV::Send {
                    to: source@,
                    message: MessageV::SyncBlock { data: d@ },
                }],
                None => acts.len() == 0,
            }
        },
        (Message::Block { data }, Facts::BlockReceipt {
            hash_known,
            inserted,
            pending_in_storage,
        }) => {
            &&& r_addr@ == source@
            &&& block_outcome(pre, post, source@, data@, true, hash_known, inserted,
                pending_in_storage@, acts)
        },
        (Message::SyncBlock { data }, Facts::BlockReceipt {
            hash_known,
            inserted,
            pending_in_storage,
        }) => {
            &&& r_addr@ == source@
            &&& block_outcome(pre, post, source@, data@, false, hash_known, inserted,
                pending_in_storage@, acts)
        },
        (Message::GetSync { .. }, Facts::SyncReply { hashes }) => {
            &&& r_addr@ == source@
            &&& post == pre
            &&& acts == seq![ActionV::Send {
                to: source@,
                message: MessageV::Sync { hashes: hashes@.map_values(|h: Vec<u8>| h@) },
            }]
        },
        (Message::Sync { hashes }, Facts::SyncHashes { in_storage }) => {
            &&& r_addr@ == source@
            &&& sync_outcome(pre, post, hashes@.map_values(|h: Vec<u8>| h@), in_storage@, acts)
        },
        (Message::GetMemoryPool, Facts::PoolContents { transactions }) => {
            &&& r_addr@ == source@
            &&& post == pre
            &&& transactions@.len() > 0 ==> acts == seq![ActionV::Send {
                to: source@,
                message: MessageV::MemoryPool {
                    transactions: transactions@.map_values(|t: Vec<u8>| t@),
                },
            }]
            &&& transactions@.len() == 0 ==> acts.len() == 0
        },
        (Message::MemoryPool { transactions }, Facts::Nothing) => {
            &&& r_addr@ == source@
            &&& post == pre
            &&& acts.len() == transactions@.len()
            &&& forall|k: int| 0 <= k < acts.len() ==> (#[trigger] acts[k]) == (
            ActionV::SubmitTransaction { data: transactions@[k]@ })
        },
        (Message::Transaction { data }, Facts::TxReceipt { inserted }) => {
            &&& r_addr@ == source@
            &&& post == pre
            &&& inserted ==> acts == fanout_actions(pre.peer_book.connected.seq_view(), source@,
                MessageV::Transaction { data: data@ })
            &&& !inserted ==> acts.len() == 0
        },
        _ => false,
    }
}

impl Node {
    /// The central handler: dispatches one inbound message, mutates
    /// the shared state, and hands back the channel address — changed
    /// to the advertised port by a version message — together with
    /// the actions to perform.
    pub fn message_handler(&mut self, source: &PeerAddress, msg: Message, facts: Facts,
        our_nonce: u64, now: i64) -> (r: (PeerAddress, Vec<Action>))
        requires
            old(self).wf(),
            source.wf(),
            msg.wf(),
            facts_match(old(self), &msg, &facts),
        ensures
            final(self).wf(),
            handler_post(*old(self), *final(self), *source, msg, facts, our_nonce, now, r.0,
                acts_view(r.1@)),
    {
        match (msg, facts) {
            (Message::Version { height, nonce, address_sender, .. }, Facts::Chain {
                local_height,
                locator,
            }) => self.receive_version(source, height, nonce, &address_sender, local_height,
                locator, our_nonce, now),
            (Message::Verack { nonce }, Facts::Nothing) => {
                let acts = self.receive_verack(source, nonce, now);
                (source.duplicate(), acts)
            }
            (Message::Ping { nonce }, Facts::Nothing) => {
                let acts = self.receive_ping(source, nonce, now);
                (source.duplicate(), acts)
            }
            (Message::Pong { nonce }, Facts::Nothing) => {
                let acts = self.receive_pong(source, nonce, now);
                (source.duplicate(), acts)
            }
            (Message::GetPeers, Facts::Nothing) => {
                let acts = self.receive_get_peers(source);
                (source.duplicate(), acts)
            }
            (Message::Peers { addresses }, Facts::Nothing) => {
                proof {
                    let entries = addresses@.map_values(|p: (PeerAddress, i64)| (p.0@, p.1));
                    assert forall|k: int| 0 <= k < addresses@.len() implies wf_addr(
                        (#[trigger] addresses@[k]).0@) by {
                        assert(entries[k] == (addresses@[k].0@, addresses@[k].1));
                        assert(wf_addr(entries[k].0));
                    }
                }
                let acts = self.receive_peers(source, addresses, now);
                (source.duplicate(), acts)
            }
            (Message::GetBlock { .. }, Facts::BlockLookup { block }) => {
                let acts = self.receive_get_block(source, block);
                (source.duplicate(), acts)
            }
            (Message::Block { data }, Facts::BlockReceipt {
                hash_known,
                inserted,
                pending_in_storage,
            }) => {
                let acts = self.receive_block_message(source, data, true, hash_known, inserted,
                    &pending_in_storage);
                (source.duplicate(), acts)
            }
            (Message::SyncBlock { data }, Facts::BlockReceipt {
                hash_known,
                inserted,
                pending_in_storage,
            }) => {
                proof {
                    assert(wf_msg(MessageV::Block { data: data@ }));
                }
                let acts = self.receive_block_message(source, data, false, hash_known, inserted,
                    &pending_in_storage);
                (source.duplicate(), acts)
            }
            (Message::GetSync { .. }, Facts::SyncReply { hashes }) => {
                let acts = self.receive_get_sync(source, hashes);
                (source.duplicate(), acts)
            }
            (Message::Sync { hashes }, Facts::SyncHashes { in_storage }) => {
                proof {
                    let hv = hashes@.map_values(|h: Vec<u8>| h@);
                    assert forall|k: int| 0 <= k < hashes@.len() implies (
                    #[trigger] hashes@[k])@.len() == HASH_LEN by {
                        assert(hv[k] == hashes@[k]@);
                        assert(hv[k].len() == HASH_LEN);
                    }
                }
                let acts = self.receive_sync(hashes, &in_storage);
                (source.duplicate(), acts)
            }
            (Message::GetMemoryPool, Facts::PoolContents { transactions }) => {
                let acts = self.receive_get_memory_pool(source, transactions);
                (source.duplicate(), acts)
            }
            (Message::MemoryPool { transactions }, Facts::Nothing) => {
                let acts = self.receive_memory_pool(transactions);
                (source.duplicate(), acts)
            }
            (Message::Transaction { data }, Facts::TxReceipt { inserted }) => {
                let acts = self.receive_transaction(source, data, inserted);
                (source.duplicate(), acts)
            }
            (_, _) => {
                proof {
                    assert(false);
                }
                (source.duplicate(), Vec::new())
            }
        }
    }

    /// As [`Node::message_handler`], stamped with the clock's current
    /// reading, which is returned so the outcome is fully determined.
    pub fn message_handler_now(&mut self, source: &PeerAddress, msg: Message, facts: Facts,
        our_nonce: u64) -> (r: (i64, PeerAddress, Vec<Action>))
        requires
            old(self).wf(),
            source.wf(),
            msg.wf(),
            facts_match(old(self), &msg, &facts),
        ensures
            final(self).wf(),
            handler_post(*old(self), *final(self), *source, msg, facts, our_nonce, r.0, r.1,
                acts_view(r.2@)),
    {
        let now = current_timestamp();
        let (addr, acts) = self.message_handler(source, msg, facts, our_nonce, now);
        (now, addr, acts)
    }
}

/// Relies on chrono's `Utc::now` and `DateTime::timestamp`: the
/// clock's current reading as whole seconds since the Unix epoch.
/// Nothing is promised of the value; callers take it as an argument.
#[verifier::external_body]
fn current_timestamp() -> i64 {
    chrono::Utc::now().timestamp()
}

/// The ping registry after stamping each listed peer in turn.
pub open spec fn pings_after(m: Map<AddrV, (u64, i64)>, entries: Seq<(AddrV, i64)>,
    nonces: Seq<u64>, now: i64) -> Map<AddrV, (u64, i64)>
    decreases entries.len(),
{
    if entries.len() == 0 {
        m
    } else {
        pings_after(m, entries.drop_last(), nonces.drop_last(), now).insert(
            entries.last().0, (nonces.last(), now))
    }
}

impl Node {
    /// The periodic liveness round: every connected peer gets a fresh
    /// nonce-stamped ping, recorded in the registry.
    pub fn plan_pings(&mut self, nonces: &Vec<u64>, now: i64) -> (acts: Vec<Action>)
        requires
            old(self).wf(),
            nonces@.len() == old(self).peer_book.connected.spec_len(),
        ensures
            final(self).wf(),
            final(self).peer_book == old(self).peer_book,
            final(self).handshakes == old(self).handshakes,
            final(self).sync_handler == old(self).sync_handler,
            final(self).connections == old(self).connections,
            final(self).local_address == old(self).local_address,
            final(self).pings.window == old(self).pings.window,
            final(self).pings.entries@ == pings_after(old(self).pings.entries@,
                old(self).peer_book.connected.seq_view(), nonces@, now),
            acts@.len() == old(self).peer_book.connected.spec_len(),
            forall|k: int| 0 <= k < acts@.len() ==> (#[trigger] acts@[k]@) == (ActionV::Send {
                to: old(self).peer_book.connected.seq_view()[k].0,
                message: MessageV::Ping { nonce: nonces@[k] },
            }),
    {
        let ghost cv = self.peer_book.connected.seq_view();
        let conn = self.peer_book.get_connected();
        proof {
            assert(conn@.map_values(|p: (PeerAddress, i64)| (p.0@, p.1)).len() == conn@.len());
            assert(cv.len() == old(self).peer_book.connected.spec_len());
        }
        let n = conn.len();
        let mut acts: Vec<Action> = Vec::new();
        let mut j: usize = 0;
        while j < n
            invariant
                j <= n,
                n == conn@.len(),
                n == nonces@.len(),
                cv == conn@.map_values(|p: (PeerAddress, i64)| (p.0@, p.1)),
                forall|k: int| 0 <= k < n ==> wf_addr((#[trigger] conn@[k].0)@),
                self.wf(),
                self.peer_book == old(self).peer_book,
                self.handshakes == old(self).handshakes,
                self.sync_handler == old(self).sync_handler,
                self.connections == old(self).connections,
                self.local_address == old(self).local_address,
                self.pings.window == old(self).pings.window,
                self.pings.entries@ == pings_after(old(self).pings.entries@,
                    cv.take(j as int), nonces@.take(j as int), now),
                acts@.len() == j,
                forall|k: int| 0 <= k < j ==> (#[trigger] acts@[k]@) == (ActionV::Send {
                    to: cv[k].0,
                    message: MessageV::Ping { nonce: nonces@[k] },
                }),
            decreases n - j,
        {
            proof {
                assert(cv.take(j + 1).drop_last() =~= cv.take(j as int));
                assert(nonces@.take(j + 1).drop_last() =~= nonces@.take(j as int));
                assert(cv.take(j + 1).last() == cv[j as int]);
                assert(cv[j as int] == (conn@[j as int].0@, conn@[j as int].1));
            }
            let ping = self.pings.record_ping(&conn[j].0, nonces[j], now);
            let to = conn[j].0.duplicate();
            acts.push(Action::Send { to, message: ping });
            j = j + 1;
        }
        proof {
            assert(cv.take(n as int) =~= cv);
            assert(nonces@.take(n as int) =~= nonces@);
        }
        acts
    }

    /// The connected peers whose pending ping has gone unanswered past
    /// the window: maintenance drops them.
    pub fn expired_peers(&self, now: i64) -> (r: Vec<PeerAddress>)
        requires
            self.wf(),
        ensures
            forall|k: int| 0 <= k < r@.len() ==> ({
                let a = (#[trigger] r@[k])@;
                &&& self.pings.entries@.contains_key(a)
                &&& now - self.pings.entries@[a].1 > self.pings.window
                &&& self.peer_book.connected@.contains_key(a)
            }),
            forall|a: AddrV| #![trigger self.pings.entries@.contains_key(a)]
                self.pings.entries@.contains_key(a) && now - self.pings.entries@[a].1
                    > self.pings.window && self.peer_book.connected@.contains_key(a)
                ==> exists|k: int| 0 <= k < r@.len() && (#[trigger] r@[k])@ == a,
    {
        let ghost s = self.pings.entries.seq_view();
        let n = self.pings.entries.len();
        let mut r: Vec<PeerAddress> = Vec::new();
        let mut j: usize = 0;
        while j < n
            invariant
                j <= n,
                self.wf(),
                n == self.pings.entries.entries@.len(),
                s == self.pings.entries.seq_view(),
                forall|k: int| 0 <= k < r@.len() ==> ({
                    let a = (#[trigger] r@[k])@;
                    &&& self.pings.entries@.contains_key(a)
                    &&& now - self.pings.entries@[a].1 > self.pings.window
                    &&& self.peer_book.connected@.contains_key(a)
                }),
                forall|k: int| #![trigger s[k]] 0 <= k < j && now - s[k].1.1 > self.pings.window
                    && self.peer_book.connected@.contains_key(s[k].0)
                    ==> exists|i: int| 0 <= i < r@.len() && (#[trigger] r@[i])@ == s[k].0,
            decreases n - j,
        {
            let ghost r0 = r@;
            let entry = &self.pings.entries.entries[j];
            let sent = entry.1.1;
            proof {
                assert(s[j as int] == (self.pings.entries.entries@[j as int].0@,
                    self.pings.entries.entries@[j as int].1));
            }
            if (now as i128) - (sent as i128) > (self.pings.window as i128) {
                if self.peer_book.connected_contains(&entry.0) {
                    proof {
                        crate::addr_map::lemma_entry_present(s, j as int);
                    }
                    r.push(self.pings.entries.entries[j].0.duplicate());
                    proof {
                        assert(r@[r@.len() - 1]@ == s[j as int].0);
                        assert forall|k: int| #![trigger s[k]] 0 <= k <= j && now - s[k].1.1
                            > self.pings.window && self.peer_book.connected@.contains_key(
                            s[k].0) implies exists|i: int| 0 <= i < r@.len()
                            && (#[trigger] r@[i])@ == s[k].0 by {
                            if k < j {
                                let i = choose|i: int| 0 <= i < r0.len() && (#[trigger] r0[i])@
                                    == s[k].0;
                                assert(r@[i] == r0[i]);
                            }
                        }
                    }
                }
            }
            j = j + 1;
        }
        proof {
            assert forall|a: AddrV| self.pings.entries@.contains_key(a) && now
                - self.pings.entries@[a].1 > self.pings.window
                && self.peer_book.connected@.contains_key(a) implies exists|k: int|
                0 <= k < r@.len() && (#[trigger] r@[k])@ == a by {
                assert(crate::addr_map::has_entry(s, a));
                let k = crate::addr_map::entry_index(s, a);
                assert(0 <= k < s.len() && s[k].0 == a);
                crate::addr_map::lemma_entry_present(s, k);
                assert(s[k].1 == self.pings.entries@[a]);
            }
        }
        r
    }

    /// Up to `want` gossiped addresses to dial, to refill the book
    /// toward its capacity.
    pub fn gossiped_to_dial(&self, want: usize) -> (acts: Vec<Action>)
        requires
            self.wf(),
        ensures
            acts@.len() == (if want < self.peer_book.gossiped.spec_len() {
                want as int
            } else {
                self.peer_book.gossiped.spec_len() as int
            }),
            forall|k: int| 0 <= k < acts@.len() ==> ({
                &&& (#[trigger] acts@[k]) matches Action::DialHandshake { to }
                &&& to@ == self.peer_book.gossiped.seq_view()[k].0
                &&& self.peer_book.gossiped@.contains_key(to@)
            }),
    {
        let n = self.peer_book.gossiped.entries.len();
        let limit = if want < n {
            want
        } else {
            n
        };
        let mut acts: Vec<Action> = Vec::new();
        let mut j: usize = 0;
        while j < limit
            invariant
                j <= limit,
                limit <= n,
                self.wf(),
                n == self.peer_book.gossiped.entries@.len(),
                acts@.len() == j,
                forall|k: int| 0 <= k < j ==> ({
                    &&& (#[trigger] acts@[k]) matches Action::DialHandshake { to }
                    &&& to@ == self.peer_book.gossiped.seq_view()[k].0
                    &&& self.peer_book.gossiped@.contains_key(to@)
                }),
            decreases limit - j,
        {
            proof {
                let s = self.peer_book.gossiped.seq_view();
                assert(s[j as int] == (self.peer_book.gossiped.entries@[j as int].0@,
                    self.peer_book.gossiped.entries@[j as int].1));
                crate::addr_map::lemma_entry_present(s, j as int);
            }
            let to = self.peer_book.gossiped.entries[j].0.duplicate();
            acts.push(Action::DialHandshake { to });
            j = j + 1;
        }
        acts
    }
}

} // verus!
