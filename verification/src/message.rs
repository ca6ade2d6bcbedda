//! The message vocabulary of the wire protocol.
//!
//! Every frame on the wire is a twelve-byte NUL-padded ASCII name, a
//! four-byte big-endian payload length, and the payload itself. This
//! module gives each message kind its mathematical byte image, the
//! well-formedness condition a message must meet to be encodable, and
//! the lemmas showing that a name tag pins down the message kind.

use vstd::prelude::*;
use crate::addr::{PeerAddress, AddrV, wf_addr, addr_bytes};
use crate::bytes::{u32_bytes, u64_bytes, i64_bytes};

verus! {

/// Number of bytes of a block header hash.
pub const HASH_LEN: usize = 32;

/// One message of the protocol, over plain values.
#[derive(Debug, Clone, PartialEq, Eq)]
pub enum Message {
    /// Handshake request: the sender advertises itself and its height.
    Version {
        version: u64,
        height: u32,
        nonce: u64,
        timestamp: i64,
        address_receiver: PeerAddress,
        address_sender: PeerAddress,
    },
    /// Handshake acknowledgement echoing the request nonce.
    Verack { nonce: u64 },
    /// Liveness probe carrying a fresh nonce.
    Ping { nonce: u64 },
    /// Liveness answer echoing the probe nonce.
    Pong { nonce: u64 },
    /// Request for the responder's connected peers.
    GetPeers,
    /// A list of peer addresses with their last-seen timestamps.
    Peers { addresses: Vec<(PeerAddress, i64)> },
    /// Request for the block with the given header hash.
    GetBlock { hash: Vec<u8> },
    /// A freshly mined or propagated block, as raw bytes.
    Block { data: Vec<u8> },
    /// A block served in answer to a sync request, as raw bytes.
    SyncBlock { data: Vec<u8> },
    /// Request for missing block hashes, carrying a block locator.
    GetSync { locator: Vec<Vec<u8>> },
    /// Block hashes the requester is missing, oldest first.
    Sync { hashes: Vec<Vec<u8>> },
    /// Request for the responder's pooled transactions.
    GetMemoryPool,
    /// Pooled transactions, each as raw bytes.
    MemoryPool { transactions: Vec<Vec<u8>> },
    /// A single transaction, as raw bytes.
    Transaction { data: Vec<u8> },
}

/// Mathematical image of a [`Message`].
#[verifier::ext_equal]
pub enum MessageV {
    Version {
        version: u64,
        height: u32,
        nonce: u64,
        timestamp: i64,
        address_receiver: AddrV,
        address_sender: AddrV,
    },
    Verack { nonce: u64 },
    Ping { nonce: u64 },
    Pong { nonce: u64 },
    GetPeers,
    Peers { addresses: Seq<(AddrV, i64)> },
    GetBlock { hash: Seq<u8> },
    Block { data: Seq<u8> },
    SyncBlock { data: Seq<u8> },
    GetSync { locator: Seq<Seq<u8>> },
    Sync { hashes: Seq<Seq<u8>> },
    GetMemoryPool,
    MemoryPool { transactions: Seq<Seq<u8>> },
    Transaction { data: Seq<u8> },
}

impl View for Message {
    type V = MessageV;

    open spec fn view(&self) -> MessageV {
        match self {
            Message::Version { version, height, nonce, timestamp, address_receiver, address_sender } =>
                MessageV::Version {
                    version: *version,
                    height: *height,
                    nonce: *nonce,
                    timestamp: *timestamp,
                    address_receiver: address_receiver@,
                    address_sender: address_sender@,
                },
            Message::Verack { nonce } => MessageV::Verack { nonce: *nonce },
            Message::Ping { nonce } => MessageV::Ping { nonce: *nonce },
            Message::Pong { nonce } => MessageV::Pong { nonce: *nonce },
            Message::GetPeers => MessageV::GetPeers,
            Message::Peers { addresses } => MessageV::Peers {
                addresses: addresses@.map_values(|p: (PeerAddress, i64)| (p.0@, p.1)),
            },
            Message::GetBlock { hash } => MessageV::GetBlock { hash: hash@ },
            Message::Block { data } => MessageV::Block { data: data@ },
            Message::SyncBlock { data } => MessageV::SyncBlock { data: data@ },
            Message::GetSync { locator } => MessageV::GetSync {
                locator: locator@.map_values(|h: Vec<u8>| h@),
            },
            Message::Sync { hashes } => MessageV::Sync {
                hashes: hashes@.map_values(|h: Vec<u8>| h@),
            },
            Message::GetMemoryPool => MessageV::GetMemoryPool,
            Message::MemoryPool { transactions } => MessageV::MemoryPool {
                transactions: transactions@.map_values(|t: Vec<u8>| t@),
            },
            Message::Transaction { data } => MessageV::Transaction { data: data@ },
        }
    }
}

/// Concatenated fixed-width hashes, in order.
pub open spec fn hashes_bytes(l: Seq<Seq<u8>>) -> Seq<u8>
    decreases l.len(),
{
    if l.len() == 0 {
        Seq::empty()
    } else {
        hashes_bytes(l.drop_last()) + l.last()
    }
}

/// Concatenated peer entries: address then timestamp, in order.
pub open spec fn peers_bytes(l: Seq<(AddrV, i64)>) -> Seq<u8>
    decreases l.len(),
{
    if l.len() == 0 {
        Seq::empty()
    } else {
        peers_bytes(l.drop_last()) + addr_bytes(l.last().0) + i64_bytes(l.last().1)
    }
}

/// Concatenated length-prefixed byte strings, in order.
pub open spec fn pool_bytes(l: Seq<Seq<u8>>) -> Seq<u8>
    decreases l.len(),
{
    if l.len() == 0 {
        Seq::empty()
    } else {
        pool_bytes(l.drop_last()) + u32_bytes(l.last().len() as u32) + l.last()
    }
}

/// The payload bytes of a message.
pub open spec fn payload_bytes(mv: MessageV) -> Seq<u8> {
    match mv {
        MessageV::Version { version, height, nonce, timestamp, address_receiver, address_sender } =>
            u64_bytes(version) + u32_bytes(height) + u64_bytes(nonce) + i64_bytes(timestamp)
                + addr_bytes(address_receiver) + addr_bytes(address_sender),
        MessageV::Verack { nonce } => u64_bytes(nonce),
        MessageV::Ping { nonce } => u64_bytes(nonce),
        MessageV::Pong { nonce } => u64_bytes(nonce),
        MessageV::GetPeers => Seq::empty(),
        MessageV::Peers { addresses } =>
            u32_bytes(addresses.len() as u32) + peers_bytes(addresses),
        MessageV::GetBlock { hash } => hash,
        MessageV::Block { data } => u32_bytes(data.len() as u32) + data,
        MessageV::SyncBlock { data } => u32_bytes(data.len() as u32) + data,
        MessageV::GetSync { locator } => u32_bytes(locator.len() as u32) + hashes_bytes(locator),
        MessageV::Sync { hashes } => u32_bytes(hashes.len() as u32) + hashes_bytes(hashes),
        MessageV::GetMemoryPool => Seq::empty(),
        MessageV::MemoryPool { transactions } =>
            u32_bytes(transactions.len() as u32) + pool_bytes(transactions),
        MessageV::Transaction { data } => u32_bytes(data.len() as u32) + data,
    }
}

/// The twelve-byte name tag of a message.
pub open spec fn name_bytes(mv: MessageV) -> Seq<u8> {
    match mv {
        MessageV::Version { .. } => name_version(),
        MessageV::Verack { .. } => name_verack(),
        MessageV::Ping { .. } => name_ping(),
        MessageV::Pong { .. } => name_pong(),
        MessageV::GetPeers => name_getpeers(),
        MessageV::Peers { .. } => name_peers(),
        MessageV::GetBlock { .. } => name_getblock(),
        MessageV::Block { .. } => name_block(),
        MessageV::SyncBlock { .. } => name_syncblock(),
        MessageV::GetSync { .. } => name_getsync(),
        MessageV::Sync { .. } => name_sync(),
        MessageV::GetMemoryPool => name_getmempool(),
        MessageV::MemoryPool { .. } => name_memorypool(),
        MessageV::Transaction { .. } => name_transaction(),
    }
}

/// The full wire frame of a message: name, payload length, payload.
pub open spec fn msg_bytes(mv: MessageV) -> Seq<u8> {
    name_bytes(mv) + u32_bytes(payload_bytes(mv).len() as u32) + payload_bytes(mv)
}

/// A message that the wire format can carry: addresses are well formed,
/// hashes have their fixed width, and every length fits the four-byte
/// length fields.
pub open spec fn wf_msg(mv: MessageV) -> bool {
    &&& match mv {
        MessageV::Version { address_receiver, address_sender, .. } =>
            wf_addr(address_receiver) && wf_addr(address_sender),
        MessageV::Peers { addresses } => {
            &&& addresses.len() < 0x1_0000_0000
            &&& forall|k: int| 0 <= k < addresses.len() ==> wf_addr(#[trigger] addresses[k].0)
        },
        MessageV::GetBlock { hash } => hash.len() == HASH_LEN,
        MessageV::Block { data } => data.len() < 0x1_0000_0000,
        MessageV::SyncBlock { data } => data.len() < 0x1_0000_0000,
        MessageV::GetSync { locator } => {
            &&& locator.len() < 0x1_0000_0000
            &&& forall|k: int| 0 <= k < locator.len() ==> (#[trigger] locator[k]).len() == HASH_LEN
        },
        MessageV::Sync { hashes } => {
            &&& hashes.len() < 0x1_0000_0000
            &&& forall|k: int| 0 <= k < hashes.len() ==> (#[trigger] hashes[k]).len() == HASH_LEN
        },
        MessageV::MemoryPool { transactions } => {
            &&& transactions.len() < 0x1_0000_0000
            &&& forall|k: int| 0 <= k < transactions.len()
                ==> (#[trigger] transactions[k]).len() < 0x1_0000_0000
        },
        MessageV::Transaction { data } => data.len() < 0x1_0000_0000,
        _ => true,
    }
    &&& payload_bytes(mv).len() < 0x1_0000_0000
}

/// A copy of a list of byte strings.
fn dup_byte_lists(v: &Vec<Vec<u8>>) -> (r: Vec<Vec<u8>>)
    ensures
        r@.map_values(|h: Vec<u8>| h@) == v@.map_values(|h: Vec<u8>| h@),
{
    let n = v.len();
    let mut r: Vec<Vec<u8>> = Vec::new();
    let mut j: usize = 0;
    while j < n
        invariant
            j <= n,
            n == v@.len(),
            r@.len() == j,
            forall|k: int| 0 <= k < j ==> (#[trigger] r@[k])@ == v@[k]@,
        decreases n - j,
    {
        r.push(crate::bytes::dup_bytes(&v[j]));
        j = j + 1;
    }
    proof {
        assert(r@.map_values(|h: Vec<u8>| h@) =~= v@.map_values(|h: Vec<u8>| h@));
    }
    r
}

/// A copy of a peer entry list.
fn dup_peer_entries(v: &Vec<(PeerAddress, i64)>) -> (r: Vec<(PeerAddress, i64)>)
    ensures
        r@.map_values(|p: (PeerAddress, i64)| (p.0@, p.1)) == v@.map_values(
            |p: (PeerAddress, i64)| (p.0@, p.1)),
{
    let n = v.len();
    let mut r: Vec<(PeerAddress, i64)> = Vec::new();
    let mut j: usize = 0;
    while j < n
        invariant
            j <= n,
            n == v@.len(),
            r@.len() == j,
            forall|k: int| 0 <= k < j ==> (#[trigger] r@[k]).0@ == v@[k].0@ && r@[k].1 == v@[k].1,
        decreases n - j,
    {
        let a = v[j].0.duplicate();
        let t = v[j].1;
        r.push((a, t));
        j = j + 1;
    }
    proof {
        assert(r@.map_values(|p: (PeerAddress, i64)| (p.0@, p.1)) =~= v@.map_values(
            |p: (PeerAddress, i64)| (p.0@, p.1)));
    }
    r
}

impl Message {
    /// Whether this message is well formed for the wire.
    pub open spec fn wf(&self) -> bool {
        wf_msg(self@)
    }

    /// A copy of this message.
    pub fn duplicate(&self) -> (r: Message)
        ensures
            r@ == self@,
    {
        let r = match self {
            Message::Version { version, height, nonce, timestamp, address_receiver, address_sender } =>
                Message::Version {
                    version: *version,
                    height: *height,
                    nonce: *nonce,
                    timestamp: *timestamp,
                    address_receiver: address_receiver.duplicate(),
                    address_sender: address_sender.duplicate(),
                },
            Message::Verack { nonce } => Message::Verack { nonce: *nonce },
            Message::Ping { nonce } => Message::Ping { nonce: *nonce },
            Message::Pong { nonce } => Message::Pong { nonce: *nonce },
            Message::GetPeers => Message::GetPeers,
            Message::Peers { addresses } => Message::Peers {
                addresses: dup_peer_entries(addresses),
            },
            Message::GetBlock { hash } => Message::GetBlock {
                hash: crate::bytes::dup_bytes(hash),
            },
            Message::Block { data } => Message::Block { data: crate::bytes::dup_bytes(data) },
            Message::SyncBlock { data } => Message::SyncBlock {
                data: crate::bytes::dup_bytes(data),
            },
            Message::GetSync { locator } => Message::GetSync {
                locator: dup_byte_lists(locator),
            },
            Message::Sync { hashes } => Message::Sync { hashes: dup_byte_lists(hashes) },
            Message::GetMemoryPool => Message::GetMemoryPool,
            Message::MemoryPool { transactions } => Message::MemoryPool {
                transactions: dup_byte_lists(transactions),
            },
            Message::Transaction { data } => Message::Transaction {
                data: crate::bytes::dup_bytes(data),
            },
        };
        proof {
            assert(r@ =~= self@);
        }
        r
    }
}

/// The twelve-byte tag of the `version` message.
pub open spec fn name_version() -> Seq<u8> {
    seq![118u8, 101, 114, 115, 105, 111, 110, 0, 0, 0, 0, 0]
}

/// The twelve-byte tag of the `verack` message.
pub open spec fn name_verack() -> Seq<u8> {
    seq![118u8, 101, 114, 97, 99, 107, 0, 0, 0, 0, 0, 0]
}

/// The twelve-byte tag of the `ping` message.
pub open spec fn name_ping() -> Seq<u8> {
    seq![112u8, 105, 110, 103, 0, 0, 0, 0, 0, 0, 0, 0]
}

/// The twelve-byte tag of the `pong` message.
pub open spec fn name_pong() -> Seq<u8> {
    seq![112u8, 111, 110, 103, 0, 0, 0, 0, 0, 0, 0, 0]
}

/// The twelve-byte tag of the `getpeers` message.
pub open spec fn name_getpeers() -> Seq<u8> {
    seq![103u8, 101, 116, 112, 101, 101, 114, 115, 0, 0, 0, 0]
}

/// The twelve-byte tag of the `peers` message.
pub open spec fn name_peers() -> Seq<u8> {
    seq![112u8, 101, 101, 114, 115, 0, 0, 0, 0, 0, 0, 0]
}

/// The twelve-byte tag of the `getblock` message.
pub open spec fn name_getblock() -> Seq<u8> {
    seq![103u8, 101, 116, 98, 108, 111, 99, 107, 0, 0, 0, 0]
}

/// The twelve-byte tag of the `block` message.
pub open spec fn name_block() -> Seq<u8> {
    seq![98u8, 108, 111, 99, 107, 0, 0, 0, 0, 0, 0, 0]
}

/// The twelve-byte tag of the `syncblock` message.
pub open spec fn name_syncblock() -> Seq<u8> {
    seq![115u8, 121, 110, 99, 98, 108, 111, 99, 107, 0, 0, 0]
}

/// The twelve-byte tag of the `getsync` message.
pub open spec fn name_getsync() -> Seq<u8> {
    seq![103u8, 101, 116, 115, 121, 110, 99, 0, 0, 0, 0, 0]
}

/// The twelve-byte tag of the `sync` message.
pub open spec fn name_sync() -> Seq<u8> {
    seq![115u8, 121, 110, 99, 0, 0, 0, 0, 0, 0, 0, 0]
}

/// The twelve-byte tag of the `getmempool` message.
pub open spec fn name_getmempool() -> Seq<u8> {
    seq![103u8, 101, 116, 109, 101, 109, 112, 111, 111, 108, 0, 0]
}

/// The twelve-byte tag of the `memorypool` message.
pub open spec fn name_memorypool() -> Seq<u8> {
    seq![109u8, 101, 109, 111, 114, 121, 112, 111, 111, 108, 0, 0]
}

/// The twelve-byte tag of the `transaction` message.
pub open spec fn name_transaction() -> Seq<u8> {
    seq![116u8, 114, 97, 110, 115, 97, 99, 116, 105, 111, 110, 0]
}

/// The tag of the `version` message, as bytes.
pub fn version_tag() -> (r: Vec<u8>)
    ensures
        r@ == name_version(),
{
    let mut r: Vec<u8> = Vec::new();
    r.push(118);
    r.push(101);
    r.push(114);
    r.push(115);
    r.push(105);
    r.push(111);
    r.push(110);
    r.push(0);
    r.push(0);
    r.push(0);
    r.push(0);
    r.push(0);
    assert(r@ =~= name_version());
    r
}

/// The tag of the `verack` message, as bytes.
pub fn verack_tag() -> (r: Vec<u8>)
    ensures
        r@ == name_verack(),
{
    let mut r: Vec<u8> = Vec::new();
    r.push(118);
    r.push(101);
    r.push(114);
    r.push(97);
    r.push(99);
    r.push(107);
    r.push(0);
    r.push(0);
    r.push(0);
    r.push(0);
    r.push(0);
    r.push(0);
    assert(r@ =~= name_verack());
    r
}

/// The tag of the `ping` message, as bytes.
pub fn ping_tag() -> (r: Vec<u8>)
    ensures
        r@ == name_ping(),
{
    let mut r: Vec<u8> = Vec::new();
    r.push(112);
    r.push(105);
    r.push(110);
    r.push(103);
    r.push(0);
    r.push(0);
    r.push(0);
    r.push(0);
    r.push(0);
    r.push(0);
    r.push(0);
    r.push(0);
    assert(r@ =~= name_ping());
    r
}

/// The tag of the `pong` message, as bytes.
pub fn pong_tag() -> (r: Vec<u8>)
    ensures
        r@ == name_pong(),
{
    let mut r: Vec<u8> = Vec::new();
    r.push(112);
    r.push(111);
    r.push(110);
    r.push(103);
    r.push(0);
    r.push(0);
    r.push(0);
    r.push(0);
    r.push(0);
    r.push(0);
    r.push(0);
    r.push(0);
    assert(r@ =~= name_pong());
    r
}

/// The tag of the `getpeers` message, as bytes.
pub fn getpeers_tag() -> (r: Vec<u8>)
    ensures
        r@ == name_getpeers(),
{
    let mut r: Vec<u8> = Vec::new();
    r.push(103);
    r.push(101);
    r.push(116);
    r.push(112);
    r.push(101);
    r.push(101);
    r.push(114);
    r.push(115);
    r.push(0);
    r.push(0);
    r.push(0);
    r.push(0);
    assert(r@ =~= name_getpeers());
    r
}

/// The tag of the `peers` message, as bytes.
pub fn peers_tag() -> (r: Vec<u8>)
    ensures
        r@ == name_peers(),
{
    let mut r: Vec<u8> = Vec::new();
    r.push(112);
    r.push(101);
    r.push(101);
    r.push(114);
    r.push(115);
    r.push(0);
    r.push(0);
    r.push(0);
    r.push(0);
    r.push(0);
    r.push(0);
    r.push(0);
    assert(r@ =~= name_peers());
    r
}

/// The tag of the `getblock` message, as bytes.
pub fn getblock_tag() -> (r: Vec<u8>)
    ensures
        r@ == name_getblock(),
{
    let mut r: Vec<u8> = Vec::new();
    r.push(103);
    r.push(101);
    r.push(116);
    r.push(98);
    r.push(108);
    r.push(111);
    r.push(99);
    r.push(107);
    r.push(0);
    r.push(0);
    r.push(0);
    r.push(0);
    assert(r@ =~= name_getblock());
    r
}

/// The tag of the `block` message, as bytes.
pub fn block_tag() -> (r: Vec<u8>)
    ensures
        r@ == name_block(),
{
    let mut r: Vec<u8> = Vec::new();
    r.push(98);
    r.push(108);
    r.push(111);
    r.push(99);
    r.push(107);
    r.push(0);
    r.push(0);
    r.push(0);
    r.push(0);
    r.push(0);
    r.push(0);
    r.push(0);
    assert(r@ =~= name_block());
    r
}

/// The tag of the `syncblock` message, as bytes.
pub fn syncblock_tag() -> (r: Vec<u8>)
    ensures
        r@ == name_syncblock(),
{
    let mut r: Vec<u8> = Vec::new();
    r.push(115);
    r.push(121);
    r.push(110);
    r.push(99);
    r.push(98);
    r.push(108);
    r.push(111);
    r.push(99);
    r.push(107);
    r.push(0);
    r.push(0);
    r.push(0);
    assert(r@ =~= name_syncblock());
    r
}

/// The tag of the `getsync` message, as bytes.
pub fn getsync_tag() -> (r: Vec<u8>)
    ensures
        r@ == name_getsync(),
{
    let mut r: Vec<u8> = Vec::new();
    r.push(103);
    r.push(101);
    r.push(116);
    r.push(115);
    r.push(121);
    r.push(110);
    r.push(99);
    r.push(0);
    r.push(0);
    r.push(0);
    r.push(0);
    r.push(0);
    assert(r@ =~= name_getsync());
    r
}

/// The tag of the `sync` message, as bytes.
pub fn sync_tag() -> (r: Vec<u8>)
    ensures
        r@ == name_sync(),
{
    let mut r: Vec<u8> = Vec::new();
    r.push(115);
    r.push(121);
    r.push(110);
    r.push(99);
    r.push(0);
    r.push(0);
    r.push(0);
    r.push(0);
    r.push(0);
    r.push(0);
    r.push(0);
    r.push(0);
    assert(r@ =~= name_sync());
    r
}

/// The tag of the `getmempool` message, as bytes.
pub fn getmempool_tag() -> (r: Vec<u8>)
    ensures
        r@ == name_getmempool(),
{
    let mut r: Vec<u8> = Vec::new();
    r.push(103);
    r.push(101);
    r.push(116);
    r.push(109);
    r.push(101);
    r.push(109);
    r.push(112);
    r.push(111);
    r.push(111);
    r.push(108);
    r.push(0);
    r.push(0);
    assert(r@ =~= name_getmempool());
    r
}

/// The tag of the `memorypool` message, as bytes.
pub fn memorypool_tag() -> (r: Vec<u8>)
    ensures
        r@ == name_memorypool(),
{
    let mut r: Vec<u8> = Vec::new();
    r.push(109);
    r.push(101);
    r.push(109);
    r.push(111);
    r.push(114);
    r.push(121);
    r.push(112);
    r.push(111);
    r.push(111);
    r.push(108);
    r.push(0);
    r.push(0);
    assert(r@ =~= name_memorypool());
    r
}

/// The tag of the `transaction` message, as bytes.
pub fn transaction_tag() -> (r: Vec<u8>)
    ensures
        r@ == name_transaction(),
{
    let mut r: Vec<u8> = Vec::new();
    r.push(116);
    r.push(114);
    r.push(97);
    r.push(110);
    r.push(115);
    r.push(97);
    r.push(99);
    r.push(116);
    r.push(105);
    r.push(111);
    r.push(110);
    r.push(0);
    assert(r@ =~= name_transaction());
    r
}

/// Only the `version` message carries the `version` tag.
pub proof fn lemma_only_version(mv: MessageV)
    requires
        name_bytes(mv) == name_version(),
    ensures
        mv is Version,
{
    match mv {
        MessageV::Version { .. } => {}
        MessageV::Verack { .. } => {
            assert(name_bytes(mv)[3] == name_version()[3]);
            assert(false);
        }
        MessageV::Ping { .. } => {
            assert(name_bytes(mv)[0] == name_version()[0]);
            assert(false);
        }
        MessageV::Pong { .. } => {
            assert(name_bytes(mv)[0] == name_version()[0]);
            assert(false);
        }
        MessageV::GetPeers { .. } => {
            assert(name_bytes(mv)[0] == name_version()[0]);
            assert(false);
        }
        MessageV::Peers { .. } => {
            assert(name_bytes(mv)[0] == name_version()[0]);
            assert(false);
        }
        MessageV::GetBlock { .. } => {
            assert(name_bytes(mv)[0] == name_version()[0]);
            assert(false);
        }
        MessageV::Block { .. } => {
            assert(name_bytes(mv)[0] == name_version()[0]);
            assert(false);
        }
        MessageV::SyncBlock { .. } => {
            assert(name_bytes(mv)[0] == name_version()[0]);
            assert(false);
        }
        MessageV::GetSync { .. } => {
            assert(name_bytes(mv)[0] == name_version()[0]);
            assert(false);
        }
        MessageV::Sync { .. } => {
            assert(name_bytes(mv)[0] == name_version()[0]);
            assert(false);
        }
        MessageV::GetMemoryPool { .. } => {
            assert(name_bytes(mv)[0] == name_version()[0]);
            assert(false);
        }
        MessageV::MemoryPool { .. } => {
            assert(name_bytes(mv)[0] == name_version()[0]);
            assert(false);
        }
        MessageV::Transaction { .. } => {
            assert(name_bytes(mv)[0] == name_version()[0]);
            assert(false);
        }
    }
}

/// Only the `verack` message carries the `verack` tag.
pub proof fn lemma_only_verack(mv: MessageV)
    requires
        name_bytes(mv) == name_verack(),
    ensures
        mv is Verack,
{
    match mv {
        MessageV::Version { .. } => {
            assert(name_bytes(mv)[3] == name_verack()[3]);
            assert(false);
        }
        MessageV::Verack { .. } => {}
        MessageV::Ping { .. } => {
            assert(name_bytes(mv)[0] == name_verack()[0]);
            assert(false);
        }
        MessageV::Pong { .. } => {
            assert(name_bytes(mv)[0] == name_verack()[0]);
            assert(false);
        }
        MessageV::GetPeers { .. } => {
            assert(name_bytes(mv)[0] == name_verack()[0]);
            assert(false);
        }
        MessageV::Peers { .. } => {
            assert(name_bytes(mv)[0] == name_verack()[0]);
            assert(false);
        }
        MessageV::GetBlock { .. } => {
            assert(name_bytes(mv)[0] == name_verack()[0]);
            assert(false);
        }
        MessageV::Block { .. } => {
            assert(name_bytes(mv)[0] == name_verack()[0]);
            assert(false);
        }
        MessageV::SyncBlock { .. } => {
            assert(name_bytes(mv)[0] == name_verack()[0]);
            assert(false);
        }
        MessageV::GetSync { .. } => {
            assert(name_bytes(mv)[0] == name_verack()[0]);
            assert(false);
        }
        MessageV::Sync { .. } => {
            assert(name_bytes(mv)[0] == name_verack()[0]);
            assert(false);
        }
        MessageV::GetMemoryPool { .. } => {
            assert(name_bytes(mv)[0] == name_verack()[0]);
            assert(false);
        }
        MessageV::MemoryPool { .. } => {
            assert(name_bytes(mv)[0] == name_verack()[0]);
            assert(false);
        }
        MessageV::Transaction { .. } => {
            assert(name_bytes(mv)[0] == name_verack()[0]);
            assert(false);
        }
    }
}

/// Only the `ping` message carries the `ping` tag.
pub proof fn lemma_only_ping(mv: MessageV)
    requires
        name_bytes(mv) == name_ping(),
    ensures
        mv is Ping,
{
    match mv {
        MessageV::Version { .. } => {
            assert(name_bytes(mv)[0] == name_ping()[0]);
            assert(false);
        }
        MessageV::Verack { .. } => {
            assert(name_bytes(mv)[0] == name_ping()[0]);
            assert(false);
        }
        MessageV::Ping { .. } => {}
        MessageV::Pong { .. } => {
            assert(name_bytes(mv)[1] == name_ping()[1]);
            assert(false);
        }
        MessageV::GetPeers { .. } => {
            assert(name_bytes(mv)[0] == name_ping()[0]);
            assert(false);
        }
        MessageV::Peers { .. } => {
            assert(name_bytes(mv)[1] == name_ping()[1]);
            assert(false);
        }
        MessageV::GetBlock { .. } => {
            assert(name_bytes(mv)[0] == name_ping()[0]);
            assert(false);
        }
        MessageV::Block { .. } => {
            assert(name_bytes(mv)[0] == name_ping()[0]);
            assert(false);
        }
        MessageV::SyncBlock { .. } => {
            assert(name_bytes(mv)[0] == name_ping()[0]);
            assert(false);
        }
        MessageV::GetSync { .. } => {
            assert(name_bytes(mv)[0] == name_ping()[0]);
            assert(false);
        }
        MessageV::Sync { .. } => {
            assert(name_bytes(mv)[0] == name_ping()[0]);
            assert(false);
        }
        MessageV::GetMemoryPool { .. } => {
            assert(name_bytes(mv)[0] == name_ping()[0]);
            assert(false);
        }
        MessageV::MemoryPool { .. } => {
            assert(name_bytes(mv)[0] == name_ping()[0]);
            assert(false);
        }
        MessageV::Transaction { .. } => {
            assert(name_bytes(mv)[0] == name_ping()[0]);
            assert(false);
        }
    }
}

/// Only the `pong` message carries the `pong` tag.
pub proof fn lemma_only_pong(mv: MessageV)
    requires
        name_bytes(mv) == name_pong(),
    ensures
        mv is Pong,
{
    match mv {
        MessageV::Version { .. } => {
            assert(name_bytes(mv)[0] == name_pong()[0]);
            assert(false);
        }
        MessageV::Verack { .. } => {
            assert(name_bytes(mv)[0] == name_pong()[0]);
            assert(false);
        }
        MessageV::Ping { .. } => {
            assert(name_bytes(mv)[1] == name_pong()[1]);
            assert(false);
        }
        MessageV::Pong { .. } => {}
        MessageV::GetPeers { .. } => {
            assert(name_bytes(mv)[0] == name_pong()[0]);
            assert(false);
        }
        MessageV::Peers { .. } => {
            assert(name_bytes(mv)[1] == name_pong()[1]);
            assert(false);
        }
        MessageV::GetBlock { .. } => {
            assert(name_bytes(mv)[0] == name_pong()[0]);
            assert(false);
        }
        MessageV::Block { .. } => {
            assert(name_bytes(mv)[0] == name_pong()[0]);
            assert(false);
        }
        MessageV::SyncBlock { .. } => {
            assert(name_bytes(mv)[0] == name_pong()[0]);
            assert(false);
        }
        MessageV::GetSync { .. } => {
            assert(name_bytes(mv)[0] == name_pong()[0]);
            assert(false);
        }
        MessageV::Sync { .. } => {
            assert(name_bytes(mv)[0] == name_pong()[0]);
            assert(false);
        }
        MessageV::GetMemoryPool { .. } => {
            assert(name_bytes(mv)[0] == name_pong()[0]);
            assert(false);
        }
        MessageV::MemoryPool { .. } => {
            assert(name_bytes(mv)[0] == name_pong()[0]);
            assert(false);
        }
        MessageV::Transaction { .. } => {
            assert(name_bytes(mv)[0] == name_pong()[0]);
            assert(false);
        }
    }
}

/// Only the `getpeers` message carries the `getpeers` tag.
pub proof fn lemma_only_getpeers(mv: MessageV)
    requires
        name_bytes(mv) == name_getpeers(),
    ensures
        mv is GetPeers,
{
    match mv {
        MessageV::Version { .. } => {
            assert(name_bytes(mv)[0] == name_getpeers()[0]);
            assert(false);
        }
        MessageV::Verack { .. } => {
            assert(name_bytes(mv)[0] == name_getpeers()[0]);
            assert(false);
        }
        MessageV::Ping { .. } => {
            assert(name_bytes(mv)[0] == name_getpeers()[0]);
            assert(false);
        }
        MessageV::Pong { .. } => {
            assert(name_bytes(mv)[0] == name_getpeers()[0]);
            assert(false);
        }
        MessageV::GetPeers { .. } => {}
        MessageV::Peers { .. } => {
            assert(name_bytes(mv)[0] == name_getpeers()[0]);
            assert(false);
        }
        MessageV::GetBlock { .. } => {
            assert(name_bytes(mv)[3] == name_getpeers()[3]);
            assert(false);
        }
        MessageV::Block { .. } => {
            assert(name_bytes(mv)[0] == name_getpeers()[0]);
            assert(false);
        }
        MessageV::SyncBlock { .. } => {
            assert(name_bytes(mv)[0] == name_getpeers()[0]);
            assert(false);
        }
        MessageV::GetSync { .. } => {
            assert(name_bytes(mv)[3] == name_getpeers()[3]);
            assert(false);
        }
        MessageV::Sync { .. } => {
            assert(name_bytes(mv)[0] == name_getpeers()[0]);
            assert(false);
        }
        MessageV::GetMemoryPool { .. } => {
            assert(name_bytes(mv)[3] == name_getpeers()[3]);
            assert(false);
        }
        MessageV::MemoryPool { .. } => {
            assert(name_bytes(mv)[0] == name_getpeers()[0]);
            assert(false);
        }
        MessageV::Transaction { .. } => {
            assert(name_bytes(mv)[0] == name_getpeers()[0]);
            assert(false);
        }
    }
}

/// Only the `peers` message carries the `peers` tag.
pub proof fn lemma_only_peers(mv: MessageV)
    requires
        name_bytes(mv) == name_peers(),
    ensures
        mv is Peers,
{
    match mv {
        MessageV::Version { .. } => {
            assert(name_bytes(mv)[0] == name_peers()[0]);
            assert(false);
        }
        MessageV::Verack { .. } => {
            assert(name_bytes(mv)[0] == name_peers()[0]);
            assert(false);
        }
        MessageV::Ping { .. } => {
            assert(name_bytes(mv)[1] == name_peers()[1]);
            assert(false);
        }
        MessageV::Pong { .. } => {
            assert(name_bytes(mv)[1] == name_peers()[1]);
            assert(false);
        }
        MessageV::GetPeers { .. } => {
            assert(name_bytes(mv)[0] == name_peers()[0]);
            assert(false);
        }
        MessageV::Peers { .. } => {}
        MessageV::GetBlock { .. } => {
            assert(name_bytes(mv)[0] == name_peers()[0]);
            assert(false);
        }
        MessageV::Block { .. } => {
            assert(name_bytes(mv)[0] == name_peers()[0]);
            assert(false);
        }
        MessageV::SyncBlock { .. } => {
            assert(name_bytes(mv)[0] == name_peers()[0]);
            assert(false);
        }
        MessageV::GetSync { .. } => {
            assert(name_bytes(mv)[0] == name_peers()[0]);
            assert(false);
        }
        MessageV::Sync { .. } => {
            assert(name_bytes(mv)[0] == name_peers()[0]);
            assert(false);
        }
        MessageV::GetMemoryPool { .. } => {
            assert(name_bytes(mv)[0] == name_peers()[0]);
            assert(false);
        }
        MessageV::MemoryPool { .. } => {
            assert(name_bytes(mv)[0] == name_peers()[0]);
            assert(false);
        }
        MessageV::Transaction { .. } => {
            assert(name_bytes(mv)[0] == name_peers()[0]);
            assert(false);
        }
    }
}

/// Only the `getblock` message carries the `getblock` tag.
pub proof fn lemma_only_getblock(mv: MessageV)
    requires
        name_bytes(mv) == name_getblock(),
    ensures
        mv is GetBlock,
{
    match mv {
        MessageV::Version { .. } => {
            assert(name_bytes(mv)[0] == name_getblock()[0]);
            assert(false);
        }
        MessageV::Verack { .. } => {
            assert(name_bytes(mv)[0] == name_getblock()[0]);
            assert(false);
        }
        MessageV::Ping { .. } => {
            assert(name_bytes(mv)[0] == name_getblock()[0]);
            assert(false);
        }
        MessageV::Pong { .. } => {
            assert(name_bytes(mv)[0] == name_getblock()[0]);
            assert(false);
        }
        MessageV::GetPeers { .. } => {
            assert(name_bytes(mv)[3] == name_getblock()[3]);
            assert(false);
        }
        MessageV::Peers { .. } => {
            assert(name_bytes(mv)[0] == name_getblock()[0]);
            assert(false);
        }
        MessageV::GetBlock { .. } => {}
        MessageV::Block { .. } => {
            assert(name_bytes(mv)[0] == name_getblock()[0]);
            assert(false);
        }
        MessageV::SyncBlock { .. } => {
            assert(name_bytes(mv)[0] == name_getblock()[0]);
            assert(false);
        }
        MessageV::GetSync { .. } => {
            assert(name_bytes(mv)[3] == name_getblock()[3]);
            assert(false);
        }
        MessageV::Sync { .. } => {
            assert(name_bytes(mv)[0] == name_getblock()[0]);
            assert(false);
        }
        MessageV::GetMemoryPool { .. } => {
            assert(name_bytes(mv)[3] == name_getblock()[3]);
            assert(false);
        }
        MessageV::MemoryPool { .. } => {
            assert(name_bytes(mv)[0] == name_getblock()[0]);
            assert(false);
        }
        MessageV::Transaction { .. } => {
            assert(name_bytes(mv)[0] == name_getblock()[0]);
            assert(false);
        }
    }
}

/// Only the `block` message carries the `block` tag.
pub proof fn lemma_only_block(mv: MessageV)
    requires
        name_bytes(mv) == name_block(),
    ensures
        mv is Block,
{
    match mv {
        MessageV::Version { .. } => {
            assert(name_bytes(mv)[0] == name_block()[0]);
            assert(false);
        }
        MessageV::Verack { .. } => {
            assert(name_bytes(mv)[0] == name_block()[0]);
            assert(false);
        }
        MessageV::Ping { .. } => {
            assert(name_bytes(mv)[0] == name_block()[0]);
            assert(false);
        }
        MessageV::Pong { .. } => {
            assert(name_bytes(mv)[0] == name_block()[0]);
            assert(false);
        }
        MessageV::GetPeers { .. } => {
            assert(name_bytes(mv)[0] == name_block()[0]);
            assert(false);
        }
        MessageV::Peers { .. } => {
            assert(name_bytes(mv)[0] == name_block()[0]);
            assert(false);
        }
        MessageV::GetBlock { .. } => {
            assert(name_bytes(mv)[0] == name_block()[0]);
            assert(false);
        }
        MessageV::Block { .. } => {}
        MessageV::SyncBlock { .. } => {
            assert(name_bytes(mv)[0] == name_block()[0]);
            assert(false);
        }
        MessageV::GetSync { .. } => {
            assert(name_bytes(mv)[0] == name_block()[0]);
            assert(false);
        }
        MessageV::Sync { .. } => {
            assert(name_bytes(mv)[0] == name_block()[0]);
            assert(false);
        }
        MessageV::GetMemoryPool { .. } => {
            assert(name_bytes(mv)[0] == name_block()[0]);
            assert(false);
        }
        MessageV::MemoryPool { .. } => {
            assert(name_bytes(mv)[0] == name_block()[0]);
            assert(false);
        }
        MessageV::Transaction { .. } => {
            assert(name_bytes(mv)[0] == name_block()[0]);
            assert(false);
        }
    }
}

/// Only the `syncblock` message carries the `syncblock` tag.
pub proof fn lemma_only_syncblock(mv: MessageV)
    requires
        name_bytes(mv) == name_syncblock(),
    ensures
        mv is SyncBlock,
{
    match mv {
        MessageV::Version { .. } => {
            assert(name_bytes(mv)[0] == name_syncblock()[0]);
            assert(false);
        }
        MessageV::Verack { .. } => {
            assert(name_bytes(mv)[0] == name_syncblock()[0]);
            assert(false);
        }
        MessageV::Ping { .. } => {
            assert(name_bytes(mv)[0] == name_syncblock()[0]);
            assert(false);
        }
        MessageV::Pong { .. } => {
            assert(name_bytes(mv)[0] == name_syncblock()[0]);
            assert(false);
        }
        MessageV::GetPeers { .. } => {
            assert(name_bytes(mv)[0] == name_syncblock()[0]);
            assert(false);
        }
        MessageV::Peers { .. } => {
            assert(name_bytes(mv)[0] == name_syncblock()[0]);
            assert(false);
        }
        MessageV::GetBlock { .. } => {
            assert(name_bytes(mv)[0] == name_syncblock()[0]);
            assert(false);
        }
        MessageV::Block { .. } => {
            assert(name_bytes(mv)[0] == name_syncblock()[0]);
            assert(false);
        }
        MessageV::SyncBlock { .. } => {}
        MessageV::GetSync { .. } => {
            assert(name_bytes(mv)[0] == name_syncblock()[0]);
            assert(false);
        }
        MessageV::Sync { .. } => {
            assert(name_bytes(mv)[4] == name_syncblock()[4]);
            assert(false);
        }
        MessageV::GetMemoryPool { .. } => {
            assert(name_bytes(mv)[0] == name_syncblock()[0]);
            assert(false);
        }
        MessageV::MemoryPool { .. } => {
            assert(name_bytes(mv)[0] == name_syncblock()[0]);
            assert(false);
        }
        MessageV::Transaction { .. } => {
            assert(name_bytes(mv)[0] == name_syncblock()[0]);
            assert(false);
        }
    }
}

/// Only the `getsync` message carries the `getsync` tag.
pub proof fn lemma_only_getsync(mv: MessageV)
    requires
        name_bytes(mv) == name_getsync(),
    ensures
        mv is GetSync,
{
    match mv {
        MessageV::Version { .. } => {
            assert(name_bytes(mv)[0] == name_getsync()[0]);
            assert(false);
        }
        MessageV::Verack { .. } => {
            assert(name_bytes(mv)[0] == name_getsync()[0]);
            assert(false);
        }
        MessageV::Ping { .. } => {
            assert(name_bytes(mv)[0] == name_getsync()[0]);
            assert(false);
        }
        MessageV::Pong { .. } => {
            assert(name_bytes(mv)[0] == name_getsync()[0]);
            assert(false);
        }
        MessageV::GetPeers { .. } => {
            assert(name_bytes(mv)[3] == name_getsync()[3]);
            assert(false);
        }
        MessageV::Peers { .. } => {
            assert(name_bytes(mv)[0] == name_getsync()[0]);
            assert(false);
        }
        MessageV::GetBlock { .. } => {
            assert(name_bytes(mv)[3] == name_getsync()[3]);
            assert(false);
        }
        MessageV::Block { .. } => {
            assert(name_bytes(mv)[0] == name_getsync()[0]);
            assert(false);
        }
        MessageV::SyncBlock { .. } => {
            assert(name_bytes(mv)[0] == name_getsync()[0]);
            assert(false);
        }
        MessageV::GetSync { .. } => {}
        MessageV::Sync { .. } => {
            assert(name_bytes(mv)[0] == name_getsync()[0]);
            assert(false);
        }
        MessageV::GetMemoryPool { .. } => {
            assert(name_bytes(mv)[3] == name_getsync()[3]);
            assert(false);
        }
        MessageV::MemoryPool { .. } => {
            assert(name_bytes(mv)[0] == name_getsync()[0]);
            assert(false);
        }
        MessageV::Transaction { .. } => {
            assert(name_bytes(mv)[0] == name_getsync()[0]);
            assert(false);
        }
    }
}

/// Only the `sync` message carries the `sync` tag.
pub proof fn lemma_only_sync(mv: MessageV)
    requires
        name_bytes(mv) == name_sync(),
    ensures
        mv is Sync,
{
    match mv {
        MessageV::Version { .. } => {
            assert(name_bytes(mv)[0] == name_sync()[0]);
            assert(false);
        }
        MessageV::Verack { .. } => {
            assert(name_bytes(mv)[0] == name_sync()[0]);
            assert(false);
        }
        MessageV::Ping { .. } => {
            assert(name_bytes(mv)[0] == name_sync()[0]);
            assert(false);
        }
        MessageV::Pong { .. } => {
            assert(name_bytes(mv)[0] == name_sync()[0]);
            assert(false);
        }
        MessageV::GetPeers { .. } => {
            assert(name_bytes(mv)[0] == name_sync()[0]);
            assert(false);
        }
        MessageV::Peers { .. } => {
            assert(name_bytes(mv)[0] == name_sync()[0]);
            assert(false);
        }
        MessageV::GetBlock { .. } => {
            assert(name_bytes(mv)[0] == name_sync()[0]);
            assert(false);
        }
        MessageV::Block { .. } => {
            assert(name_bytes(mv)[0] == name_sync()[0]);
            assert(false);
        }
        MessageV::SyncBlock { .. } => {
            assert(name_bytes(mv)[4] == name_sync()[4]);
            assert(false);
        }
        MessageV::GetSync { .. } => {
            assert(name_bytes(mv)[0] == name_sync()[0]);
            assert(false);
        }
        MessageV::Sync { .. } => {}
        MessageV::GetMemoryPool { .. } => {
            assert(name_bytes(mv)[0] == name_sync()[0]);
            assert(false);
        }
        MessageV::MemoryPool { .. } => {
            assert(name_bytes(mv)[0] == name_sync()[0]);
            assert(false);
        }
        MessageV::Transaction { .. } => {
            assert(name_bytes(mv)[0] == name_sync()[0]);
            assert(false);
        }
    }
}

/// Only the `getmempool` message carries the `getmempool` tag.
pub proof fn lemma_only_getmempool(mv: MessageV)
    requires
        name_bytes(mv) == name_getmempool(),
    ensures
        mv is GetMemoryPool,
{
    match mv {
        MessageV::Version { .. } => {
            assert(name_bytes(mv)[0] == name_getmempool()[0]);
            assert(false);
        }
        MessageV::Verack { .. } => {
            assert(name_bytes(mv)[0] == name_getmempool()[0]);
            assert(false);
        }
        MessageV::Ping { .. } => {
            assert(name_bytes(mv)[0] == name_getmempool()[0]);
            assert(false);
        }
        MessageV::Pong { .. } => {
            assert(name_bytes(mv)[0] == name_getmempool()[0]);
            assert(false);
        }
        MessageV::GetPeers { .. } => {
            assert(name_bytes(mv)[3] == name_getmempool()[3]);
            assert(false);
        }
        MessageV::Peers { .. } => {
            assert(name_bytes(mv)[0] == name_getmempool()[0]);
            assert(false);
        }
        MessageV::GetBlock { .. } => {
            assert(name_bytes(mv)[3] == name_getmempool()[3]);
            assert(false);
        }
        MessageV::Block { .. } => {
            assert(name_bytes(mv)[0] == name_getmempool()[0]);
            assert(false);
        }
        MessageV::SyncBlock { .. } => {
            assert(name_bytes(mv)[0] == name_getmempool()[0]);
            assert(false);
        }
        MessageV::GetSync { .. } => {
            assert(name_bytes(mv)[3] == name_getmempool()[3]);
            assert(false);
        }
        MessageV::Sync { .. } => {
            assert(name_bytes(mv)[0] == name_getmempool()[0]);
            assert(false);
        }
        MessageV::GetMemoryPool { .. } => {}
        MessageV::MemoryPool { .. } => {
            assert(name_bytes(mv)[0] == name_getmempool()[0]);
            assert(false);
        }
        MessageV::Transaction { .. } => {
            assert(name_bytes(mv)[0] == name_getmempool()[0]);
            assert(false);
        }
    }
}

/// Only the `memorypool` message carries the `memorypool` tag.
pub proof fn lemma_only_memorypool(mv: MessageV)
    requires
        name_bytes(mv) == name_memorypool(),
    ensures
        mv is MemoryPool,
{
    match mv {
        MessageV::Version { .. } => {
            assert(name_bytes(mv)[0] == name_memorypool()[0]);
            assert(false);
        }
        MessageV::Verack { .. } => {
            assert(name_bytes(mv)[0] == name_memorypool()[0]);
            assert(false);
        }
        MessageV::Ping { .. } => {
            assert(name_bytes(mv)[0] == name_memorypool()[0]);
            assert(false);
        }
        MessageV::Pong { .. } => {
            assert(name_bytes(mv)[0] == name_memorypool()[0]);
            assert(false);
        }
        MessageV::GetPeers { .. } => {
            assert(name_bytes(mv)[0] == name_memorypool()[0]);
            assert(false);
        }
        MessageV::Peers { .. } => {
            assert(name_bytes(mv)[0] == name_memorypool()[0]);
            assert(false);
        }
        MessageV::GetBlock { .. } => {
            assert(name_bytes(mv)[0] == name_memorypool()[0]);
            assert(false);
        }
        MessageV::Block { .. } => {
            assert(name_bytes(mv)[0] == name_memorypool()[0]);
            assert(false);
        }
        MessageV::SyncBlock { .. } => {
            assert(name_bytes(mv)[0] == name_memorypool()[0]);
            assert(false);
        }
        MessageV::GetSync { .. } => {
            assert(name_bytes(mv)[0] == name_memorypool()[0]);
            assert(false);
        }
        MessageV::Sync { .. } => {
            assert(name_bytes(mv)[0] == name_memorypool()[0]);
            assert(false);
        }
        MessageV::GetMemoryPool { .. } => {
            assert(name_bytes(mv)[0] == name_memorypool()[0]);
            assert(false);
        }
        MessageV::MemoryPool { .. } => {}
        MessageV::Transaction { .. } => {
            assert(name_bytes(mv)[0] == name_memorypool()[0]);
            assert(false);
        }
    }
}

/// Only the `transaction` message carries the `transaction` tag.
pub proof fn lemma_only_transaction(mv: MessageV)
    requires
        name_bytes(mv) == name_transaction(),
    ensures
        mv is Transaction,
{
    match mv {
        MessageV::Version { .. } => {
            assert(name_bytes(mv)[0] == name_transaction()[0]);
            assert(false);
        }
        MessageV::Verack { .. } => {
            assert(name_bytes(mv)[0] == name_transaction()[0]);
            assert(false);
        }
        MessageV::Ping { .. } => {
            assert(name_bytes(mv)[0] == name_transaction()[0]);
            assert(false);
        }
        MessageV::Pong { .. } => {
            assert(name_bytes(mv)[0] == name_transaction()[0]);
            assert(false);
        }
        MessageV::GetPeers { .. } => {
            assert(name_bytes(mv)[0] == name_transaction()[0]);
            assert(false);
        }
        MessageV::Peers { .. } => {
            assert(name_bytes(mv)[0] == name_transaction()[0]);
            assert(false);
        }
        MessageV::GetBlock { .. } => {
            assert(name_bytes(mv)[0] == name_transaction()[0]);
            assert(false);
        }
        MessageV::Block { .. } => {
            assert(name_bytes(mv)[0] == name_transaction()[0]);
            assert(false);
        }
        MessageV::SyncBlock { .. } => {
            assert(name_bytes(mv)[0] == name_transaction()[0]);
            assert(false);
        }
        MessageV::GetSync { .. } => {
            assert(name_bytes(mv)[0] == name_transaction()[0]);
            assert(false);
        }
        MessageV::Sync { .. } => {
            assert(name_bytes(mv)[0] == name_transaction()[0]);
            assert(false);
        }
        MessageV::GetMemoryPool { .. } => {
            assert(name_bytes(mv)[0] == name_transaction()[0]);
            assert(false);
        }
        MessageV::MemoryPool { .. } => {
            assert(name_bytes(mv)[0] == name_transaction()[0]);
            assert(false);
        }
        MessageV::Transaction { .. } => {}
    }
}

/// Every name tag is twelve bytes long.
pub proof fn lemma_name_bytes_len(mv: MessageV)
    ensures
        name_bytes(mv).len() == 12,
{
    match mv {
        MessageV::Version { .. } => assert(name_version().len() == 12),
        MessageV::Verack { .. } => assert(name_verack().len() == 12),
        MessageV::Ping { .. } => assert(name_ping().len() == 12),
        MessageV::Pong { .. } => assert(name_pong().len() == 12),
        MessageV::GetPeers { .. } => assert(name_getpeers().len() == 12),
        MessageV::Peers { .. } => assert(name_peers().len() == 12),
        MessageV::GetBlock { .. } => assert(name_getblock().len() == 12),
        MessageV::Block { .. } => assert(name_block().len() == 12),
        MessageV::SyncBlock { .. } => assert(name_syncblock().len() == 12),
        MessageV::GetSync { .. } => assert(name_getsync().len() == 12),
        MessageV::Sync { .. } => assert(name_sync().len() == 12),
        MessageV::GetMemoryPool { .. } => assert(name_getmempool().len() == 12),
        MessageV::MemoryPool { .. } => assert(name_memorypool().len() == 12),
        MessageV::Transaction { .. } => assert(name_transaction().len() == 12),
    }
}

/// The name tag of a message is one of the fourteen known tags.
pub proof fn lemma_name_cases(mv: MessageV)
    ensures
        ({
            ||| name_bytes(mv) == name_version()
            ||| name_bytes(mv) == name_verack()
            ||| name_bytes(mv) == name_ping()
            ||| name_bytes(mv) == name_pong()
            ||| name_bytes(mv) == name_getpeers()
            ||| name_bytes(mv) == name_peers()
            ||| name_bytes(mv) == name_getblock()
            ||| name_bytes(mv) == name_block()
            ||| name_bytes(mv) == name_syncblock()
            ||| name_bytes(mv) == name_getsync()
            ||| name_bytes(mv) == name_sync()
            ||| name_bytes(mv) == name_getmempool()
            ||| name_bytes(mv) == name_memorypool()
            ||| name_bytes(mv) == name_transaction()
        }),
{
    match mv {
        MessageV::Version { .. } => {}
        MessageV::Verack { .. } => {}
        MessageV::Ping { .. } => {}
        MessageV::Pong { .. } => {}
        MessageV::GetPeers { .. } => {}
        MessageV::Peers { .. } => {}
        MessageV::GetBlock { .. } => {}
        MessageV::Block { .. } => {}
        MessageV::SyncBlock { .. } => {}
        MessageV::GetSync { .. } => {}
        MessageV::Sync { .. } => {}
        MessageV::GetMemoryPool { .. } => {}
        MessageV::MemoryPool { .. } => {}
        MessageV::Transaction { .. } => {}
    }
}

} // verus!
