//! The wire codec: framing and the byte form of every message.
//!
//! Encoding is deterministic: a well-formed message has exactly one
//! frame, given by [`crate::message::msg_bytes`]. Decoding accepts
//! exactly the frames that some well-formed message encodes to, and
//! returns that message; anything else fails with `InvalidFormat`.
//! Together with [`lemma_msg_bytes_injective`] this gives the round
//! trip: decoding an encoded message yields the original.

use vstd::prelude::*;
use crate::addr::{PeerAddress, AddrV, wf_addr, addr_bytes, push_addr, read_addr,
    lemma_addr_bytes_injective};
use crate::bytes::{u32_bytes, u64_bytes, i64_bytes, u32_of_bytes, push_u32, push_u64, push_i64,
    push_bytes, bytes_eq, copy_range, read_u32, read_u64, read_i64, lemma_u32_round_trip,
    lemma_u64_round_trip, lemma_u32_bytes_inverse, lemma_u64_bytes_inverse,
    lemma_i64_bytes_inverse};
use crate::message::{Message, MessageV, wf_msg, msg_bytes, name_bytes, payload_bytes,
    hashes_bytes, peers_bytes, pool_bytes, HASH_LEN, name_version, name_verack, name_ping,
    name_pong, name_getpeers, name_peers, name_getblock, name_block, name_syncblock, name_getsync,
    name_sync, name_getmempool, name_memorypool, name_transaction, version_tag, verack_tag,
    ping_tag, pong_tag, getpeers_tag, peers_tag, getblock_tag, block_tag, syncblock_tag,
    getsync_tag, sync_tag, getmempool_tag, memorypool_tag, transaction_tag, lemma_only_version,
    lemma_only_verack, lemma_only_ping, lemma_only_pong, lemma_only_getpeers, lemma_only_peers,
    lemma_only_getblock, lemma_only_block, lemma_only_syncblock, lemma_only_getsync,
    lemma_only_sync, lemma_only_getmempool, lemma_only_memorypool, lemma_only_transaction};

verus! {

/// Decoding failure: the bytes are no well-formed message frame.
#[derive(Debug, Clone, Copy, PartialEq, Eq)]
pub enum WireError {
    InvalidFormat,
}

/// Appending one entry extends the peer list image by that entry.
pub proof fn lemma_peers_take(l: Seq<(AddrV, i64)>, i: int)
    requires
        0 <= i < l.len(),
    ensures
        peers_bytes(l.take(i + 1)) == peers_bytes(l.take(i)) + addr_bytes(l[i].0)
            + i64_bytes(l[i].1),
{
    assert(l.take(i + 1).drop_last() =~= l.take(i));
    assert(l.take(i + 1).last() == l[i]);
}

/// Appending one hash extends the hash list image by that hash.
pub proof fn lemma_hashes_take(l: Seq<Seq<u8>>, i: int)
    requires
        0 <= i < l.len(),
    ensures
        hashes_bytes(l.take(i + 1)) == hashes_bytes(l.take(i)) + l[i],
{
    assert(l.take(i + 1).drop_last() =~= l.take(i));
    assert(l.take(i + 1).last() == l[i]);
}

/// Appending one entry extends the pool image by its length and bytes.
pub proof fn lemma_pool_take(l: Seq<Seq<u8>>, i: int)
    requires
        0 <= i < l.len(),
    ensures
        pool_bytes(l.take(i + 1)) == pool_bytes(l.take(i)) + u32_bytes(l[i].len() as u32) + l[i],
{
    assert(l.take(i + 1).drop_last() =~= l.take(i));
    assert(l.take(i + 1).last() == l[i]);
}

/// The name tag of `m`, as bytes.
pub fn name_tag_of(m: &Message) -> (r: Vec<u8>)
    ensures
        r@ == name_bytes(m@),
{
    match m {
        Message::Version { .. } => version_tag(),
        Message::Verack { .. } => verack_tag(),
        Message::Ping { .. } => ping_tag(),
        Message::Pong { .. } => pong_tag(),
        Message::GetPeers => getpeers_tag(),
        Message::Peers { .. } => peers_tag(),
        Message::GetBlock { .. } => getblock_tag(),
        Message::Block { .. } => block_tag(),
        Message::SyncBlock { .. } => syncblock_tag(),
        Message::GetSync { .. } => getsync_tag(),
        Message::Sync { .. } => sync_tag(),
        Message::GetMemoryPool => getmempool_tag(),
        Message::MemoryPool { .. } => memorypool_tag(),
        Message::Transaction { .. } => transaction_tag(),
    }
}

/// The payload bytes of `m`.
fn payload_of(m: &Message) -> (r: Vec<u8>)
    requires
        m.wf(),
    ensures
        r@ == payload_bytes(m@),
{
    let mut out: Vec<u8> = Vec::new();
    match m {
        Message::Version { version, height, nonce, timestamp, address_receiver, address_sender } => {
            push_u64(&mut out, *version);
            push_u32(&mut out, *height);
            push_u64(&mut out, *nonce);
            push_i64(&mut out, *timestamp);
            push_addr(&mut out, address_receiver);
            push_addr(&mut out, address_sender);
            assert(out@ =~= payload_bytes(m@));
        }
        Message::Verack { nonce } => {
            push_u64(&mut out, *nonce);
            assert(out@ =~= payload_bytes(m@));
        }
        Message::Ping { nonce } => {
            push_u64(&mut out, *nonce);
            assert(out@ =~= payload_bytes(m@));
        }
        Message::Pong { nonce } => {
            push_u64(&mut out, *nonce);
            assert(out@ =~= payload_bytes(m@));
        }
        Message::GetPeers => {
            assert(out@ =~= payload_bytes(m@));
        }
        Message::Peers { addresses } => {
            let ghost av = m@->Peers_addresses;
            let count = addresses.len();
            push_u32(&mut out, count as u32);
            let mut j: usize = 0;
            while j < count
                invariant
                    j <= count,
                    count == addresses@.len(),
                    av == addresses@.map_values(|p: (PeerAddress, i64)| (p.0@, p.1)),
                    av.len() == count,
                    av.len() < 0x1_0000_0000,
                    forall|k: int| 0 <= k < av.len() ==> wf_addr(#[trigger] av[k].0),
                    out@ == u32_bytes(av.len() as u32) + peers_bytes(av.take(j as int)),
                decreases count - j,
            {
                let entry = &addresses[j];
                proof {
                    assert(av[j as int] == (addresses@[j as int].0@, addresses@[j as int].1));
                    assert(wf_addr(av[j as int].0));
                    assert(entry.0@ == av[j as int].0);
                }
                push_addr(&mut out, &entry.0);
                push_i64(&mut out, entry.1);
                proof {
                    lemma_peers_take(av, j as int);
                    assert(out@ =~= u32_bytes(av.len() as u32) + peers_bytes(av.take(j + 1)));
                }
                j = j + 1;
            }
            proof {
                assert(av.take(count as int) =~= av);
            }
        }
        Message::GetBlock { hash } => {
            push_bytes(&mut out, hash);
            assert(out@ =~= payload_bytes(m@));
        }
        Message::Block { data } => {
            push_u32(&mut out, data.len() as u32);
            push_bytes(&mut out, data);
            assert(out@ =~= payload_bytes(m@));
        }
        Message::SyncBlock { data } => {
            push_u32(&mut out, data.len() as u32);
            push_bytes(&mut out, data);
            assert(out@ =~= payload_bytes(m@));
        }
        Message::GetSync { locator } => {
            push_hash_list(&mut out, locator, Ghost(m@->GetSync_locator));
        }
        Message::Sync { hashes } => {
            push_hash_list(&mut out, hashes, Ghost(m@->Sync_hashes));
        }
        Message::GetMemoryPool => {
            assert(out@ =~= payload_bytes(m@));
        }
        Message::MemoryPool { transactions } => {
            let ghost tv = m@->MemoryPool_transactions;
            let count = transactions.len();
            push_u32(&mut out, count as u32);
            let mut j: usize = 0;
            while j < count
                invariant
                    j <= count,
                    count == transactions@.len(),
                    tv == transactions@.map_values(|t: Vec<u8>| t@),
                    tv.len() == count,
                    tv.len() < 0x1_0000_0000,
                    forall|k: int| 0 <= k < tv.len() ==> (#[trigger] tv[k]).len() < 0x1_0000_0000,
                    out@ == u32_bytes(tv.len() as u32) + pool_bytes(tv.take(j as int)),
                decreases count - j,
            {
                let item = &transactions[j];
                proof {
                    assert(tv[j as int] == transactions@[j as int]@);
                }
                push_u32(&mut out, item.len() as u32);
                push_bytes(&mut out, item);
                proof {
                    lemma_pool_take(tv, j as int);
                    assert(out@ =~= u32_bytes(tv.len() as u32) + pool_bytes(tv.take(j + 1)));
                }
                j = j + 1;
            }
            proof {
                assert(tv.take(count as int) =~= tv);
            }
        }
        Message::Transaction { data } => {
            push_u32(&mut out, data.len() as u32);
            push_bytes(&mut out, data);
            assert(out@ =~= payload_bytes(m@));
        }
    }
    out
}

/// Appends a count-prefixed list of fixed-width hashes.
fn push_hash_list(out: &mut Vec<u8>, hashes: &Vec<Vec<u8>>, image: Ghost<Seq<Seq<u8>>>)
    requires
        image@ == hashes@.map_values(|h: Vec<u8>| h@),
        image@.len() < 0x1_0000_0000,
        forall|k: int| 0 <= k < image@.len() ==> (#[trigger] image@[k]).len() == HASH_LEN,
    ensures
        final(out)@ == old(out)@ + u32_bytes(image@.len() as u32) + hashes_bytes(image@),
{
    let ghost hv = image@;
    let count = hashes.len();
    push_u32(out, count as u32);
    let mut j: usize = 0;
    while j < count
        invariant
            j <= count,
            count == hashes@.len(),
            hv == hashes@.map_values(|h: Vec<u8>| h@),
            hv.len() == count,
            out@ == old(out)@ + u32_bytes(hv.len() as u32) + hashes_bytes(hv.take(j as int)),
        decreases count - j,
    {
        let item = &hashes[j];
        proof {
            assert(hv[j as int] == hashes@[j as int]@);
        }
        push_bytes(out, item);
        proof {
            lemma_hashes_take(hv, j as int);
            assert(out@ =~= old(out)@ + u32_bytes(hv.len() as u32) + hashes_bytes(
                hv.take(j + 1)));
        }
        j = j + 1;
    }
    proof {
        assert(hv.take(count as int) =~= hv);
    }
}

/// Encodes `m` into its unique wire frame.
pub fn encode(m: &Message) -> (r: Vec<u8>)
    requires
        m.wf(),
    ensures
        r@ == msg_bytes(m@),
{
    let payload = payload_of(m);
    let mut out = name_tag_of(m);
    push_u32(&mut out, payload.len() as u32);
    push_bytes(&mut out, &payload);
    assert(out@ =~= msg_bytes(m@));
    out
}

/// What framing forces of any encoded message: its length, and where
/// the name, length field and payload lie.
pub proof fn lemma_frame(mv: MessageV, b: Seq<u8>)
    requires
        wf_msg(mv),
        b == msg_bytes(mv),
    ensures
        b.len() == 16 + payload_bytes(mv).len(),
        b.subrange(0, 12) == name_bytes(mv),
        u32_of_bytes(b.subrange(12, 16)) == payload_bytes(mv).len(),
        b.subrange(16, b.len() as int) == payload_bytes(mv),
{
    crate::message::lemma_name_bytes_len(mv);
    let pl = payload_bytes(mv);
    assert(b.subrange(0, 12) =~= name_bytes(mv));
    assert(b.subrange(12, 16) =~= u32_bytes(pl.len() as u32));
    assert(b.subrange(16, b.len() as int) =~= pl);
    lemma_u32_round_trip(pl.len() as u32);
}

/// Bytes whose three frame parts are those of `mv` are its frame.
pub proof fn lemma_assemble(b: Seq<u8>, mv: MessageV)
    requires
        wf_msg(mv),
        b.len() == 16 + payload_bytes(mv).len(),
        b.subrange(0, 12) == name_bytes(mv),
        b.subrange(12, 16) == u32_bytes(payload_bytes(mv).len() as u32),
        b.subrange(16, b.len() as int) == payload_bytes(mv),
    ensures
        b == msg_bytes(mv),
{
    crate::message::lemma_name_bytes_len(mv);
    assert(b =~= b.subrange(0, 12) + b.subrange(12, 16) + b.subrange(16, b.len() as int));
}

/// The facts every payload parser starts from: the frame is long
/// enough, carries this name, and its length field is consistent.
pub open spec fn framed(b: Seq<u8>, name: Seq<u8>) -> bool {
    &&& b.len() >= 16
    &&& b.subrange(0, 12) == name
    &&& u32_of_bytes(b.subrange(12, 16)) == b.len() - 16
}

/// No well-formed message encodes to `b`.
pub open spec fn no_msg(b: Seq<u8>) -> bool {
    forall|mv: MessageV| wf_msg(mv) ==> b != msg_bytes(mv)
}

/// What decoding promises: a returned message is well formed and `b`
/// is its frame; a failure means no well-formed message has frame `b`.
pub open spec fn decode_post(b: Seq<u8>, r: Result<Message, WireError>) -> bool {
    match r {
        Ok(m) => wf_msg(m@) && b == msg_bytes(m@),
        Err(_) => no_msg(b),
    }
}

/// Parses the eight-byte nonce payload shared by the three
/// acknowledgement-style messages.
fn parse_nonce(b: &Vec<u8>) -> (r: Option<u64>)
    requires
        b@.len() >= 16,
    ensures
        match r {
            Some(nonce) => b@.len() == 24 && b@.subrange(16, 24) == u64_bytes(nonce),
            None => b@.len() != 24,
        },
{
    let n = b.len();
    if n != 24 {
        return None;
    }
    let nonce = read_u64(b, 16);
    proof {
        lemma_u64_bytes_inverse(b@.subrange(16, 24));
    }
    Some(nonce)
}

/// The payload of `mv` put back behind its frame: shared tail of every
/// successful parse.
proof fn lemma_parsed(b: Seq<u8>, mv: MessageV)
    requires
        wf_msg(mv),
        framed(b, name_bytes(mv)),
        b.subrange(16, b.len() as int) == payload_bytes(mv),
    ensures
        b == msg_bytes(mv),
{
    lemma_u32_bytes_inverse(b.subrange(12, 16));
    assert(payload_bytes(mv).len() == b.len() - 16);
    lemma_assemble(b, mv);
}

fn parse_verack(b: &Vec<u8>) -> (r: Result<Message, WireError>)
    requires
        framed(b@, name_verack()),
    ensures
        decode_post(b@, r),
{
    match parse_nonce(b) {
        Some(nonce) => {
            let m = Message::Verack { nonce };
            proof {
                assert(b@.subrange(16, b@.len() as int) =~= payload_bytes(m@));
                lemma_parsed(b@, m@);
            }
            Ok(m)
        }
        None => {
            proof {
                assert forall|mv: MessageV| wf_msg(mv) implies b@ != msg_bytes(mv) by {
                    if b@ == msg_bytes(mv) {
                        lemma_frame(mv, b@);
                        lemma_only_verack(mv);
                        assert(payload_bytes(mv).len() == 8);
                    }
                }
            }
            Err(WireError::InvalidFormat)
        }
    }
}

fn parse_ping(b: &Vec<u8>) -> (r: Result<Message, WireError>)
    requires
        framed(b@, name_ping()),
    ensures
        decode_post(b@, r),
{
    match parse_nonce(b) {
        Some(nonce) => {
            let m = Message::Ping { nonce };
            proof {
                assert(b@.subrange(16, b@.len() as int) =~= payload_bytes(m@));
                lemma_parsed(b@, m@);
            }
            Ok(m)
        }
        None => {
            proof {
                assert forall|mv: MessageV| wf_msg(mv) implies b@ != msg_bytes(mv) by {
                    if b@ == msg_bytes(mv) {
                        lemma_frame(mv, b@);
                        lemma_only_ping(mv);
                        assert(payload_bytes(mv).len() == 8);
                    }
                }
            }
            Err(WireError::InvalidFormat)
        }
    }
}

fn parse_pong(b: &Vec<u8>) -> (r: Result<Message, WireError>)
    requires
        framed(b@, name_pong()),
    ensures
        decode_post(b@, r),
{
    match parse_nonce(b) {
        Some(nonce) => {
            let m = Message::Pong { nonce };
            proof {
                assert(b@.subrange(16, b@.len() as int) =~= payload_bytes(m@));
                lemma_parsed(b@, m@);
            }
            Ok(m)
        }
        None => {
            proof {
                assert forall|mv: MessageV| wf_msg(mv) implies b@ != msg_bytes(mv) by {
                    if b@ == msg_bytes(mv) {
                        lemma_frame(mv, b@);
                        lemma_only_pong(mv);
                        assert(payload_bytes(mv).len() == 8);
                    }
                }
            }
            Err(WireError::InvalidFormat)
        }
    }
}

fn parse_getpeers(b: &Vec<u8>) -> (r: Result<Message, WireError>)
    requires
        framed(b@, name_getpeers()),
    ensures
        decode_post(b@, r),
{
    let n = b.len();
    if n != 16 {
        proof {
            assert forall|mv: MessageV| wf_msg(mv) implies b@ != msg_bytes(mv) by {
                if b@ == msg_bytes(mv) {
                    lemma_frame(mv, b@);
                    lemma_only_getpeers(mv);
                    assert(payload_bytes(mv).len() == 0);
                }
            }
        }
        return Err(WireError::InvalidFormat);
    }
    let m = Message::GetPeers;
    proof {
        assert(b@.subrange(16, 16) =~= payload_bytes(m@));
        lemma_parsed(b@, m@);
    }
    Ok(m)
}

fn parse_getmempool(b: &Vec<u8>) -> (r: Result<Message, WireError>)
    requires
        framed(b@, name_getmempool()),
    ensures
        decode_post(b@, r),
{
    let n = b.len();
    if n != 16 {
        proof {
            assert forall|mv: MessageV| wf_msg(mv) implies b@ != msg_bytes(mv) by {
                if b@ == msg_bytes(mv) {
                    lemma_frame(mv, b@);
                    lemma_only_getmempool(mv);
                    assert(payload_bytes(mv).len() == 0);
                }
            }
        }
        return Err(WireError::InvalidFormat);
    }
    let m = Message::GetMemoryPool;
    proof {
        assert(b@.subrange(16, 16) =~= payload_bytes(m@));
        lemma_parsed(b@, m@);
    }
    Ok(m)
}

fn parse_getblock(b: &Vec<u8>) -> (r: Result<Message, WireError>)
    requires
        framed(b@, name_getblock()),
    ensures
        decode_post(b@, r),
{
    let n = b.len();
    if n != 48 {
        proof {
            assert forall|mv: MessageV| wf_msg(mv) implies b@ != msg_bytes(mv) by {
                if b@ == msg_bytes(mv) {
                    lemma_frame(mv, b@);
                    lemma_only_getblock(mv);
                    assert(payload_bytes(mv).len() == 32);
                }
            }
        }
        return Err(WireError::InvalidFormat);
    }
    let hash = copy_range(b, 16, 32);
    let m = Message::GetBlock { hash };
    proof {
        assert(b@.subrange(16, b@.len() as int) =~= payload_bytes(m@));
        lemma_parsed(b@, m@);
    }
    Ok(m)
}

/// Parses a payload of the form length-then-bytes; fails exactly when
/// the tail is no such payload.
fn parse_len_data(b: &Vec<u8>) -> (r: Option<Vec<u8>>)
    requires
        b@.len() >= 16,
    ensures
        match r {
            Some(d) => {
                &&& d@.len() < 0x1_0000_0000
                &&& b@.subrange(16, b@.len() as int) == u32_bytes(d@.len() as u32) + d@
            },
            None => forall|d: Seq<u8>|
                #![trigger u32_bytes(d.len() as u32)]
                d.len() < 0x1_0000_0000 ==> b@.subrange(16, b@.len() as int) != u32_bytes(
                    d.len() as u32) + d,
        },
{
    let n = b.len();
    if n < 20 {
        proof {
            assert forall|d: Seq<u8>| #![trigger u32_bytes(d.len() as u32)]
                d.len() < 0x1_0000_0000 implies b@.subrange(16, b@.len() as int) != u32_bytes(
                d.len() as u32) + d by {
                assert(b@.subrange(16, b@.len() as int).len() < 4);
                assert((u32_bytes(d.len() as u32) + d).len() >= 4);
            }
        }
        return None;
    }
    let dlen = read_u32(b, 16);
    if (dlen as u64) != ((n - 20) as u64) {
        proof {
            assert forall|d: Seq<u8>| #![trigger u32_bytes(d.len() as u32)]
                d.len() < 0x1_0000_0000 implies b@.subrange(16, b@.len() as int) != u32_bytes(
                d.len() as u32) + d by {
                let t = b@.subrange(16, b@.len() as int);
                if t == u32_bytes(d.len() as u32) + d {
                    assert(t.len() == 4 + d.len());
                    assert(d.len() == b@.len() - 20);
                    assert(t.subrange(0, 4) =~= u32_bytes(d.len() as u32));
                    assert(b@.subrange(16, 20) =~= t.subrange(0, 4));
                    lemma_u32_round_trip(d.len() as u32);
                    assert(u32_of_bytes(b@.subrange(16, 20)) == d.len() as u32);
                    assert(dlen == d.len() as u32);
                    assert(false);
                }
            }
        }
        return None;
    }
    let d = copy_range(b, 20, n - 20);
    proof {
        let t = b@.subrange(16, b@.len() as int);
        lemma_u32_bytes_inverse(b@.subrange(16, 20));
        assert(t =~= u32_bytes(dlen) + d@);
    }
    Some(d)
}

fn parse_block(b: &Vec<u8>) -> (r: Result<Message, WireError>)
    requires
        framed(b@, name_block()),
    ensures
        decode_post(b@, r),
{
    match parse_len_data(b) {
        Some(data) => {
            let m = Message::Block { data };
            proof {
                lemma_parsed(b@, m@);
            }
            Ok(m)
        }
        None => {
            proof {
                assert forall|mv: MessageV| wf_msg(mv) implies b@ != msg_bytes(mv) by {
                    if b@ == msg_bytes(mv) {
                        lemma_frame(mv, b@);
                        lemma_only_block(mv);
                    }
                }
            }
            Err(WireError::InvalidFormat)
        }
    }
}

fn parse_syncblock(b: &Vec<u8>) -> (r: Result<Message, WireError>)
    requires
        framed(b@, name_syncblock()),
    ensures
        decode_post(b@, r),
{
    match parse_len_data(b) {
        Some(data) => {
            let m = Message::SyncBlock { data };
            proof {
                lemma_parsed(b@, m@);
            }
            Ok(m)
        }
        None => {
            proof {
                assert forall|mv: MessageV| wf_msg(mv) implies b@ != msg_bytes(mv) by {
                    if b@ == msg_bytes(mv) {
                        lemma_frame(mv, b@);
                        lemma_only_syncblock(mv);
                    }
                }
            }
            Err(WireError::InvalidFormat)
        }
    }
}

fn parse_transaction(b: &Vec<u8>) -> (r: Result<Message, WireError>)
    requires
        framed(b@, name_transaction()),
    ensures
        decode_post(b@, r),
{
    match parse_len_data(b) {
        Some(data) => {
            let m = Message::Transaction { data };
            proof {
                lemma_parsed(b@, m@);
            }
            Ok(m)
        }
        None => {
            proof {
                assert forall|mv: MessageV| wf_msg(mv) implies b@ != msg_bytes(mv) by {
                    if b@ == msg_bytes(mv) {
                        lemma_frame(mv, b@);
                        lemma_only_transaction(mv);
                    }
                }
            }
            Err(WireError::InvalidFormat)
        }
    }
}

#[verifier::rlimit(50)]
fn parse_version(b: &Vec<u8>) -> (r: Result<Message, WireError>)
    requires
        framed(b@, name_version()),
    ensures
        decode_post(b@, r),
{
    let n = b.len();
    if n != 82 {
        proof {
            assert forall|mv: MessageV| wf_msg(mv) implies b@ != msg_bytes(mv) by {
                if b@ == msg_bytes(mv) {
                    lemma_frame(mv, b@);
                    lemma_only_version(mv);
                    lemma_version_layout(mv);
                }
            }
        }
        return Err(WireError::InvalidFormat);
    }
    let version = read_u64(b, 16);
    let height = read_u32(b, 24);
    let nonce = read_u64(b, 28);
    let timestamp = read_i64(b, 36);
    let address_receiver = match read_addr(b, 44) {
        Some(a) => a,
        None => {
            proof {
                assert forall|mv: MessageV| wf_msg(mv) implies b@ != msg_bytes(mv) by {
                    if b@ == msg_bytes(mv) {
                        lemma_frame(mv, b@);
                        lemma_only_version(mv);
                        lemma_version_layout(mv);
                        assert(b@.subrange(44, 63) =~= payload_bytes(mv).subrange(28, 47));
                    }
                }
            }
            return Err(WireError::InvalidFormat);
        }
    };
    let address_sender = match read_addr(b, 63) {
        Some(a) => a,
        None => {
            proof {
                assert forall|mv: MessageV| wf_msg(mv) implies b@ != msg_bytes(mv) by {
                    if b@ == msg_bytes(mv) {
                        lemma_frame(mv, b@);
                        lemma_only_version(mv);
                        lemma_version_layout(mv);
                        assert(b@.subrange(63, 82) =~= payload_bytes(mv).subrange(47, 66));
                    }
                }
            }
            return Err(WireError::InvalidFormat);
        }
    };
    let m = Message::Version { version, height, nonce, timestamp, address_receiver, address_sender };
    proof {
        lemma_u64_bytes_inverse(b@.subrange(16, 24));
        lemma_u32_bytes_inverse(b@.subrange(24, 28));
        lemma_u64_bytes_inverse(b@.subrange(28, 36));
        lemma_i64_bytes_inverse(b@.subrange(36, 44));
        assert(b@.subrange(16, b@.len() as int) =~= payload_bytes(m@));
        lemma_parsed(b@, m@);
    }
    Ok(m)
}

/// Where each field of a version payload lies.
proof fn lemma_version_layout(mv: MessageV)
    requires
        wf_msg(mv),
        mv is Version,
    ensures
        payload_bytes(mv).len() == 66,
        payload_bytes(mv).subrange(0, 8) == u64_bytes(mv->Version_version),
        payload_bytes(mv).subrange(8, 12) == u32_bytes(mv->Version_height),
        payload_bytes(mv).subrange(12, 20) == u64_bytes(mv->Version_nonce),
        payload_bytes(mv).subrange(20, 28) == i64_bytes(mv->Version_timestamp),
        payload_bytes(mv).subrange(28, 47) == addr_bytes(mv->Version_address_receiver),
        payload_bytes(mv).subrange(47, 66) == addr_bytes(mv->Version_address_sender),
{
    let p = payload_bytes(mv);
    assert(addr_bytes(mv->Version_address_receiver).len() == 19);
    assert(addr_bytes(mv->Version_address_sender).len() == 19);
    assert(p.subrange(0, 8) =~= u64_bytes(mv->Version_version));
    assert(p.subrange(8, 12) =~= u32_bytes(mv->Version_height));
    assert(p.subrange(12, 20) =~= u64_bytes(mv->Version_nonce));
    assert(p.subrange(20, 28) =~= i64_bytes(mv->Version_timestamp));
    assert(p.subrange(28, 47) =~= addr_bytes(mv->Version_address_receiver));
    assert(p.subrange(47, 66) =~= addr_bytes(mv->Version_address_sender));
}

/// Fixed-width hash lists occupy exactly 32 bytes per hash.
pub proof fn lemma_hashes_len(l: Seq<Seq<u8>>)
    requires
        forall|k: int| 0 <= k < l.len() ==> (#[trigger] l[k]).len() == HASH_LEN,
    ensures
        hashes_bytes(l).len() == 32 * l.len(),
    decreases l.len(),
{
    if l.len() > 0 {
        lemma_hashes_len(l.drop_last());
    }
}

/// Where hash `j` lies inside the hash list image.
pub proof fn lemma_hashes_index(l: Seq<Seq<u8>>, j: int)
    requires
        forall|k: int| 0 <= k < l.len() ==> (#[trigger] l[k]).len() == HASH_LEN,
        0 <= j < l.len(),
    ensures
        hashes_bytes(l).subrange(32 * j, 32 * j + 32) == l[j],
    decreases l.len(),
{
    lemma_hashes_len(l);
    lemma_hashes_len(l.drop_last());
    if j == l.len() - 1 {
        assert(hashes_bytes(l).subrange(32 * j, 32 * j + 32) =~= l[j]);
    } else {
        lemma_hashes_index(l.drop_last(), j);
        assert(hashes_bytes(l).subrange(32 * j, 32 * j + 32) =~= hashes_bytes(
            l.drop_last()).subrange(32 * j, 32 * j + 32));
    }
}

/// Peer entries occupy exactly 27 bytes each.
pub proof fn lemma_peers_len(l: Seq<(AddrV, i64)>)
    requires
        forall|k: int| 0 <= k < l.len() ==> wf_addr(#[trigger] l[k].0),
    ensures
        peers_bytes(l).len() == 27 * l.len(),
    decreases l.len(),
{
    if l.len() > 0 {
        lemma_peers_len(l.drop_last());
    }
}

/// Where entry `j` lies inside the peer list image.
pub proof fn lemma_peers_index(l: Seq<(AddrV, i64)>, j: int)
    requires
        forall|k: int| 0 <= k < l.len() ==> wf_addr(#[trigger] l[k].0),
        0 <= j < l.len(),
    ensures
        peers_bytes(l).subrange(27 * j, 27 * j + 19) == addr_bytes(l[j].0),
        peers_bytes(l).subrange(27 * j + 19, 27 * j + 27) == i64_bytes(l[j].1),
    decreases l.len(),
{
    lemma_peers_len(l);
    lemma_peers_len(l.drop_last());
    if j == l.len() - 1 {
        assert(peers_bytes(l).subrange(27 * j, 27 * j + 19) =~= addr_bytes(l[j].0));
        assert(peers_bytes(l).subrange(27 * j + 19, 27 * j + 27) =~= i64_bytes(l[j].1));
    } else {
        lemma_peers_index(l.drop_last(), j);
        assert(peers_bytes(l).subrange(27 * j, 27 * j + 19) =~= peers_bytes(
            l.drop_last()).subrange(27 * j, 27 * j + 19));
        assert(peers_bytes(l).subrange(27 * j + 19, 27 * j + 27) =~= peers_bytes(
            l.drop_last()).subrange(27 * j + 19, 27 * j + 27));
    }
}

/// The unique reading of `count` length-prefixed items from `t`,
/// consuming `t` exactly.
pub open spec fn parse_pool_items(t: Seq<u8>, count: nat) -> Option<Seq<Seq<u8>>>
    decreases count,
{
    if count == 0 {
        if t.len() == 0 {
            Some(Seq::empty())
        } else {
            None
        }
    } else if t.len() < 4 {
        None
    } else {
        let il = u32_of_bytes(t.subrange(0, 4)) as int;
        if t.len() - 4 < il {
            None
        } else {
            match parse_pool_items(t.subrange(4 + il, t.len() as int), (count - 1) as nat) {
                Some(l) => Some(seq![t.subrange(4, 4 + il)] + l),
                None => None,
            }
        }
    }
}

/// The pool image decomposes at its first entry.
pub proof fn lemma_pool_head(l: Seq<Seq<u8>>)
    requires
        l.len() > 0,
    ensures
        pool_bytes(l) == u32_bytes(l[0].len() as u32) + l[0] + pool_bytes(l.drop_first()),
    decreases l.len(),
{
    if l.len() == 1 {
        assert(l.drop_last() =~= Seq::<Seq<u8>>::empty());
        assert(l.drop_first() =~= Seq::<Seq<u8>>::empty());
        assert(pool_bytes(l) =~= u32_bytes(l[0].len() as u32) + l[0] + pool_bytes(l.drop_first()));
    } else {
        let m = l.drop_last();
        lemma_pool_head(m);
        assert(l.drop_first().drop_last() =~= m.drop_first());
        assert(l.drop_first().last() == l.last());
        assert(pool_bytes(l.drop_first()) == pool_bytes(m.drop_first()) + u32_bytes(
            l.last().len() as u32) + l.last());
        assert(pool_bytes(l) =~= u32_bytes(l[0].len() as u32) + l[0] + pool_bytes(l.drop_first()));
    }
}

/// Reading the pool image of `l` gives back `l`.
pub proof fn lemma_parse_pool_complete(l: Seq<Seq<u8>>)
    requires
        forall|k: int| 0 <= k < l.len() ==> (#[trigger] l[k]).len() < 0x1_0000_0000,
    ensures
        parse_pool_items(pool_bytes(l), l.len()) == Some(l),
    decreases l.len(),
{
    if l.len() == 0 {
        assert(pool_bytes(l).len() == 0);
        assert(parse_pool_items(pool_bytes(l), 0) == Some(Seq::<Seq<u8>>::empty()));
        assert(l =~= Seq::<Seq<u8>>::empty());
    } else {
        lemma_pool_head(l);
        let t = pool_bytes(l);
        let rest = pool_bytes(l.drop_first());
        assert(t.subrange(0, 4) =~= u32_bytes(l[0].len() as u32));
        lemma_u32_round_trip(l[0].len() as u32);
        let il = l[0].len() as int;
        assert(t.len() == 4 + il + rest.len());
        assert(t.subrange(4, 4 + il) =~= l[0]);
        assert(t.subrange(4 + il, t.len() as int) =~= rest);
        assert(forall|k: int| 0 <= k < l.drop_first().len()
            ==> (#[trigger] l.drop_first()[k]).len() < 0x1_0000_0000);
        lemma_parse_pool_complete(l.drop_first());
        assert(seq![l[0]] + l.drop_first() =~= l);
    }
}

fn parse_peers(b: &Vec<u8>) -> (r: Result<Message, WireError>)
    requires
        framed(b@, name_peers()),
    ensures
        decode_post(b@, r),
{
    let n = b.len();
    if n < 20 {
        proof {
            assert forall|mv: MessageV| wf_msg(mv) implies b@ != msg_bytes(mv) by {
                if b@ == msg_bytes(mv) {
                    lemma_frame(mv, b@);
                    lemma_only_peers(mv);
                    assert(payload_bytes(mv).len() >= 4);
                }
            }
        }
        return Err(WireError::InvalidFormat);
    }
    let count = read_u32(b, 16);
    if ((n - 20) as u64) != (count as u64) * 27 {
        proof {
            assert forall|mv: MessageV| wf_msg(mv) implies b@ != msg_bytes(mv) by {
                if b@ == msg_bytes(mv) {
                    lemma_frame(mv, b@);
                    lemma_only_peers(mv);
                    let lm = mv->Peers_addresses;
                    lemma_peers_len(lm);
                    assert(b@.subrange(16, 20) =~= u32_bytes(lm.len() as u32));
                    lemma_u32_round_trip(lm.len() as u32);
                }
            }
        }
        return Err(WireError::InvalidFormat);
    }
    let count_us = count as usize;
    let mut items: Vec<(PeerAddress, i64)> = Vec::new();
    let mut j: usize = 0;
    while j < count_us
        invariant
            framed(b@, name_peers()),
            j <= count_us,
            n == b@.len(),
            n >= 20,
            count_us == count,
            n - 20 == (count as int) * 27,
            items@.len() == j,
            forall|k: int| 0 <= k < j ==> wf_addr((#[trigger] items@[k]).0@),
            peers_bytes(items@.map_values(|p: (PeerAddress, i64)| (p.0@, p.1))) == b@.subrange(
                20, 20 + 27 * j),
        decreases count_us - j,
    {
        let ghost pv = items@.map_values(|p: (PeerAddress, i64)| (p.0@, p.1));
        let off = 20 + 27 * j;
        let a = match read_addr(b, off) {
            Some(a) => a,
            None => {
                proof {
                    assert forall|mv: MessageV| wf_msg(mv) implies b@ != msg_bytes(mv) by {
                        if b@ == msg_bytes(mv) {
                            lemma_frame(mv, b@);
                            lemma_only_peers(mv);
                            let lm = mv->Peers_addresses;
                            lemma_peers_len(lm);
                            assert(b@.subrange(16, 20) =~= u32_bytes(lm.len() as u32));
                            lemma_u32_round_trip(lm.len() as u32);
                            assert(lm.len() == count);
                            lemma_peers_index(lm, j as int);
                            assert(b@.subrange(off as int, off + 19) =~= payload_bytes(
                                mv).subrange(4 + 27 * j, 4 + 27 * j + 19));
                            assert(payload_bytes(mv).subrange(4 + 27 * j, 4 + 27 * j + 19)
                                =~= peers_bytes(lm).subrange(27 * j, 27 * j + 19));
                            assert(wf_addr(lm[j as int].0));
                        }
                    }
                }
                return Err(WireError::InvalidFormat);
            }
        };
        let ts = read_i64(b, off + 19);
        items.push((a, ts));
        proof {
            let pv2 = items@.map_values(|p: (PeerAddress, i64)| (p.0@, p.1));
            assert(pv2.drop_last() =~= pv);
            assert(pv2.last() == (a@, ts));
            crate::bytes::lemma_i64_bytes_inverse(b@.subrange(off + 19, off + 27));
            assert(peers_bytes(pv2) =~= b@.subrange(20, 20 + 27 * (j + 1)));
        }
        j = j + 1;
    }
    let m = Message::Peers { addresses: items };
    proof {
        let pv = items@.map_values(|p: (PeerAddress, i64)| (p.0@, p.1));
        assert(pv.len() == count);
        lemma_u32_bytes_inverse(b@.subrange(16, 20));
        assert(b@.subrange(16, n as int) =~= u32_bytes(count) + peers_bytes(pv));
        assert(b@.subrange(16, n as int) == payload_bytes(m@));
        lemma_parsed(b@, m@);
    }
    Ok(m)
}

/// Parses a count-prefixed list of fixed-width hashes; fails exactly
/// when the tail is no such list.
fn parse_hashes_payload(b: &Vec<u8>) -> (r: Option<Vec<Vec<u8>>>)
    requires
        b@.len() >= 16,
        u32_of_bytes(b@.subrange(12, 16)) == b@.len() - 16,
    ensures
        match r {
            Some(hs) => {
                &&& hs@.len() < 0x1_0000_0000
                &&& forall|k: int| 0 <= k < hs@.len() ==> (#[trigger] hs@[k])@.len() == HASH_LEN
                &&& b@.subrange(16, b@.len() as int) == u32_bytes(hs@.len() as u32)
                    + hashes_bytes(hs@.map_values(|h: Vec<u8>| h@))
            },
            None => forall|l: Seq<Seq<u8>>|
                #![trigger hashes_bytes(l)]
                l.len() < 0x1_0000_0000 && (forall|k: int| 0 <= k < l.len()
                    ==> (#[trigger] l[k]).len() == HASH_LEN) ==> b@.subrange(16,
                    b@.len() as int) != u32_bytes(l.len() as u32) + hashes_bytes(l),
        },
{
    let n = b.len();
    if n < 20 {
        proof {
            assert forall|l: Seq<Seq<u8>>| #![trigger hashes_bytes(l)]
                l.len() < 0x1_0000_0000 && (forall|k: int| 0 <= k < l.len()
                    ==> (#[trigger] l[k]).len() == HASH_LEN) implies b@.subrange(16,
                    b@.len() as int) != u32_bytes(l.len() as u32) + hashes_bytes(l) by {
                assert((u32_bytes(l.len() as u32) + hashes_bytes(l)).len() >= 4);
                assert(b@.subrange(16, b@.len() as int).len() < 4);
            }
        }
        return None;
    }
    let count = read_u32(b, 16);
    if ((n - 20) as u64) != (count as u64) * 32 {
        proof {
            assert forall|l: Seq<Seq<u8>>| #![trigger hashes_bytes(l)]
                l.len() < 0x1_0000_0000 && (forall|k: int| 0 <= k < l.len()
                    ==> (#[trigger] l[k]).len() == HASH_LEN) implies b@.subrange(16,
                    b@.len() as int) != u32_bytes(l.len() as u32) + hashes_bytes(l) by {
                let t = b@.subrange(16, b@.len() as int);
                if t == u32_bytes(l.len() as u32) + hashes_bytes(l) {
                    lemma_hashes_len(l);
                    assert(t.len() == 4 + 32 * l.len());
                    assert(t.subrange(0, 4) =~= u32_bytes(l.len() as u32));
                    assert(b@.subrange(16, 20) =~= t.subrange(0, 4));
                    lemma_u32_round_trip(l.len() as u32);
                    assert(u32_of_bytes(b@.subrange(16, 20)) == l.len() as u32);
                    assert(count as int == l.len());
                    assert(n as int - 20 == 32 * (count as int));
                    assert(false);
                }
            }
        }
        return None;
    }
    let count_us = count as usize;
    let mut items: Vec<Vec<u8>> = Vec::new();
    let mut j: usize = 0;
    while j < count_us
        invariant
            j <= count_us,
            n == b@.len(),
            n >= 20,
            count_us == count,
            n - 20 == (count as int) * 32,
            items@.len() == j,
            forall|k: int| 0 <= k < j ==> (#[trigger] items@[k])@.len() == HASH_LEN,
            hashes_bytes(items@.map_values(|h: Vec<u8>| h@)) == b@.subrange(20, 20 + 32 * j),
        decreases count_us - j,
    {
        let ghost hv = items@.map_values(|h: Vec<u8>| h@);
        let off = 20 + 32 * j;
        let h = copy_range(b, off, 32);
        items.push(h);
        proof {
            let hv2 = items@.map_values(|h: Vec<u8>| h@);
            assert(hv2.drop_last() =~= hv);
            assert(hashes_bytes(hv2) =~= b@.subrange(20, 20 + 32 * (j + 1)));
        }
        j = j + 1;
    }
    proof {
        let hv = items@.map_values(|h: Vec<u8>| h@);
        lemma_u32_bytes_inverse(b@.subrange(16, 20));
        assert(b@.subrange(16, n as int) =~= u32_bytes(count) + hashes_bytes(hv));
        assert(hv.len() == count);
    }
    Some(items)
}

fn parse_getsync(b: &Vec<u8>) -> (r: Result<Message, WireError>)
    requires
        framed(b@, name_getsync()),
    ensures
        decode_post(b@, r),
{
    match parse_hashes_payload(b) {
        Some(locator) => {
            let m = Message::GetSync { locator };
            proof {
                lemma_parsed(b@, m@);
            }
            Ok(m)
        }
        None => {
            proof {
                assert forall|mv: MessageV| wf_msg(mv) implies b@ != msg_bytes(mv) by {
                    if b@ == msg_bytes(mv) {
                        lemma_frame(mv, b@);
                        lemma_only_getsync(mv);
                        assert(hashes_bytes(mv->GetSync_locator) == hashes_bytes(
                            mv->GetSync_locator));
                    }
                }
            }
            Err(WireError::InvalidFormat)
        }
    }
}

fn parse_sync(b: &Vec<u8>) -> (r: Result<Message, WireError>)
    requires
        framed(b@, name_sync()),
    ensures
        decode_post(b@, r),
{
    match parse_hashes_payload(b) {
        Some(hashes) => {
            let m = Message::Sync { hashes };
            proof {
                lemma_parsed(b@, m@);
            }
            Ok(m)
        }
        None => {
            proof {
                assert forall|mv: MessageV| wf_msg(mv) implies b@ != msg_bytes(mv) by {
                    if b@ == msg_bytes(mv) {
                        lemma_frame(mv, b@);
                        lemma_only_sync(mv);
                        assert(hashes_bytes(mv->Sync_hashes) == hashes_bytes(mv->Sync_hashes));
                    }
                }
            }
            Err(WireError::InvalidFormat)
        }
    }
}

fn parse_mempool(b: &Vec<u8>) -> (r: Result<Message, WireError>)
    requires
        framed(b@, name_memorypool()),
    ensures
        decode_post(b@, r),
{
    let n = b.len();
    if n < 20 {
        proof {
            assert forall|mv: MessageV| wf_msg(mv) implies b@ != msg_bytes(mv) by {
                if b@ == msg_bytes(mv) {
                    lemma_frame(mv, b@);
                    lemma_only_memorypool(mv);
                    assert(payload_bytes(mv).len() >= 4);
                }
            }
        }
        return Err(WireError::InvalidFormat);
    }
    let count = read_u32(b, 16);
    let mut items: Vec<Vec<u8>> = Vec::new();
    let mut off: usize = 20;
    let mut j: u32 = 0;
    proof {
        match parse_pool_items(b@.subrange(20, n as int), count as nat) {
            Some(l2) => {
                assert(Seq::<Seq<u8>>::empty() + l2 =~= l2);
                assert(items@.map_values(|t: Vec<u8>| t@) =~= Seq::<Seq<u8>>::empty());
            }
            None => {}
        }
        assert(pool_bytes(items@.map_values(|t: Vec<u8>| t@)) =~= b@.subrange(20, 20));
    }
    while j < count
        invariant
            framed(b@, name_memorypool()),
            count == u32_of_bytes(b@.subrange(16, 20)),
            j <= count,
            n == b@.len(),
            n >= 20,
            20 <= off <= n,
            items@.len() == j,
            forall|k: int| 0 <= k < j ==> (#[trigger] items@[k])@.len() < 0x1_0000_0000,
            pool_bytes(items@.map_values(|t: Vec<u8>| t@)) == b@.subrange(20, off as int),
            parse_pool_items(b@.subrange(20, n as int), count as nat) == (match parse_pool_items(
                b@.subrange(off as int, n as int), (count - j) as nat) {
                Some(l2) => Some(items@.map_values(|t: Vec<u8>| t@) + l2),
                None => None::<Seq<Seq<u8>>>,
            }),
        decreases count - j,
    {
        let ghost iv = items@.map_values(|t: Vec<u8>| t@);
        let ghost t_old = b@.subrange(off as int, n as int);
        if n - off < 4 {
            proof {
                assert(t_old.len() < 4);
                assert(parse_pool_items(t_old, (count - j) as nat) is None);
                pool_mismatch(b@, count, n as int);
            }
            return Err(WireError::InvalidFormat);
        }
        let ilen = read_u32(b, off);
        proof {
            assert(t_old.subrange(0, 4) =~= b@.subrange(off as int, off + 4));
        }
        if (((n - off) - 4) as u64) < (ilen as u64) {
            proof {
                assert(parse_pool_items(t_old, (count - j) as nat) is None);
                pool_mismatch(b@, count, n as int);
            }
            return Err(WireError::InvalidFormat);
        }
        let item = copy_range(b, off + 4, ilen as usize);
        items.push(item);
        proof {
            let iv2 = items@.map_values(|t: Vec<u8>| t@);
            assert(iv2.drop_last() =~= iv);
            assert(iv2.last() == item@);
            lemma_u32_bytes_inverse(b@.subrange(off as int, off + 4));
            assert(item@.len() == ilen);
            assert(u32_bytes(item@.len() as u32) == b@.subrange(off as int, off + 4));
            assert(pool_bytes(iv2) =~= b@.subrange(20, off + 4 + ilen));
            let t_new = b@.subrange(off + 4 + ilen, n as int);
            assert(t_old.subrange(4, 4 + ilen) =~= item@);
            assert(t_old.subrange(4 + ilen, t_old.len() as int) =~= t_new);
            assert(parse_pool_items(t_old, (count - j) as nat) == (match parse_pool_items(t_new,
                (count - j - 1) as nat) {
                Some(l3) => Some(seq![item@] + l3),
                None => None::<Seq<Seq<u8>>>,
            }));
            match parse_pool_items(t_new, (count - j - 1) as nat) {
                Some(l3) => {
                    assert(iv + (seq![item@] + l3) =~= iv2 + l3);
                }
                None => {}
            }
        }
        off = off + 4 + (ilen as usize);
        j = j + 1;
    }
    if off != n {
        proof {
            assert(b@.subrange(off as int, n as int).len() > 0);
            assert(parse_pool_items(b@.subrange(off as int, n as int), 0) is None);
            pool_mismatch(b@, count, n as int);
        }
        return Err(WireError::InvalidFormat);
    }
    let m = Message::MemoryPool { transactions: items };
    proof {
        let iv = items@.map_values(|t: Vec<u8>| t@);
        assert(iv.len() == count);
        lemma_u32_bytes_inverse(b@.subrange(16, 20));
        assert(b@.subrange(16, n as int) =~= u32_bytes(count) + pool_bytes(iv));
        assert(b@.subrange(16, n as int) == payload_bytes(m@));
        lemma_parsed(b@, m@);
    }
    Ok(m)
}

/// When the unique reading of the pool payload fails, no well-formed
/// pool message has this frame.
proof fn pool_mismatch(b: Seq<u8>, count: u32, n: int)
    requires
        framed(b, name_memorypool()),
        n == b.len(),
        n >= 20,
        count == u32_of_bytes(b.subrange(16, 20)),
        parse_pool_items(b.subrange(20, n), count as nat) is None,
    ensures
        no_msg(b),
{
    assert forall|mv: MessageV| wf_msg(mv) implies b != msg_bytes(mv) by {
        if b == msg_bytes(mv) {
            lemma_frame(mv, b);
            lemma_only_memorypool(mv);
            let lm = mv->MemoryPool_transactions;
            assert(b.subrange(16, 20) =~= u32_bytes(lm.len() as u32));
            lemma_u32_round_trip(lm.len() as u32);
            assert(count as int == lm.len());
            assert(b.subrange(20, n) =~= pool_bytes(lm));
            lemma_parse_pool_complete(lm);
        }
    }
}

/// Decodes one frame. Returns the unique well-formed message whose
/// frame the bytes are, and `InvalidFormat` exactly when there is none:
/// on truncation, an unknown name, a wrong length field, or a payload
/// that does not spell the named message.
pub fn decode(b: &Vec<u8>) -> (r: Result<Message, WireError>)
    ensures
        decode_post(b@, r),
{
    let n = b.len();
    if n < 16 {
        proof {
            assert forall|mv: MessageV| wf_msg(mv) implies b@ != msg_bytes(mv) by {
                if b@ == msg_bytes(mv) {
                    lemma_frame(mv, b@);
                }
            }
        }
        return Err(WireError::InvalidFormat);
    }
    let plen = read_u32(b, 12);
    if (plen as u64) != ((n - 16) as u64) {
        proof {
            assert forall|mv: MessageV| wf_msg(mv) implies b@ != msg_bytes(mv) by {
                if b@ == msg_bytes(mv) {
                    lemma_frame(mv, b@);
                }
            }
        }
        return Err(WireError::InvalidFormat);
    }
    let name = copy_range(b, 0, 12);
    if bytes_eq(&name, &version_tag()) {
        parse_version(b)
    } else if bytes_eq(&name, &verack_tag()) {
        parse_verack(b)
    } else if bytes_eq(&name, &ping_tag()) {
        parse_ping(b)
    } else if bytes_eq(&name, &pong_tag()) {
        parse_pong(b)
    } else if bytes_eq(&name, &getpeers_tag()) {
        parse_getpeers(b)
    } else if bytes_eq(&name, &peers_tag()) {
        parse_peers(b)
    } else if bytes_eq(&name, &getblock_tag()) {
        parse_getblock(b)
    } else if bytes_eq(&name, &block_tag()) {
        parse_block(b)
    } else if bytes_eq(&name, &syncblock_tag()) {
        parse_syncblock(b)
    } else if bytes_eq(&name, &getsync_tag()) {
        parse_getsync(b)
    } else if bytes_eq(&name, &sync_tag()) {
        parse_sync(b)
    } else if bytes_eq(&name, &getmempool_tag()) {
        parse_getmempool(b)
    } else if bytes_eq(&name, &memorypool_tag()) {
        parse_mempool(b)
    } else if bytes_eq(&name, &transaction_tag()) {
        parse_transaction(b)
    } else {
        proof {
            assert forall|mv: MessageV| wf_msg(mv) implies b@ != msg_bytes(mv) by {
                if b@ == msg_bytes(mv) {
                    lemma_frame(mv, b@);
                    crate::message::lemma_name_cases(mv);
                }
            }
        }
        Err(WireError::InvalidFormat)
    }
}

/// Two signed integers with the same byte image are equal.
proof fn lemma_i64_bytes_injective(x: i64, y: i64)
    requires
        i64_bytes(x) == i64_bytes(y),
    ensures
        x == y,
{
    crate::bytes::lemma_i64_round_trip(x);
    crate::bytes::lemma_i64_round_trip(y);
}

/// A frame determines the message: encoding is injective on
/// well-formed messages. With [`decode`]'s contract this yields the
/// round trip: decoding an encoded message gives back the original.
#[verifier::rlimit(100)]
pub proof fn lemma_msg_bytes_injective(a: MessageV, b: MessageV)
    requires
        wf_msg(a),
        wf_msg(b),
        msg_bytes(a) == msg_bytes(b),
    ensures
        a == b,
{
    let s = msg_bytes(a);
    lemma_frame(a, s);
    lemma_frame(b, s);
    let pa = payload_bytes(a);
    let pb = payload_bytes(b);
    assert(pa == pb);
    match a {
        MessageV::Version { .. } => {
            lemma_only_version(b);
            lemma_version_layout(a);
            lemma_version_layout(b);
            lemma_u64_round_trip(a->Version_version);
            lemma_u64_round_trip(b->Version_version);
            lemma_u32_round_trip(a->Version_height);
            lemma_u32_round_trip(b->Version_height);
            lemma_u64_round_trip(a->Version_nonce);
            lemma_u64_round_trip(b->Version_nonce);
            lemma_i64_bytes_injective(a->Version_timestamp, b->Version_timestamp);
            lemma_addr_bytes_injective(a->Version_address_receiver, b->Version_address_receiver);
            lemma_addr_bytes_injective(a->Version_address_sender, b->Version_address_sender);
            assert(a =~= b);
        }
        MessageV::Verack { .. } => {
            lemma_only_verack(b);
            lemma_u64_round_trip(a->Verack_nonce);
            lemma_u64_round_trip(b->Verack_nonce);
            assert(a =~= b);
        }
        MessageV::Ping { .. } => {
            lemma_only_ping(b);
            lemma_u64_round_trip(a->Ping_nonce);
            lemma_u64_round_trip(b->Ping_nonce);
            assert(a =~= b);
        }
        MessageV::Pong { .. } => {
            lemma_only_pong(b);
            lemma_u64_round_trip(a->Pong_nonce);
            lemma_u64_round_trip(b->Pong_nonce);
            assert(a =~= b);
        }
        MessageV::GetPeers => {
            lemma_only_getpeers(b);
            assert(a =~= b);
        }
        MessageV::GetBlock { .. } => {
            lemma_only_getblock(b);
            assert(a =~= b);
        }
        MessageV::Block { .. } => {
            lemma_only_block(b);
            lemma_data_payload_injective(a->Block_data, b->Block_data);
            assert(a =~= b);
        }
        MessageV::SyncBlock { .. } => {
            lemma_only_syncblock(b);
            lemma_data_payload_injective(a->SyncBlock_data, b->SyncBlock_data);
            assert(a =~= b);
        }
        MessageV::Transaction { .. } => {
            lemma_only_transaction(b);
            lemma_data_payload_injective(a->Transaction_data, b->Transaction_data);
            assert(a =~= b);
        }
        MessageV::GetMemoryPool => {
            lemma_only_getmempool(b);
            assert(a =~= b);
        }
        MessageV::GetSync { .. } => {
            lemma_only_getsync(b);
            lemma_hash_list_payload_injective(a->GetSync_locator, b->GetSync_locator);
            assert(a =~= b);
        }
        MessageV::Sync { .. } => {
            lemma_only_sync(b);
            lemma_hash_list_payload_injective(a->Sync_hashes, b->Sync_hashes);
            assert(a =~= b);
        }
        MessageV::Peers { .. } => {
            lemma_only_peers(b);
            let la = a->Peers_addresses;
            let lb = b->Peers_addresses;
            assert(pa.subrange(0, 4) =~= u32_bytes(la.len() as u32));
            assert(pb.subrange(0, 4) =~= u32_bytes(lb.len() as u32));
            lemma_u32_round_trip(la.len() as u32);
            lemma_u32_round_trip(lb.len() as u32);
            assert(la.len() == lb.len());
            assert(pa.subrange(4, pa.len() as int) =~= peers_bytes(la));
            assert(pb.subrange(4, pb.len() as int) =~= peers_bytes(lb));
            assert forall|k: int| 0 <= k < la.len() implies la[k] == lb[k] by {
                lemma_peers_index(la, k);
                lemma_peers_index(lb, k);
                lemma_addr_bytes_injective(la[k].0, lb[k].0);
                lemma_i64_bytes_injective(la[k].1, lb[k].1);
            }
            assert(la =~= lb);
            assert(a =~= b);
        }
        MessageV::MemoryPool { .. } => {
            lemma_only_memorypool(b);
            let la = a->MemoryPool_transactions;
            let lb = b->MemoryPool_transactions;
            assert(pa.subrange(0, 4) =~= u32_bytes(la.len() as u32));
            assert(pb.subrange(0, 4) =~= u32_bytes(lb.len() as u32));
            lemma_u32_round_trip(la.len() as u32);
            lemma_u32_round_trip(lb.len() as u32);
            assert(la.len() == lb.len());
            assert(pa.subrange(4, pa.len() as int) =~= pool_bytes(la));
            assert(pb.subrange(4, pb.len() as int) =~= pool_bytes(lb));
            lemma_parse_pool_complete(la);
            lemma_parse_pool_complete(lb);
            assert(a =~= b);
        }
    }
}

/// A length-prefixed payload determines its bytes.
proof fn lemma_data_payload_injective(da: Seq<u8>, db: Seq<u8>)
    requires
        da.len() < 0x1_0000_0000,
        db.len() < 0x1_0000_0000,
        u32_bytes(da.len() as u32) + da == u32_bytes(db.len() as u32) + db,
    ensures
        da == db,
{
    assert(u32_bytes(da.len() as u32).len() == 4);
    assert(u32_bytes(db.len() as u32).len() == 4);
    assert((u32_bytes(da.len() as u32) + da).len() == 4 + da.len());
    assert((u32_bytes(db.len() as u32) + db).len() == 4 + db.len());
    assert(da.len() == db.len());
    assert((u32_bytes(da.len() as u32) + da).subrange(0, 4) =~= u32_bytes(da.len() as u32));
    assert((u32_bytes(db.len() as u32) + db).subrange(0, 4) =~= u32_bytes(db.len() as u32));
    assert(da =~= (u32_bytes(da.len() as u32) + da).subrange(4, 4 + da.len() as int));
    assert(db =~= (u32_bytes(db.len() as u32) + db).subrange(4, 4 + db.len() as int));
}

/// A count-prefixed hash list payload determines its hashes.
proof fn lemma_hash_list_payload_injective(la: Seq<Seq<u8>>, lb: Seq<Seq<u8>>)
    requires
        la.len() < 0x1_0000_0000,
        lb.len() < 0x1_0000_0000,
        forall|k: int| 0 <= k < la.len() ==> (#[trigger] la[k]).len() == HASH_LEN,
        forall|k: int| 0 <= k < lb.len() ==> (#[trigger] lb[k]).len() == HASH_LEN,
        u32_bytes(la.len() as u32) + hashes_bytes(la) == u32_bytes(lb.len() as u32)
            + hashes_bytes(lb),
    ensures
        la == lb,
{
    let ta = u32_bytes(la.len() as u32) + hashes_bytes(la);
    let tb = u32_bytes(lb.len() as u32) + hashes_bytes(lb);
    assert(ta.subrange(0, 4) =~= u32_bytes(la.len() as u32));
    assert(tb.subrange(0, 4) =~= u32_bytes(lb.len() as u32));
    lemma_u32_round_trip(la.len() as u32);
    lemma_u32_round_trip(lb.len() as u32);
    assert(la.len() == lb.len());
    assert(hashes_bytes(la) =~= ta.subrange(4, ta.len() as int));
    assert(hashes_bytes(lb) =~= tb.subrange(4, tb.len() as int));
    assert forall|k: int| 0 <= k < la.len() implies la[k] == lb[k] by {
        lemma_hashes_index(la, k);
        lemma_hashes_index(lb, k);
    }
    assert(la =~= lb);
}

} // verus!
