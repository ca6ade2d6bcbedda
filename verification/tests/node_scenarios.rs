use snarkos_network::addr::PeerAddress;
use snarkos_network::message::Message;
use snarkos_network::node::{Node, Action, Facts};
use snarkos_network::reader::ReaderFailures;

fn addr(a: u8, port: u16) -> PeerAddress {
    PeerAddress::new_v4(10, 0, 0, a, port)
}

fn hash(b: u8) -> Vec<u8> {
    vec![b; 32]
}

fn new_node(a: u8, max_peers: usize) -> Node {
    Node::new(addr(a, 4130), vec![], false, max_peers, 60)
}

fn version_msg(height: u32, nonce: u64, from: &PeerAddress, to: &PeerAddress) -> Message {
    Message::Version {
        version: 1,
        height,
        nonce,
        timestamp: 0,
        address_receiver: to.clone(),
        address_sender: from.clone(),
    }
}

/// Both nodes at the same height complete the handshake and neither
/// starts a sync.
#[test]
fn handshake_completes_both_sides() {
    let mut a = new_node(1, 8);
    let mut b = new_node(2, 8);
    let a_addr = addr(1, 4130);
    let b_addr = addr(2, 4130);

    // A dials B: A records its handshake and sends its version.
    let ver_a = a.send_handshake(&b_addr, 5, 111, 1000);

    // B receives the version over the new channel.
    let (peer_at_b, acts_b) = b.message_handler(&a_addr, ver_a, Facts::Chain {
        local_height: 5,
        locator: vec![],
    }, 222, 1001);
    assert_eq!(peer_at_b, a_addr);
    // B answers with a verack echoing A's nonce and its own version,
    // and does not start a sync: the heights are equal.
    assert_eq!(acts_b.len(), 2);
    let (verack_b, ver_b) = match (&acts_b[0], &acts_b[1]) {
        (
            Action::Send { to: t0, message: m0 },
            Action::Send { to: t1, message: m1 },
        ) => {
            assert_eq!(*t0, a_addr);
            assert_eq!(*t1, a_addr);
            (m0.clone(), m1.clone())
        }
        _ => panic!("expected two sends"),
    };
    assert_eq!(verack_b, Message::Verack { nonce: 111 });

    // A completes on B's verack and marks B connected.
    let nonce_a = match verack_b {
        Message::Verack { nonce } => nonce,
        _ => unreachable!(),
    };
    // A sent nonce 111, B echoed it, so A accepts and marks B connected.
    let (_, acts_a) = a.message_handler(&b_addr, Message::Verack { nonce: nonce_a }, Facts::Nothing, 0, 1002);
    assert!(a.peer_book.connected_contains(&b_addr));
    assert_eq!(acts_a.len(), 1);

    // B receives A's verack for its own version message.
    let nonce_b = match ver_b {
        Message::Version { nonce, .. } => nonce,
        _ => panic!("expected a version message"),
    };
    let (_, _) = b.message_handler(&a_addr, Message::Verack { nonce: nonce_b }, Facts::Nothing, 0, 1003);
    assert!(b.peer_book.connected_contains(&a_addr));

    // Neither side adopted a sync node.
    assert!(!a.sync_handler.is_syncing());
    assert!(!b.sync_handler.is_syncing());
}

/// A version from a peer with a longer chain makes it the sync node
/// and is answered with a chain-state request.
#[test]
fn version_from_ahead_peer_requests_sync() {
    let mut n = new_node(1, 8);
    let peer = addr(5, 9000);
    let ver = version_msg(150, 42, &peer, &addr(1, 4130));
    let (channel_addr, acts) = n.message_handler(&peer, ver, Facts::Chain {
        local_height: 100,
        locator: vec![hash(100), hash(98)],
    }, 77, 2000);
    assert_eq!(channel_addr, peer);
    assert_eq!(acts.len(), 3);
    match &acts[2] {
        Action::Send { to, message: Message::GetSync { locator } } => {
            assert_eq!(*to, peer);
            assert_eq!(locator.len(), 2);
        }
        _ => panic!("expected a chain-state request"),
    }
}

/// At the peer cap a third connection is refused.
#[test]
fn peer_cap_refuses_third_connection() {
    let mut n = new_node(1, 2);
    assert!(n.peer_book.update_connected(&addr(2, 1), 10));
    assert!(n.peer_book.update_connected(&addr(3, 1), 10));
    assert!(!n.should_accept_connection());
    assert_eq!(n.peer_book.connected_total(), 2);
}

/// Under the cap the acceptor lets a connection in.
#[test]
fn acceptor_accepts_under_cap() {
    let mut n = new_node(1, 2);
    assert!(n.should_accept_connection());
    assert!(n.peer_book.update_connected(&addr(2, 1), 10));
    assert!(n.should_accept_connection());
}

/// Ten read failures across iterations evict the peer: the synthetic
/// disconnect moves it from connected to disconnected.
#[test]
fn flaky_peer_is_evicted() {
    let mut n = new_node(1, 8);
    let peer = addr(6, 6);
    assert!(n.peer_book.update_connected(&peer, 10));
    n.store_connection(&peer);

    let mut state = ReaderFailures::new();
    let mut evicted = false;
    for _ in 0..10 {
        let mut failure = false;
        state.handle_failure(&mut failure);
        if state.should_disconnect() {
            evicted = true;
            break;
        }
    }
    assert!(evicted);
    let acts = n.handle_disconnect(&peer, 99);
    assert_eq!(acts.len(), 1);
    assert!(matches!(&acts[0], Action::Disconnect { peer: p } if *p == peer));
    assert!(!n.peer_book.connected_contains(&peer));
    assert!(!n.has_connection(&peer));
}

/// A block from peer P is propagated to every connected peer but P.
#[test]
fn block_propagation_skips_sender() {
    let mut n = new_node(1, 8);
    let p = addr(2, 2);
    let q = addr(3, 3);
    let r = addr(4, 4);
    assert!(n.peer_book.update_connected(&p, 10));
    assert!(n.peer_book.update_connected(&q, 10));
    assert!(n.peer_book.update_connected(&r, 10));

    let block = Message::Block { data: vec![1, 2, 3] };
    let (_, acts) = n.message_handler(&p, block, Facts::BlockReceipt {
        hash_known: false,
        inserted: true,
        pending_in_storage: vec![],
    }, 0, 50);

    let mut targets: Vec<PeerAddress> = Vec::new();
    for act in &acts {
        match act {
            Action::Send { to, message: Message::Block { data } } => {
                assert_eq!(*data, vec![1, 2, 3]);
                targets.push(to.clone());
            }
            _ => panic!("expected only block sends"),
        }
    }
    assert_eq!(targets.len(), 2);
    assert!(targets.contains(&q));
    assert!(targets.contains(&r));
    assert!(!targets.contains(&p));
}

/// An already-stored block is dropped without any action.
#[test]
fn known_block_is_ignored() {
    let mut n = new_node(1, 8);
    let p = addr(2, 2);
    assert!(n.peer_book.update_connected(&p, 10));
    let block = Message::Block { data: vec![7] };
    let (_, acts) = n.message_handler(&p, block, Facts::BlockReceipt {
        hash_known: true,
        inserted: false,
        pending_in_storage: vec![],
    }, 0, 50);
    assert!(acts.is_empty());
}

/// A sync answer queues the missing hashes and requests the first one
/// from the sync node.
#[test]
fn sync_answer_pulls_first_block() {
    let mut n = new_node(1, 8);
    let peer = addr(5, 9000);
    // The peer became the sync node during its version handshake.
    let ver = version_msg(150, 42, &peer, &addr(1, 4130));
    let _ = n.message_handler(&peer, ver, Facts::Chain { local_height: 100, locator: vec![] },
        77, 2000);
    n.store_connection(&peer);

    let sync = Message::Sync { hashes: vec![hash(101), hash(102)] };
    let (_, acts) = n.message_handler(&peer, sync, Facts::SyncHashes {
        in_storage: vec![false, false],
    }, 0, 2001);
    assert_eq!(acts.len(), 1);
    match &acts[0] {
        Action::Send { to, message: Message::GetBlock { hash: h } } => {
            assert_eq!(*to, peer);
            assert_eq!(*h, hash(101));
        }
        _ => panic!("expected a block request"),
    }
    assert!(n.sync_handler.is_syncing());

    // The requested block arrives as a sync block: the next one is pulled.
    let blk = Message::SyncBlock { data: vec![9] };
    let pending = n.pending_remaining();
    assert_eq!(pending, vec![hash(102)]);
    let (_, acts2) = n.message_handler(&peer, blk, Facts::BlockReceipt {
        hash_known: false,
        inserted: true,
        pending_in_storage: vec![false],
    }, 0, 2002);
    assert_eq!(acts2.len(), 1);
    match &acts2[0] {
        Action::Send { to, message: Message::GetBlock { hash: h } } => {
            assert_eq!(*to, peer);
            assert_eq!(*h, hash(102));
        }
        _ => panic!("expected the next block request"),
    }
}

/// A ping refreshes the sender and is answered with a matching pong.
#[test]
fn ping_is_answered_with_pong() {
    let mut n = new_node(1, 8);
    let p = addr(2, 2);
    let (_, acts) = n.message_handler(&p, Message::Ping { nonce: 9 }, Facts::Nothing, 0, 10);
    assert_eq!(acts.len(), 1);
    assert!(matches!(&acts[0], Action::Send { to, message: Message::Pong { nonce: 9 } }
        if *to == p));
}

/// A peer-list request is answered without the requester.
#[test]
fn get_peers_excludes_requester() {
    let mut n = new_node(1, 8);
    let p = addr(2, 2);
    let q = addr(3, 3);
    assert!(n.peer_book.update_connected(&p, 10));
    assert!(n.peer_book.update_connected(&q, 10));
    let (_, acts) = n.message_handler(&p, Message::GetPeers, Facts::Nothing, 0, 10);
    assert_eq!(acts.len(), 1);
    match &acts[0] {
        Action::Send { to, message: Message::Peers { addresses } } => {
            assert_eq!(*to, p);
            assert_eq!(addresses.len(), 1);
            assert_eq!(addresses[0].0, q);
        }
        _ => panic!("expected a peer list"),
    }
}

/// Learned addresses merge into the book: our own address is skipped,
/// connected peers are refreshed, and new ones are gossiped.
#[test]
fn peers_message_merges_addresses() {
    let mut n = new_node(1, 8);
    let sender = addr(2, 2);
    let known = addr(3, 3);
    let fresh = addr(4, 4);
    let me = addr(1, 4130);
    assert!(n.peer_book.update_connected(&sender, 10));
    assert!(n.peer_book.update_connected(&known, 10));

    let msg = Message::Peers {
        addresses: vec![(me.clone(), 99), (known.clone(), 88), (fresh.clone(), 77)],
    };
    let (_, acts) = n.message_handler(&sender, msg, Facts::Nothing, 0, 1234);
    assert!(acts.is_empty());
    // Our own address was not admitted anywhere.
    assert!(!n.peer_book.connected_contains(&me));
    // The known peer stayed connected, the fresh one is only gossiped.
    assert!(n.peer_book.connected_contains(&known));
    assert!(!n.peer_book.connected_contains(&fresh));
    let listed = n.peer_book.get_connected();
    assert!(listed.iter().any(|(a, t)| *a == known && *t == 88));
    assert!(listed.iter().any(|(a, t)| *a == sender && *t == 1234));
}

/// An empty pool stays silent; a filled one is sent back.
#[test]
fn get_memory_pool_replies_when_nonempty() {
    let mut n = new_node(1, 8);
    let p = addr(2, 2);
    let (_, acts) = n.message_handler(&p, Message::GetMemoryPool, Facts::PoolContents {
        transactions: vec![],
    }, 0, 10);
    assert!(acts.is_empty());
    let (_, acts2) = n.message_handler(&p, Message::GetMemoryPool, Facts::PoolContents {
        transactions: vec![vec![1], vec![2]],
    }, 0, 10);
    assert_eq!(acts2.len(), 1);
    assert!(matches!(&acts2[0], Action::Send { message: Message::MemoryPool { transactions }, .. }
        if transactions.len() == 2));
}

/// Offered pool transactions are each handed to the mempool.
#[test]
fn memory_pool_submits_each_transaction() {
    let mut n = new_node(1, 8);
    let p = addr(2, 2);
    let msg = Message::MemoryPool { transactions: vec![vec![1], vec![2, 3]] };
    let (_, acts) = n.message_handler(&p, msg, Facts::Nothing, 0, 10);
    assert_eq!(acts.len(), 2);
    assert!(matches!(&acts[0], Action::SubmitTransaction { data } if *data == vec![1]));
    assert!(matches!(&acts[1], Action::SubmitTransaction { data } if *data == vec![2, 3]));
}

/// A transaction the mempool took is propagated to everyone but its
/// sender; a refused one goes nowhere.
#[test]
fn transaction_propagates_except_sender() {
    let mut n = new_node(1, 8);
    let p = addr(2, 2);
    let q = addr(3, 3);
    assert!(n.peer_book.update_connected(&p, 10));
    assert!(n.peer_book.update_connected(&q, 10));
    let tx = Message::Transaction { data: vec![5, 5] };
    let (_, acts) = n.message_handler(&p, tx, Facts::TxReceipt { inserted: true }, 0, 10);
    assert_eq!(acts.len(), 1);
    assert!(matches!(&acts[0], Action::Send { to, message: Message::Transaction { .. } }
        if *to == q));
    let tx2 = Message::Transaction { data: vec![5, 5] };
    let (_, acts2) = n.message_handler(&p, tx2, Facts::TxReceipt { inserted: false }, 0, 10);
    assert!(acts2.is_empty());
}

/// Self-discovery rewrites the local address once and forgets any
/// book entry recorded under it.
#[test]
fn local_address_discovery() {
    let mut n = new_node(1, 8);
    let observed = addr(9, 4130);
    n.peer_book.update_gossiped(&observed, 5);
    assert!(n.discover_local_address(&observed));
    assert!(!n.discover_local_address(&observed));
    assert_eq!(n.local_address, observed);
}

/// The first bootnode is dialed, the rest are gossiped.
#[test]
fn bootnodes_are_dialed_and_gossiped() {
    let boots = vec![addr(7, 1), addr(8, 1)];
    let mut n = Node::new(addr(1, 4130), boots, false, 8, 60);
    let acts = n.connect_bootnodes(123);
    assert_eq!(acts.len(), 1);
    assert!(matches!(&acts[0], Action::DialHandshake { to } if *to == addr(7, 1)));
}

/// Stored peers are each redialed, unless we are a bootnode.
#[test]
fn stored_peers_are_redialed() {
    let mut n = new_node(1, 8);
    let stored = vec![(addr(5, 5), 1), (addr(6, 6), 2)];
    let acts = n.connect_stored_peers(&stored);
    assert_eq!(acts.len(), 2);
    let mut b = Node::new(addr(1, 4130), vec![], true, 8, 60);
    assert!(b.connect_stored_peers(&stored).is_empty());
}

/// A maintenance round pings every connected peer, and the answers
/// are accepted against the recorded nonces.
#[test]
fn maintenance_pings_every_connected_peer() {
    let mut n = new_node(1, 8);
    let p = addr(2, 2);
    let q = addr(3, 3);
    assert!(n.peer_book.update_connected(&p, 10));
    assert!(n.peer_book.update_connected(&q, 10));
    let acts = n.plan_pings(&vec![41, 42], 1000);
    assert_eq!(acts.len(), 2);
    for act in &acts {
        match act {
            Action::Send { to, message: Message::Ping { nonce } } => {
                let (_, acts2) = n.message_handler(to, Message::Pong { nonce: *nonce },
                    Facts::Nothing, 0, 1001);
                assert!(acts2.is_empty());
            }
            _ => panic!("expected pings"),
        }
    }
    // Both pongs were consumed: a repeat is refused.
    assert!(n.pings.accept_pong(&p, 41, 1002).is_err());
}

/// A peer whose ping went unanswered past the window is reported for
/// eviction.
#[test]
fn maintenance_reports_expired_peers() {
    let mut n = new_node(1, 8);
    let p = addr(2, 2);
    assert!(n.peer_book.update_connected(&p, 10));
    let _ = n.plan_pings(&vec![7], 1000);
    assert!(n.expired_peers(1050).is_empty());
    let expired = n.expired_peers(1100);
    assert_eq!(expired.len(), 1);
    assert_eq!(expired[0], p);
}

/// Maintenance dials at most the asked number of gossiped peers.
#[test]
fn maintenance_dials_gossiped_peers() {
    let mut n = new_node(1, 8);
    n.peer_book.update_gossiped(&addr(2, 2), 1);
    n.peer_book.update_gossiped(&addr(3, 3), 1);
    n.peer_book.update_gossiped(&addr(4, 4), 1);
    let acts = n.gossiped_to_dial(2);
    assert_eq!(acts.len(), 2);
    assert!(acts.iter().all(|a| matches!(a, Action::DialHandshake { .. })));
    assert!(n.gossiped_to_dial(9).len() == 3);
}

/// While syncing, a sync-answer block from anyone but the sync node
/// does not pull the next block: only the sync node drives the pull.
#[test]
fn sync_pull_only_from_sync_node() {
    let mut n = new_node(1, 8);
    let sync_peer = addr(5, 9000);
    let other = addr(6, 6);
    let ver = version_msg(150, 42, &sync_peer, &addr(1, 4130));
    let _ = n.message_handler(&sync_peer, ver, Facts::Chain { local_height: 100, locator: vec![] },
        77, 2000);
    n.store_connection(&sync_peer);
    assert!(n.peer_book.update_connected(&other, 10));
    n.store_connection(&other);

    let sync = Message::Sync { hashes: vec![hash(101), hash(102)] };
    let _ = n.message_handler(&sync_peer, sync, Facts::SyncHashes {
        in_storage: vec![false, false],
    }, 0, 2001);
    assert!(n.sync_handler.is_syncing());

    // The other peer hands in a non-propagating block: no pull follows.
    let blk = Message::SyncBlock { data: vec![9] };
    let (_, acts) = n.message_handler(&other, blk, Facts::BlockReceipt {
        hash_known: false,
        inserted: true,
        pending_in_storage: vec![false],
    }, 0, 2002);
    assert!(acts.is_empty());
    // The sync node itself still drives the pull.
    let blk2 = Message::SyncBlock { data: vec![9] };
    let (_, acts2) = n.message_handler(&sync_peer, blk2, Facts::BlockReceipt {
        hash_known: false,
        inserted: true,
        pending_in_storage: vec![false],
    }, 0, 2003);
    assert_eq!(acts2.len(), 1);
    assert!(matches!(&acts2[0], Action::Send { to, message: Message::GetBlock { .. } }
        if *to == sync_peer));
}

/// Bootnodes past the first land in the gossiped set and are dialed
/// by maintenance, never marked connected by planning alone.
#[test]
fn bootnode_tail_is_gossiped_not_connected() {
    let boots = vec![addr(7, 1), addr(8, 1), addr(9, 1)];
    let mut n = Node::new(addr(1, 4130), boots, false, 8, 60);
    let acts = n.connect_bootnodes(123);
    assert_eq!(acts.len(), 1);
    assert_eq!(n.peer_book.connected_total(), 0);
    assert!(!n.peer_book.connected_contains(&addr(8, 1)));
    assert!(!n.peer_book.connected_contains(&addr(9, 1)));
    // The gossiped tail is what maintenance dials.
    let dials = n.gossiped_to_dial(8);
    assert_eq!(dials.len(), 2);
}
