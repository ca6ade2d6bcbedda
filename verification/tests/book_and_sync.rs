use snarkos_network::addr::PeerAddress;
use snarkos_network::peer_book::PeerBook;
use snarkos_network::pings::Pings;
use snarkos_network::reader::ReaderFailures;
use snarkos_network::sync::{SyncHandler, sync_response_span};
use snarkos_network::handshake::{Handshakes, HandshakeError};

fn addr(a: u8, port: u16) -> PeerAddress {
    PeerAddress::new_v4(192, 168, 0, a, port)
}

fn hash(b: u8) -> Vec<u8> {
    vec![b; 32]
}

#[test]
fn book_sets_stay_disjoint() {
    let mut book = PeerBook::new(10);
    let p = addr(1, 4130);
    book.update_gossiped(&p, 100);
    assert!(!book.connected_contains(&p));
    assert!(book.update_connected(&p, 200));
    assert!(book.connected_contains(&p));
    // Gossiping a connected peer is a no-op: it stays connected only.
    book.update_gossiped(&p, 300);
    assert!(book.connected_contains(&p));
    assert!(book.disconnect_peer(&p, 400));
    assert!(!book.connected_contains(&p));
    // A disconnected peer can come back.
    assert!(book.update_connected(&p, 500));
    assert!(book.connected_contains(&p));
}

#[test]
fn book_refuses_over_capacity() {
    let mut book = PeerBook::new(2);
    assert!(book.update_connected(&addr(1, 1), 10));
    assert!(book.update_connected(&addr(2, 1), 10));
    assert_eq!(book.connected_total(), 2);
    // The third peer is refused; the count stays at the capacity.
    assert!(!book.update_connected(&addr(3, 1), 10));
    assert_eq!(book.connected_total(), 2);
    // Refreshing an existing peer is still accepted at capacity.
    assert!(book.update_connected(&addr(2, 1), 20));
    assert_eq!(book.connected_total(), 2);
}

#[test]
fn book_forgets_everywhere() {
    let mut book = PeerBook::new(4);
    let p = addr(7, 7);
    book.update_gossiped(&p, 1);
    book.forget_peer(&p);
    let mut q = PeerBook::new(4);
    assert!(q.update_connected(&p, 1));
    q.forget_peer(&p);
    assert!(!q.connected_contains(&p));
    assert_eq!(q.connected_total(), 0);
}

#[test]
fn get_connected_lists_entries() {
    let mut book = PeerBook::new(4);
    assert!(book.update_connected(&addr(1, 1), 11));
    assert!(book.update_connected(&addr(2, 2), 22));
    let listed = book.get_connected();
    assert_eq!(listed.len(), 2);
    assert!(listed.iter().any(|(a, t)| *a == addr(1, 1) && *t == 11));
    assert!(listed.iter().any(|(a, t)| *a == addr(2, 2) && *t == 22));
}

#[test]
fn ping_pong_accepts_matching_nonce_in_window() {
    let mut pings = Pings::new(60);
    let p = addr(1, 1);
    let msg = pings.record_ping(&p, 777, 1000);
    assert_eq!(msg, snarkos_network::message::Message::Ping { nonce: 777 });
    // Wrong nonce is refused and the ping stays pending.
    assert!(pings.accept_pong(&p, 778, 1001).is_err());
    // The matching nonce within the window is accepted once.
    assert!(pings.accept_pong(&p, 777, 1050).is_ok());
    assert!(pings.accept_pong(&p, 777, 1050).is_err());
}

#[test]
fn ping_pong_rejects_expired() {
    let mut pings = Pings::new(60);
    let p = addr(1, 1);
    let _ = pings.record_ping(&p, 5, 1000);
    assert!(pings.accept_pong(&p, 5, 1061).is_err());
    // The pending ping is kept, so a timely duplicate would still match.
    assert!(pings.accept_pong(&p, 5, 1060).is_ok());
}

#[test]
fn sync_span_respects_cap() {
    // A requester at height 0 against height 10000 gets exactly the cap.
    let span = sync_response_span(Some(0), 10000).expect("behind, so a span exists");
    assert_eq!(span, (1, 4000));
    assert_eq!(span.1 - span.0 + 1, 4000);
}

#[test]
fn sync_span_small_gap() {
    assert_eq!(sync_response_span(Some(100), 150), Some((101, 150)));
    assert_eq!(sync_response_span(Some(150), 150), None);
    assert_eq!(sync_response_span(Some(200), 150), None);
}

#[test]
fn sync_span_unshared_locator() {
    // A locator sharing nothing with our chain gets an empty answer.
    assert_eq!(sync_response_span(None, 150), None);
}

#[test]
fn sync_handler_filters_and_walks() {
    let mut handler = SyncHandler::new(addr(9, 9));
    assert!(!handler.is_syncing());
    // The second hash is already in storage and is dropped.
    handler.receive_hashes(vec![hash(1), hash(2), hash(3)], &vec![false, true, false]);
    assert!(handler.is_syncing());
    assert_eq!(handler.increment(), Some(hash(1)));
    assert_eq!(handler.increment(), Some(hash(3)));
    assert!(handler.is_syncing());
    // Everything was consumed: the next step falls back to idle.
    assert_eq!(handler.increment(), None);
    assert!(!handler.is_syncing());
}

#[test]
fn sync_handler_idle_has_nothing_pending() {
    let mut handler = SyncHandler::new(addr(9, 9));
    handler.receive_hashes(vec![hash(1)], &vec![true]);
    // Nothing was missing, so the handler never left idle.
    assert!(!handler.is_syncing());
    assert_eq!(handler.increment(), None);
}

#[test]
fn sync_handler_clear_pending_empties_to_idle() {
    let mut handler = SyncHandler::new(addr(9, 9));
    handler.receive_hashes(vec![hash(1), hash(2)], &vec![false, false]);
    assert!(handler.is_syncing());
    // Both blocks arrived meanwhile.
    handler.clear_pending(&vec![true, true]);
    assert!(!handler.is_syncing());
}

#[test]
fn reader_counts_ten_failures() {
    let mut state = ReaderFailures::new();
    for _ in 0..9 {
        let mut failure = false;
        state.handle_failure(&mut failure);
        assert!(failure);
        assert!(!state.should_disconnect());
        // A second failure in the same iteration does not count again.
        state.handle_failure(&mut failure);
        assert!(!state.should_disconnect());
    }
    let mut failure = false;
    state.handle_failure(&mut failure);
    assert!(state.should_disconnect());
}

#[test]
fn verack_must_match_a_pending_handshake() {
    let mut hs = Handshakes::new();
    let p = addr(1, 1);
    // No handshake is pending yet.
    assert_eq!(hs.accept_response(&p, 5), Err(HandshakeError::Missing));
    let local = addr(9, 9);
    let _version = hs.send_request(1, 7, &local, &p, 123, 1000);
    // A verack with another nonce is refused; the right one completes.
    assert_eq!(hs.accept_response(&p, 122), Err(HandshakeError::NonceMismatch));
    assert_eq!(hs.accept_response(&p, 123), Ok(()));
}

#[test]
fn handshake_request_echoes_peer_nonce() {
    let mut hs = Handshakes::new();
    let peer = addr(2, 2);
    let local = addr(9, 9);
    let (verack, version) = hs.receive_request(555, &peer, 1, 40, &local, 777, 1000);
    assert_eq!(verack, snarkos_network::message::Message::Verack { nonce: 555 });
    match version {
        snarkos_network::message::Message::Version { nonce, height, .. } => {
            assert_eq!(nonce, 777);
            assert_eq!(height, 40);
        }
        _ => panic!("expected a version message"),
    }
}
