use snarkos_network::addr::PeerAddress;
use snarkos_network::codec::{encode, decode};
use snarkos_network::message::Message;
use snarkos_network::peer_book::{save_peer_entries, load_peer_entries};

fn addr(a: u8, port: u16) -> PeerAddress {
    PeerAddress::new_v4(10, 0, 0, a, port)
}

fn hash(b: u8) -> Vec<u8> {
    vec![b; 32]
}

fn round_trip(m: Message) {
    let bytes = encode(&m);
    let back = decode(&bytes).expect("a well-formed frame decodes");
    assert_eq!(back, m);
}

#[test]
fn version_round_trip() {
    round_trip(Message::Version {
        version: 1,
        height: 5,
        nonce: 0xDEAD_BEEF_0102_0304,
        timestamp: 1_600_000_000,
        address_receiver: addr(1, 4130),
        address_sender: addr(2, 4131),
    });
}

#[test]
fn version_negative_timestamp_round_trip() {
    round_trip(Message::Version {
        version: 1,
        height: 0,
        nonce: 7,
        timestamp: -12345,
        address_receiver: PeerAddress::new_v6(vec![0xFE; 16], 9000),
        address_sender: addr(9, 80),
    });
}

#[test]
fn verack_round_trip() {
    round_trip(Message::Verack { nonce: u64::MAX });
}

#[test]
fn ping_pong_round_trip() {
    round_trip(Message::Ping { nonce: 0 });
    round_trip(Message::Pong { nonce: 1 });
}

#[test]
fn getpeers_round_trip() {
    round_trip(Message::GetPeers);
}

#[test]
fn peers_round_trip() {
    round_trip(Message::Peers {
        addresses: vec![
            (addr(1, 4130), 1_600_000_000),
            (PeerAddress::new_v6(vec![1; 16], 4131), -5),
            (addr(3, 1), 0),
        ],
    });
    round_trip(Message::Peers { addresses: vec![] });
}

#[test]
fn getblock_round_trip() {
    round_trip(Message::GetBlock { hash: hash(0xAB) });
}

#[test]
fn block_round_trip() {
    round_trip(Message::Block { data: vec![1, 2, 3, 4, 5] });
    round_trip(Message::Block { data: vec![] });
}

#[test]
fn syncblock_round_trip() {
    round_trip(Message::SyncBlock { data: vec![9; 100] });
}

#[test]
fn getsync_round_trip() {
    round_trip(Message::GetSync { locator: vec![hash(1), hash(2), hash(3)] });
    round_trip(Message::GetSync { locator: vec![] });
}

#[test]
fn sync_round_trip() {
    round_trip(Message::Sync { hashes: vec![hash(0), hash(255)] });
}

#[test]
fn getmempool_round_trip() {
    round_trip(Message::GetMemoryPool);
}

#[test]
fn memorypool_round_trip() {
    round_trip(Message::MemoryPool {
        transactions: vec![vec![], vec![1], vec![2; 300]],
    });
    round_trip(Message::MemoryPool { transactions: vec![] });
}

#[test]
fn transaction_round_trip() {
    round_trip(Message::Transaction { data: vec![42; 7] });
}

#[test]
fn ping_exact_bytes() {
    let bytes = encode(&Message::Ping { nonce: 0x0102_0304_0506_0708 });
    let mut expected: Vec<u8> = Vec::new();
    expected.extend_from_slice(b"ping");
    expected.extend_from_slice(&[0; 8]);
    expected.extend_from_slice(&[0, 0, 0, 8]);
    expected.extend_from_slice(&[1, 2, 3, 4, 5, 6, 7, 8]);
    assert_eq!(bytes, expected);
}

#[test]
fn verack_exact_bytes() {
    let bytes = encode(&Message::Verack { nonce: 5 });
    let mut expected: Vec<u8> = Vec::new();
    expected.extend_from_slice(b"verack");
    expected.extend_from_slice(&[0; 6]);
    expected.extend_from_slice(&[0, 0, 0, 8]);
    expected.extend_from_slice(&[0, 0, 0, 0, 0, 0, 0, 5]);
    assert_eq!(bytes, expected);
}

#[test]
fn peers_exact_bytes() {
    let entry = PeerAddress::new_v4(1, 2, 3, 4, 5);
    let bytes = encode(&Message::Peers { addresses: vec![(entry, 6)] });
    let mut expected: Vec<u8> = Vec::new();
    expected.extend_from_slice(b"peers");
    expected.extend_from_slice(&[0; 7]);
    // Payload: count, then one 27-byte entry (tagged address and time).
    expected.extend_from_slice(&[0, 0, 0, 31]);
    expected.extend_from_slice(&[0, 0, 0, 1]);
    expected.push(4);
    expected.extend_from_slice(&[1, 2, 3, 4]);
    expected.extend_from_slice(&[0; 12]);
    expected.extend_from_slice(&[0, 5]);
    expected.extend_from_slice(&[0, 0, 0, 0, 0, 0, 0, 6]);
    assert_eq!(bytes, expected);
}

#[test]
fn decode_rejects_truncation() {
    assert!(decode(&vec![]).is_err());
    assert!(decode(&vec![0; 15]).is_err());
    let mut bytes = encode(&Message::Ping { nonce: 1 });
    bytes.pop();
    assert!(decode(&bytes).is_err());
}

#[test]
fn decode_rejects_unknown_name() {
    let mut bytes = encode(&Message::Ping { nonce: 1 });
    bytes[0] = b'q';
    assert!(decode(&bytes).is_err());
}

#[test]
fn decode_rejects_length_mismatch() {
    let mut bytes = encode(&Message::Ping { nonce: 1 });
    bytes[15] = 9;
    assert!(decode(&bytes).is_err());
}

#[test]
fn decode_rejects_bad_address_tag() {
    let mut bytes = encode(&Message::Peers { addresses: vec![(addr(1, 2), 3)] });
    // The family tag of the first entry sits after the envelope and count.
    bytes[20] = 7;
    assert!(decode(&bytes).is_err());
}

#[test]
fn decode_rejects_trailing_pool_bytes() {
    let mut bytes = encode(&Message::MemoryPool { transactions: vec![vec![1, 2]] });
    bytes.push(0);
    assert!(decode(&bytes).is_err());
}

#[test]
fn peer_blob_round_trip() {
    let entries = vec![
        (addr(1, 4130), 1_600_000_000),
        (addr(2, 4131), 1_600_000_500),
    ];
    let blob = save_peer_entries(vec![
        (addr(1, 4130), 1_600_000_000),
        (addr(2, 4131), 1_600_000_500),
    ]);
    let back = load_peer_entries(&blob).expect("a saved peer list loads");
    assert_eq!(back, entries);
}

#[test]
fn peer_blob_rejects_garbage() {
    assert!(load_peer_entries(&vec![1, 2, 3]).is_err());
    let other = encode(&Message::Ping { nonce: 3 });
    assert!(load_peer_entries(&other).is_err());
}
