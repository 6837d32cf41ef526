use hypercore_wasm::feed::{AppEvent, Feed, FeedAction, FeedMessage, Want};
use hypercore_wasm::hexcode::is_hex_text;
use hypercore_wasm::store::{FeedStore, ProtocolEvent, SessionAction};

fn key_of(n: u8) -> Vec<u8> {
    (0..32).map(|i| i ^ n).collect()
}

#[test]
fn empty_store_knows_nothing() {
    let store = FeedStore::new();
    assert!(store.get(&[1, 2, 3]).is_none());
    assert!(store.on_discoverykey(&[1, 2, 3]).is_none());
}

#[test]
fn get_after_add() {
    let mut store = FeedStore::new();
    let a = Feed::new(key_of(1));
    let dka = a.discovery_key().to_vec();
    store.add(a);
    let b = Feed::new(key_of(2));
    let dkb = b.discovery_key().to_vec();
    store.add(b);
    assert_eq!(store.get(&dka).unwrap().key(), key_of(1).as_slice());
    assert_eq!(store.get(&dkb).unwrap().key(), key_of(2).as_slice());
    // A key is not its own discovery key.
    assert!(store.get(&key_of(1)).is_none());
}

#[test]
fn on_discoverykey_gives_the_key_to_open() {
    let mut store = FeedStore::new();
    let feed = Feed::new(key_of(5));
    let dk = feed.discovery_key().to_vec();
    store.add(feed);
    assert_eq!(store.on_discoverykey(&dk), Some(key_of(5)));
    let mut other = dk.clone();
    other[0] ^= 1;
    assert_eq!(store.on_discoverykey(&other), None);
}

#[test]
fn store_for_hex_key() {
    let key = key_of(9);
    let store = FeedStore::for_hex_key(&hex::encode(&key));
    let dk = hypercore_protocol::discovery_key(&key);
    assert_eq!(store.get(&dk).unwrap().key(), key.as_slice());
}

#[test]
fn store_for_upper_case_hex_key() {
    let store = FeedStore::for_hex_key("0A0b");
    let dk = hypercore_protocol::discovery_key(&[10, 11]);
    assert_eq!(store.get(&dk).unwrap().key(), &[10u8, 11][..]);
}

#[test]
fn hex_text_check() {
    assert!(is_hex_text(b"0aF9"));
    assert!(is_hex_text(b""));
    assert!(!is_hex_text(b"abc"));
    assert!(!is_hex_text(b"00zx"));
    assert!(!is_hex_text(b"0g"));
}

#[test]
fn events_scenario() {
    let key = key_of(6);
    let store = FeedStore::for_hex_key(&hex::encode(&key));
    let dk = hypercore_protocol::discovery_key(&key).to_vec();
    match store.on_event(&ProtocolEvent::Handshake) {
        SessionAction::Ignore => {}
        _ => panic!("expected nothing"),
    }
    match store.on_event(&ProtocolEvent::DiscoveryKey(dk.clone())) {
        SessionAction::Open { key: k } => assert_eq!(k, key),
        _ => panic!("expected an open"),
    }
    match store.on_event(&ProtocolEvent::DiscoveryKey(vec![0; 32])) {
        SessionAction::Ignore => {}
        _ => panic!("expected nothing"),
    }
    match store.on_event(&ProtocolEvent::Channel(dk)) {
        SessionAction::Attach { want } => assert_eq!(want, Want { start: 0, length: None }),
        _ => panic!("expected an attach"),
    }
    match store.on_event(&ProtocolEvent::Channel(vec![1; 32])) {
        SessionAction::Ignore => {}
        _ => panic!("expected nothing"),
    }
    match store.on_event(&ProtocolEvent::Other) {
        SessionAction::Ignore => {}
        _ => panic!("expected nothing"),
    }
}

#[test]
fn messages_reach_the_feed_and_its_state_is_kept() {
    let key = key_of(8);
    let mut store = FeedStore::for_hex_key(&hex::encode(&key));
    let dk = hypercore_protocol::discovery_key(&key).to_vec();
    assert!(store.admits(&dk, &FeedMessage::Have { start: 1 }));
    assert!(store.admits(&[7; 32], &FeedMessage::Data { index: u64::MAX, value: None }));
    match store.on_message(&dk, FeedMessage::Have { start: 1 }) {
        FeedAction::Request { index } => assert_eq!(index, 0),
        _ => panic!("expected a request"),
    }
    assert_eq!(store.get(&dk).unwrap().state().remote_head, 1);
    match store.on_message(&dk, FeedMessage::Data { index: 0, value: Some(b"ab".to_vec()) }) {
        FeedAction::Request { index } => assert_eq!(index, 1),
        _ => panic!("expected a request"),
    }
    match store.on_message(&dk, FeedMessage::Data { index: 1, value: Some(b"cd".to_vec()) }) {
        FeedAction::Emit(AppEvent::ContentLoaded(t)) => assert_eq!(t, "abcd"),
        _ => panic!("expected the content"),
    }
}

#[test]
fn message_for_unknown_feed_changes_nothing() {
    let key = key_of(10);
    let mut store = FeedStore::for_hex_key(&hex::encode(&key));
    let dk = hypercore_protocol::discovery_key(&key).to_vec();
    match store.on_message(&[7; 32], FeedMessage::Have { start: 4 }) {
        FeedAction::Nothing => {}
        _ => panic!("expected nothing"),
    }
    assert_eq!(store.get(&dk).unwrap().state().remote_head, 0);
    assert!(!store.get(&dk).unwrap().state().started);
}
