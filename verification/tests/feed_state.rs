use hypercore_wasm::feed::{announced_head, AppEvent, Feed, FeedAction, FeedMessage, FeedState, Want};

fn state_with_head(head: u64) -> FeedState {
    let mut s = FeedState::default();
    assert_eq!(s.on_have(head), Some(0));
    s
}

#[test]
fn default_state_is_empty() {
    let s = FeedState::default();
    assert_eq!(s.remote_head, 0);
    assert!(!s.started);
    assert!(s.data.is_empty());
}

#[test]
fn first_have_requests_block_zero() {
    let mut s = FeedState::default();
    assert_eq!(s.on_have(3), Some(0));
    assert_eq!(s.remote_head, 3);
    assert!(s.started);
}

#[test]
fn later_have_moves_head_without_new_request() {
    let mut s = state_with_head(3);
    assert_eq!(s.on_have(5), None);
    assert_eq!(s.remote_head, 5);
    assert!(s.started);
}

#[test]
fn have_behind_head_is_ignored() {
    let mut s = state_with_head(5);
    assert_eq!(s.on_have(2), None);
    assert_eq!(s.remote_head, 5);
}

#[test]
fn have_zero_then_have_restarts_nothing() {
    let mut s = FeedState::default();
    // A head of 0 is taken, and the download starts.
    assert_eq!(s.on_have(0), Some(0));
    assert_eq!(s.remote_head, 0);
    // With head 0 any announced head is taken, without a second start.
    assert_eq!(s.on_have(0), None);
    assert_eq!(s.on_have(4), None);
    assert_eq!(s.remote_head, 4);
}

#[test]
fn data_requests_next_block_until_head() {
    let mut s = state_with_head(2);
    assert_eq!(s.on_data(0, Some(b"a".to_vec())), Some(1));
    assert_eq!(s.on_data(1, Some(b"b".to_vec())), Some(2));
    assert_eq!(s.on_data(2, Some(b"c".to_vec())), None);
    assert_eq!(s.data.len(), 3);
    assert!(s.text_is_valid());
    assert_eq!(s.content(), "abc");
}

#[test]
fn data_without_value_stores_nothing() {
    let mut s = state_with_head(1);
    assert_eq!(s.on_data(0, None), Some(1));
    assert!(s.data.is_empty());
    assert_eq!(s.remote_head, 1);
}

#[test]
fn data_replaces_block_with_same_index() {
    let mut s = state_with_head(5);
    s.on_data(1, Some(b"old".to_vec()));
    s.on_data(1, Some(b"new".to_vec()));
    assert_eq!(s.content(), "new");
}

#[test]
fn content_is_in_index_order_whatever_the_arrival_order() {
    let mut a = state_with_head(9);
    a.on_data(7, Some(b"world".to_vec()));
    a.on_data(0, Some(b"hello ".to_vec()));
    a.on_data(3, Some("\u{e9}t\u{e9} ".as_bytes().to_vec()));
    let mut b = state_with_head(9);
    b.on_data(0, Some(b"hello ".to_vec()));
    b.on_data(3, Some("\u{e9}t\u{e9} ".as_bytes().to_vec()));
    b.on_data(7, Some(b"world".to_vec()));
    assert_eq!(a.content(), "hello \u{e9}t\u{e9} world");
    assert_eq!(a.content(), b.content());
}

#[test]
fn content_of_no_blocks_is_empty() {
    let s = FeedState::default();
    assert!(s.text_is_valid());
    assert_eq!(s.content(), "");
}

#[test]
fn content_with_invalid_utf8_is_none() {
    let mut s = state_with_head(3);
    s.on_data(0, Some(b"fine".to_vec()));
    s.on_data(1, Some(vec![0xff, 0xfe]));
    assert!(!s.text_is_valid());
}

#[test]
fn block_split_inside_a_character_is_invalid() {
    // Each block is read as UTF-8 on its own.
    let bytes = "\u{e9}".as_bytes();
    let mut s = state_with_head(3);
    s.on_data(0, Some(vec![bytes[0]]));
    s.on_data(1, Some(vec![bytes[1]]));
    assert!(!s.text_is_valid());
}

fn key_of(n: u8) -> Vec<u8> {
    (0..32).map(|i| i ^ n).collect()
}

#[test]
fn new_feed_derives_its_discovery_key() {
    let key = key_of(7);
    let feed = Feed::new(key.clone());
    assert_eq!(feed.key(), key.as_slice());
    assert_eq!(feed.discovery_key(), hypercore_protocol::discovery_key(&key).as_slice());
    assert_eq!(feed.discovery_key().len(), 32);
    assert_ne!(feed.discovery_key(), key.as_slice());
    assert_eq!(feed.state().remote_head, 0);
    assert!(!feed.state().started);
}

#[test]
fn feed_on_open_wants_everything() {
    let feed = Feed::new(key_of(1));
    assert_eq!(feed.on_open(), Want { start: 0, length: None });
}

#[test]
fn feed_download_scenario() {
    let mut feed = Feed::new(key_of(2));
    match feed.on_message(FeedMessage::Have { start: 1 }) {
        FeedAction::Request { index } => assert_eq!(index, 0),
        _ => panic!("expected a request for block 0"),
    }
    match feed.on_message(FeedMessage::Other) {
        FeedAction::Nothing => {}
        _ => panic!("expected nothing"),
    }
    match feed.on_message(FeedMessage::Data { index: 0, value: Some(b"# hyper".to_vec()) }) {
        FeedAction::Request { index } => assert_eq!(index, 1),
        _ => panic!("expected a request for block 1"),
    }
    match feed.on_message(FeedMessage::Data { index: 1, value: Some(b"core\n".to_vec()) }) {
        FeedAction::Emit(AppEvent::ContentLoaded(text)) => assert_eq!(text, "# hypercore\n"),
        _ => panic!("expected the content"),
    }
}

#[test]
fn feed_does_not_admit_a_completing_block_that_is_not_utf8() {
    let mut feed = Feed::new(key_of(3));
    feed.on_message(FeedMessage::Have { start: 1 });
    // A block that does not complete the download is admitted whatever it holds.
    let early = FeedMessage::Data { index: 0, value: Some(vec![0xc0]) };
    assert!(feed.admits(&early));
    feed.on_message(early);
    // The completing block would make the text unreadable.
    assert!(!feed.admits(&FeedMessage::Data { index: 1, value: Some(b"ok".to_vec()) }));
    // Replacing the bad block does not complete the download, so it is admitted.
    assert!(feed.admits(&FeedMessage::Data { index: 0, value: Some(b"fine".to_vec()) }));
    assert!(feed.admits(&FeedMessage::Have { start: 9 }));
    assert!(!feed.admits(&FeedMessage::Data { index: u64::MAX, value: None }));
}

#[test]
fn admitted_completion_after_overwrite() {
    let mut feed = Feed::new(key_of(11));
    feed.on_message(FeedMessage::Have { start: 0 });
    let msg = FeedMessage::Data { index: 0, value: Some(b"hi".to_vec()) };
    assert!(feed.admits(&msg));
    match feed.on_message(msg) {
        FeedAction::Emit(AppEvent::ContentLoaded(text)) => assert_eq!(text, "hi"),
        _ => panic!("expected the content"),
    }
}

#[test]
fn last_write_wins_over_a_history() {
    let mut s = state_with_head(2);
    s.on_data(1, Some(b"B1".to_vec()));
    s.on_data(0, Some(b"A1".to_vec()));
    s.on_data(1, Some(b"B2".to_vec()));
    s.on_data(1, None);
    s.on_data(2, Some(b"C".to_vec()));
    assert_eq!(s.content(), "A1B2C");
    assert_eq!(s.remote_head, 2);
}

#[test]
fn announced_head_of_ranges() {
    assert_eq!(announced_head(0, 5, false), Some(4));
    assert_eq!(announced_head(10, 1, false), Some(10));
    assert_eq!(announced_head(3, 0, false), None);
    assert_eq!(announced_head(3, 4, true), None);
    assert_eq!(announced_head(u64::MAX - 1, 5, false), Some(u64::MAX));
}

#[test]
fn duplicate_is_an_equal_copy() {
    let mut feed = Feed::new(key_of(4));
    feed.on_message(FeedMessage::Have { start: 2 });
    feed.on_message(FeedMessage::Data { index: 0, value: Some(b"x".to_vec()) });
    let copy = feed.duplicate();
    assert_eq!(copy.key(), feed.key());
    assert_eq!(copy.discovery_key(), feed.discovery_key());
    assert_eq!(copy.state().remote_head, 2);
    assert_eq!(copy.state().content(), "x");
}
