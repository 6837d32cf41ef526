//! The feeds that a replication serves, filed under the hex encoding of
//! their discovery keys, and the decisions taken on the events of the
//! replication stream.

use crate::feed::{
    hypercore_discovery_key, initial_state, message_admissible, message_outcome, Feed, FeedAction,
    FeedMessage, FeedView, Want,
};
use crate::hexcode::{
    all_hex_digits, decode_hex, encode_hex, hex_decode_result, hex_decoded, hex_encoded,
    lemma_hex_encoded_injective,
};
use vstd::slice::slice_to_vec;
use vstd::string::StringSliceAdditionalSpecFns;
use vstd::hash_map::StringHashMap;
use vstd::prelude::*;

verus! {

/// The feed filed under discovery key `dk`, if any.
pub open spec fn lookup(feeds: Map<Seq<char>, FeedView>, dk: Seq<u8>) -> Option<FeedView> {
    if feeds.contains_key(hex_encoded(dk)) {
        Some(feeds[hex_encoded(dk)])
    } else {
        None
    }
}

/// A read gives back what the last write filed: after `feed` is filed, the
/// lookup of its discovery key gives it, and the lookup of any other
/// discovery key gives what it gave before.
pub proof fn lemma_lookup_after_add(feeds: Map<Seq<char>, FeedView>, feed: FeedView, dk: Seq<u8>)
    ensures
        lookup(feeds.insert(hex_encoded(feed.discovery_key), feed), dk) == if dk
            == feed.discovery_key {
            Some(feed)
        } else {
            lookup(feeds, dk)
        },
{
    if hex_encoded(dk) == hex_encoded(feed.discovery_key) {
        lemma_hex_encoded_injective(dk, feed.discovery_key);
    }
}

/// An event of the replication stream, with what the replication reads of it.
pub enum ProtocolEvent {
    /// The handshake with the remote is complete.
    Handshake,
    /// The remote opened a channel for this discovery key.
    DiscoveryKey(Vec<u8>),
    /// A channel for this discovery key is established.
    Channel(Vec<u8>),
    /// Any other event, which the replication does not act on.
    Other,
}

/// What the replication does after an event.
pub enum SessionAction {
    /// Nothing.
    Ignore,
    /// Open a channel for the feed with public key `key`.
    Open { key: Vec<u8> },
    /// Send `want` on the new channel and serve its messages to the feed.
    Attach { want: Want },
}

/// What the replication answers to `event` when it serves `feeds`.
pub open spec fn event_outcome(
    feeds: Map<Seq<char>, FeedView>,
    event: ProtocolEvent,
    action: SessionAction,
) -> bool {
    match event {
        ProtocolEvent::DiscoveryKey(dk) => match lookup(feeds, dk@) {
            Some(f) => action matches SessionAction::Open { key } && key@ == f.key,
            None => action matches SessionAction::Ignore,
        },
        ProtocolEvent::Channel(dk) => match lookup(feeds, dk@) {
            Some(f) => action matches SessionAction::Attach { want } && want == (Want {
                start: 0,
                length: None,
            }),
            None => action matches SessionAction::Ignore,
        },
        _ => action matches SessionAction::Ignore,
    }
}

/// The replication opens a channel exactly when the remote announces the
/// discovery key of a feed it serves, and opens it with that feed's own
/// key, the one the announced key is derived from; on a channel for such a
/// key it asks for all blocks from the first. Every other event, those for
/// discovery keys it does not serve among them, is ignored.
pub proof fn lemma_event_answer(
    feeds: Map<Seq<char>, FeedView>,
    event: ProtocolEvent,
    action: SessionAction,
)
    requires
        store_wf(feeds),
        event_outcome(feeds, event, action),
    ensures
        event is Handshake || event is Other ==> action is Ignore,
        action is Open ==> event is DiscoveryKey,
        action is Attach ==> event is Channel,
        event matches ProtocolEvent::DiscoveryKey(dk) ==> (action is Open <==> feeds.contains_key(
            hex_encoded(dk@),
        )),
        event matches ProtocolEvent::DiscoveryKey(dk) ==> (action matches SessionAction::Open {
            key,
        } ==> key@ == feeds[hex_encoded(dk@)].key && hypercore_discovery_key(key@) == dk@),
        event matches ProtocolEvent::Channel(dk) ==> (action is Attach <==> feeds.contains_key(
            hex_encoded(dk@),
        )),
        action matches SessionAction::Attach { want } ==> want.start == 0 && want.length is None,
{
    match event {
        ProtocolEvent::DiscoveryKey(dk) => {
            let h = hex_encoded(dk@);
            if feeds.contains_key(h) {
                lemma_hex_encoded_injective(feeds[h].discovery_key, dk@);
            }
        },
        _ => {},
    }
}

/// The feeds of a replication, by the lower-case hex encoding of their
/// discovery keys.
pub struct FeedStore {
    feeds: StringHashMap<Feed>,
}

impl View for FeedStore {
    type V = Map<Seq<char>, FeedView>;

    closed spec fn view(&self) -> Map<Seq<char>, FeedView> {
        self.feeds@.map_values(|f: Feed| f@)
    }
}

/// Whether every feed is filed under the hex encoding of its discovery
/// key, and that key is derived from the feed's key.
pub open spec fn store_wf(feeds: Map<Seq<char>, FeedView>) -> bool {
    forall|h: Seq<char>| #[trigger]
        feeds.contains_key(h) ==> {
            &&& h == hex_encoded(feeds[h].discovery_key)
            &&& feeds[h].discovery_key == hypercore_discovery_key(feeds[h].key)
        }
}

impl FeedStore {
    /// Every feed is filed under the hex encoding of its discovery key, and
    /// that key is derived from the feed's key.
    #[verifier::type_invariant]
    spec fn filed_by_discovery_key(self) -> bool {
        store_wf(self@)
    }

    /// An empty store.
    pub fn new() -> (store: Self)
        ensures
            store@ == Map::<Seq<char>, FeedView>::empty(),
    {
        let store = FeedStore { feeds: StringHashMap::new() };
        assert(store@ =~= Map::<Seq<char>, FeedView>::empty());
        store
    }

    /// Files `feed` under its discovery key, replacing a feed filed there.
    pub fn add(&mut self, feed: Feed)
        ensures
            final(self)@ == old(self)@.insert(hex_encoded(feed@.discovery_key), feed@),
    {
        proof {
            use_type_invariant(&*self);
            use_type_invariant(&feed);
        }
        let hdkey = encode_hex(feed.discovery_key());
        let ghost fv = feed@;
        let mut feeds = StringHashMap::new();
        std::mem::swap(&mut feeds, &mut self.feeds);
        feeds.insert(hdkey, feed);
        let ghost after = feeds@.map_values(|f: Feed| f@);
        assert(after =~= old(self)@.insert(hex_encoded(fv.discovery_key), fv));
        self.feeds = feeds;
    }

    /// The feed filed under discovery key `discovery_key`, if any.
    pub fn get(&self, discovery_key: &[u8]) -> (feed: Option<&Feed>)
        ensures
            match feed {
                Some(f) => lookup(self@, discovery_key@) == Some(f@),
                None => lookup(self@, discovery_key@) is None,
            },
    {
        let hdkey = encode_hex(discovery_key);
        self.feeds.get(hdkey.as_str())
    }

    /// The store of a replication of the feed whose public key is the hex
    /// string `key`: that one feed, with nothing downloaded. The key must be
    /// an even number of hex digits, at most 128 of them.
    pub fn for_hex_key(key: &str) -> (store: FeedStore)
        requires
            key.spec_bytes().len() <= 128,
            key.spec_bytes().len() % 2 == 0,
            all_hex_digits(key.spec_bytes()),
        ensures
            ({
                let k = hex_decoded(key.spec_bytes());
                let dk = hypercore_discovery_key(k);
                store@ == Map::<Seq<char>, FeedView>::empty().insert(
                    hex_encoded(dk),
                    FeedView { key: k, discovery_key: dk, state: initial_state() },
                )
            }),
    {
        let mut store = FeedStore::new();
        match decode_hex(key.as_bytes()) {
            Ok(k) => {
                store.add(Feed::new(k));
            },
            Err(e) => {
                assert(!hex_decode_result(key.spec_bytes(), Err(e)));
            },
        }
        store
    }

    /// The public key to open a channel with when the remote announces
    /// `discovery_key`, if a feed is filed under it.
    pub fn on_discoverykey(&self, discovery_key: &[u8]) -> (key: Option<Vec<u8>>)
        ensures
            match lookup(self@, discovery_key@) {
                Some(f) => key matches Some(k) && k@ == f.key && hypercore_discovery_key(k@)
                    == discovery_key@,
                None => key is None,
            },
    {
        proof {
            use_type_invariant(self);
        }
        match self.get(discovery_key) {
            Some(feed) => {
                proof {
                    lemma_hex_encoded_injective(feed@.discovery_key, discovery_key@);
                }
                Some(slice_to_vec(feed.key()))
            },
            None => None,
        }
    }

    /// Takes in an event of the replication stream; returns what to do.
    pub fn on_event(&self, event: &ProtocolEvent) -> (action: SessionAction)
        ensures
            event_outcome(self@, *event, action),
    {
        match event {
            ProtocolEvent::DiscoveryKey(dk) => match self.on_discoverykey(dk.as_slice()) {
                Some(key) => SessionAction::Open { key },
                None => SessionAction::Ignore,
            },
            ProtocolEvent::Channel(dk) => match self.get(dk.as_slice()) {
                Some(feed) => SessionAction::Attach { want: feed.on_open() },
                None => SessionAction::Ignore,
            },
            _ => SessionAction::Ignore,
        }
    }

    /// Whether the feed filed under `discovery_key` can take in `msg` (see
    /// `message_admissible`); any message can go to a discovery key with no
    /// feed.
    pub fn admits(&self, discovery_key: &[u8], msg: &FeedMessage) -> (ok: bool)
        ensures
            ok == match lookup(self@, discovery_key@) {
                Some(f) => message_admissible(f.state, *msg),
                None => true,
            },
    {
        match self.get(discovery_key) {
            Some(feed) => feed.admits(msg),
            None => true,
        }
    }

    /// Hands `msg`, which arrived on the channel for `discovery_key`, to the
    /// feed filed under that key; returns what to send. A message for a
    /// discovery key with no feed changes nothing.
    pub fn on_message(&mut self, discovery_key: &[u8], msg: FeedMessage) -> (action: FeedAction)
        requires
            match lookup(old(self)@, discovery_key@) {
                Some(f) => message_admissible(f.state, msg),
                None => true,
            },
        ensures
            match lookup(old(self)@, discovery_key@) {
                None => final(self)@ == old(self)@ && action matches FeedAction::Nothing,
                Some(f) => {
                    let h = hex_encoded(discovery_key@);
                    let g = final(self)@[h];
                    &&& final(self)@ == old(self)@.insert(h, g)
                    &&& g.key == f.key
                    &&& g.discovery_key == f.discovery_key
                    &&& message_outcome(f.state, msg, g.state, action)
                },
            },
    {
        proof {
            use_type_invariant(&*self);
        }
        let hdkey = encode_hex(discovery_key);
        let copy = match self.feeds.get(hdkey.as_str()) {
            None => None,
            Some(f) => Some(f.duplicate()),
        };
        match copy {
            None => FeedAction::Nothing,
            Some(mut feed) => {
                let action = feed.on_message(msg);
                let ghost g = feed@;
                let mut feeds = StringHashMap::new();
                std::mem::swap(&mut feeds, &mut self.feeds);
                feeds.insert(hdkey, feed);
                let ghost after = feeds@.map_values(|f: Feed| f@);
                assert(after =~= old(self)@.insert(hex_encoded(discovery_key@), g));
                self.feeds = feeds;
                action
            },
        }
    }
}

} // verus!
