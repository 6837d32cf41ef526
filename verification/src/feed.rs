//! The download state of one feed: it follows the head that the remote
//! announces, asks for the blocks one after another, keeps what arrives and,
//! once the last announced block is in, hands out the text of all blocks.

use std::collections::BTreeMap;
use vstd::prelude::*;
use vstd::std_specs::btree::increasing_seq;
use vstd::std_specs::cmp::OrdSpec;
use vstd::std_specs::iter::IteratorSpec;
use vstd::utf8::*;

verus! {

/// The abstract state of a feed's download.
pub struct FeedStateView {
    pub remote_head: u64,
    pub started: bool,
    pub blocks: Map<u64, Seq<u8>>,
}

/// The head index that the remote announced, whether the download has
/// started, and the blocks received so far, by index.
pub struct FeedState {
    pub remote_head: u64,
    pub started: bool,
    pub data: BTreeMap<u64, Vec<u8>>,
}

impl View for FeedState {
    type V = FeedStateView;

    open spec fn view(&self) -> FeedStateView {
        FeedStateView {
            remote_head: self.remote_head,
            started: self.started,
            blocks: self.data@.map_values(|v: Vec<u8>| v@),
        }
    }
}

/// The state of a feed before anything was received.
pub open spec fn initial_state() -> FeedStateView {
    FeedStateView { remote_head: 0, started: false, blocks: Map::empty() }
}

impl Default for FeedState {
    fn default() -> (s: Self)
        ensures
            s@ == initial_state(),
    {
        let s = FeedState { remote_head: 0, started: false, data: BTreeMap::new() };
        assert(s@.blocks =~= Map::<u64, Seq<u8>>::empty());
        s
    }
}

/// What a `have` announcing head `start` does to the state, and the index of
/// the block that it asks for, if any: a new head is taken when none is
/// known yet or when it lies beyond the known one; the first such head
/// starts the download with a request for block 0.
pub open spec fn have_step(s: FeedStateView, start: u64) -> (FeedStateView, Option<u64>) {
    if s.remote_head == 0 || start > s.remote_head {
        (
            FeedStateView { remote_head: start, started: true, blocks: s.blocks },
            if s.started { None } else { Some(0u64) },
        )
    } else {
        (s, None)
    }
}

/// What a `data` message for block `index` does to the state: its value, if
/// it carries one, is stored under `index` (replacing an earlier one); the
/// next block is asked for while it lies at or below the remote head, and
/// otherwise (`None`) the download is complete.
pub open spec fn data_step(s: FeedStateView, index: u64, value: Option<Seq<u8>>) -> (
    FeedStateView,
    Option<u64>,
)
    recommends
        index < u64::MAX,
{
    let t = match value {
        Some(v) => FeedStateView { blocks: s.blocks.insert(index, v), ..s },
        None => s,
    };
    if s.remote_head >= index + 1 {
        (t, Some((index + 1) as u64))
    } else {
        (t, None)
    }
}

/// A download starts once: a `have` asks for the first block only of a
/// feed that has not started, and leaves it started; no step makes a
/// started feed unstarted.
pub proof fn lemma_download_starts_once(
    s: FeedStateView,
    start: u64,
    index: u64,
    value: Option<Seq<u8>>,
)
    requires
        index < u64::MAX,
    ensures
        s.started ==> have_step(s, start).1 is None,
        have_step(s, start).1 is Some ==> !s.started && have_step(s, start).0.started,
        s.started ==> have_step(s, start).0.started,
        data_step(s, index, value).0.started == s.started,
{
}

/// Once a head other than 0 is known it never moves back: a `have` then
/// takes a head only beyond the known one, and data leaves the head as it is.
pub proof fn lemma_head_never_moves_back(
    s: FeedStateView,
    start: u64,
    index: u64,
    value: Option<Seq<u8>>,
)
    requires
        index < u64::MAX,
    ensures
        s.remote_head != 0 ==> have_step(s, start).0.remote_head >= s.remote_head,
        data_step(s, index, value).0.remote_head == s.remote_head,
{
}

/// The feed asks only for blocks the remote announced: the first block
/// after a `have`, and after block `index` the block `index + 1`, only
/// while it lies at or below the announced head.
pub proof fn lemma_requests_within_head(
    s: FeedStateView,
    start: u64,
    index: u64,
    value: Option<Seq<u8>>,
)
    requires
        index < u64::MAX,
    ensures
        have_step(s, start).1 matches Some(i) ==> i == 0,
        data_step(s, index, value).1 matches Some(i) ==> i == index + 1 && i <= s.remote_head,
        data_step(s, index, value).1 is None ==> index >= s.remote_head,
{
}

/// Received blocks are kept: a `have` leaves the blocks alone, and data
/// for block `index` stores its value there and touches no other block.
pub proof fn lemma_blocks_are_kept(
    s: FeedStateView,
    start: u64,
    index: u64,
    value: Option<Seq<u8>>,
)
    requires
        index < u64::MAX,
    ensures
        have_step(s, start).0.blocks == s.blocks,
        forall|k: u64|
            k != index ==> (#[trigger] data_step(s, index, value).0.blocks.contains_key(k)
                == s.blocks.contains_key(k)) && (s.blocks.contains_key(k) ==> data_step(
                s,
                index,
                value,
            ).0.blocks[k] == s.blocks[k]),
        value matches Some(v) ==> data_step(s, index, value).0.blocks.contains_key(index)
            && data_step(s, index, value).0.blocks[index] == v,
        value is None ==> data_step(s, index, value).0.blocks == s.blocks,
{
}

/// The order in which two different blocks arrive does not matter: the
/// stored blocks, and so the text, are the same either way.
pub proof fn lemma_arrival_order_is_irrelevant(
    s: FeedStateView,
    i: u64,
    vi: Seq<u8>,
    j: u64,
    vj: Seq<u8>,
)
    requires
        i < u64::MAX,
        j < u64::MAX,
        i != j,
    ensures
        data_step(data_step(s, i, Some(vi)).0, j, Some(vj)).0 == data_step(
            data_step(s, j, Some(vj)).0,
            i,
            Some(vi),
        ).0,
{
    assert(s.blocks.insert(i, vi).insert(j, vj) =~= s.blocks.insert(j, vj).insert(i, vi));
}

/// The state after the data messages `msgs`, each a block index and the
/// value it carries, taken in order.
pub open spec fn data_history(s: FeedStateView, msgs: Seq<(u64, Option<Seq<u8>>)>) -> FeedStateView
    decreases msgs.len(),
{
    if msgs.len() == 0 {
        s
    } else {
        data_step(data_history(s, msgs.drop_last()), msgs.last().0, msgs.last().1).0
    }
}

/// Whether some message of `msgs` carries a value for block `k`.
pub open spec fn written(msgs: Seq<(u64, Option<Seq<u8>>)>, k: u64) -> bool {
    exists|j: int| 0 <= j < msgs.len() && msgs[j].0 == k && (#[trigger] msgs[j]).1 is Some
}

/// Whether message `j` is the last of `msgs` that carries a value for
/// block `k`.
pub open spec fn is_last_write(msgs: Seq<(u64, Option<Seq<u8>>)>, k: u64, j: int) -> bool {
    &&& 0 <= j < msgs.len()
    &&& msgs[j].0 == k
    &&& msgs[j].1 is Some
    &&& forall|l: int| j < l < msgs.len() && (#[trigger] msgs[l]).0 == k ==> msgs[l].1 is None
}

/// For each block that `msgs` writes, the value of its last write.
pub open spec fn last_writes(msgs: Seq<(u64, Option<Seq<u8>>)>) -> Map<u64, Seq<u8>> {
    Map::new(
        |k: u64| written(msgs, k),
        |k: u64| msgs[choose|j: int| is_last_write(msgs, k, j)].1.unwrap(),
    )
}

/// The facts of the last-write law, proved together by induction.
proof fn lemma_history_facts(s: FeedStateView, msgs: Seq<(u64, Option<Seq<u8>>)>)
    requires
        forall|j: int| 0 <= j < msgs.len() ==> (#[trigger] msgs[j]).0 < u64::MAX,
    ensures
        data_history(s, msgs).remote_head == s.remote_head,
        data_history(s, msgs).started == s.started,
        forall|k: u64| #[trigger]
            data_history(s, msgs).blocks.contains_key(k) <==> s.blocks.contains_key(k) || written(
                msgs,
                k,
            ),
        forall|k: u64, j: int| #[trigger]
            is_last_write(msgs, k, j) ==> data_history(s, msgs).blocks[k] == msgs[j].1.unwrap(),
        forall|k: u64|
            !written(msgs, k) && s.blocks.contains_key(k) ==> #[trigger] data_history(
                s,
                msgs,
            ).blocks[k] == s.blocks[k],
        forall|k: u64| written(msgs, k) ==> exists|j: int| #[trigger] is_last_write(msgs, k, j),
    decreases msgs.len(),
{
    if msgs.len() > 0 {
        let prev = msgs.drop_last();
        let n = msgs.len() - 1;
        let (i, v) = msgs.last();
        assert forall|j: int| 0 <= j < prev.len() implies (#[trigger] prev[j]).0 < u64::MAX by {
            assert(prev[j] == msgs[j]);
        }
        lemma_history_facts(s, prev);
        let before = data_history(s, prev);
        let after = data_history(s, msgs);
        assert(after == data_step(before, i, v).0);
        assert forall|k: u64| k != i || v is None implies written(msgs, k) == written(prev, k) by {
            if written(msgs, k) {
                let j = choose|j: int| 0 <= j < msgs.len() && msgs[j].0 == k && (#[trigger] msgs[j]).1 is Some;
                assert(j < n);
                assert(prev[j] == msgs[j]);
            }
            if written(prev, k) {
                let j = choose|j: int| 0 <= j < prev.len() && prev[j].0 == k && (#[trigger] prev[j]).1 is Some;
                assert(prev[j] == msgs[j]);
            }
        }
        assert forall|k: u64, j: int| k != i || v is None implies is_last_write(msgs, k, j)
            == (is_last_write(prev, k, j) && j < n) by {
            if 0 <= j < n {
                assert(prev[j] == msgs[j]);
                assert forall|l: int| j < l < prev.len() implies prev[l] == msgs[l] by {}
            }
        }
        if let Some(val) = v {
            assert(is_last_write(msgs, i, n));
            assert(written(msgs, i)) by {
                assert(msgs[n].0 == i && msgs[n].1 is Some);
            }
            assert forall|j: int| #[trigger] is_last_write(msgs, i, j) implies j == n by {
                if j < n {
                    assert(msgs[n].0 == i);
                }
            }
        }
        assert forall|k: u64| written(msgs, k) implies exists|j: int| #[trigger] is_last_write(msgs, k, j) by {
            if k == i && v is Some {
                assert(is_last_write(msgs, i, n));
            } else {
                let j = choose|j: int| #[trigger] is_last_write(prev, k, j);
                assert(is_last_write(msgs, k, j));
            }
        }
    }
}

/// The last write wins: after a history of data messages, the stored
/// blocks are the earlier ones overwritten by, for each block that the
/// history writes, the value of its last write (a message without a value
/// writes nothing); the head and the start are as before. The text that a
/// completed download hands out (`blocks_text` of the stored blocks) is so
/// the text of those values in increasing order of index.
pub proof fn lemma_last_write_wins(s: FeedStateView, msgs: Seq<(u64, Option<Seq<u8>>)>)
    requires
        forall|j: int| 0 <= j < msgs.len() ==> (#[trigger] msgs[j]).0 < u64::MAX,
    ensures
        data_history(s, msgs) == (FeedStateView {
            remote_head: s.remote_head,
            started: s.started,
            blocks: s.blocks.union_prefer_right(last_writes(msgs)),
        }),
        blocks_text(data_history(s, msgs).blocks) == blocks_text(
            s.blocks.union_prefer_right(last_writes(msgs)),
        ),
{
    lemma_history_facts(s, msgs);
    let got = data_history(s, msgs).blocks;
    let want = s.blocks.union_prefer_right(last_writes(msgs));
    assert forall|k: u64| #[trigger] got.contains_key(k) implies got[k] == want[k] by {
        if written(msgs, k) {
            let j = choose|j: int| #[trigger] is_last_write(msgs, k, j);
            assert(got[k] == msgs[j].1.unwrap());
            let c = choose|j: int| is_last_write(msgs, k, j);
            assert(is_last_write(msgs, k, c));
            if c < j {
                assert(msgs[j].0 == k);
            } else if j < c {
                assert(msgs[c].0 == k);
            }
            assert(last_writes(msgs)[k] == msgs[c].1.unwrap());
        }
    }
    assert(got =~= want);
}

/// Whether every stored block is valid UTF-8.
pub open spec fn blocks_are_utf8(blocks: Map<u64, Seq<u8>>) -> bool {
    forall|k: u64| #[trigger] blocks.contains_key(k) ==> valid_utf8(blocks[k])
}

/// The text of the blocks with an index below `n`, in increasing order of
/// index, each block read as UTF-8.
pub open spec fn text_below(blocks: Map<u64, Seq<u8>>, n: nat) -> Seq<char>
    decreases n,
{
    if n == 0 {
        seq![]
    } else {
        let k = (n - 1) as u64;
        text_below(blocks, (n - 1) as nat) + if blocks.contains_key(k) {
            decode_utf8(blocks[k])
        } else {
            seq![]
        }
    }
}

/// The text of all blocks, in increasing order of index, each block read as
/// UTF-8.
pub open spec fn blocks_text(blocks: Map<u64, Seq<u8>>) -> Seq<char> {
    text_below(blocks, 0x1_0000_0000_0000_0000nat)
}

/// The text of the blocks whose indexes `keys` lists, in that order.
pub open spec fn text_of_keys(blocks: Map<u64, Seq<u8>>, keys: Seq<u64>) -> Seq<char>
    decreases keys.len(),
{
    if keys.len() == 0 {
        seq![]
    } else {
        text_of_keys(blocks, keys.drop_last()) + decode_utf8(blocks[keys.last()])
    }
}

/// Reading the blocks along a strictly increasing list of indexes that holds
/// exactly the stored indexes below `n` gives the text below `n`.
proof fn lemma_text_of_sorted_keys(blocks: Map<u64, Seq<u8>>, keys: Seq<u64>, n: nat)
    requires
        n <= 0x1_0000_0000_0000_0000nat,
        forall|i: int, j: int| 0 <= i < j < keys.len() ==> keys[i] < keys[j],
        forall|i: int| 0 <= i < keys.len() ==> (keys[i] as nat) < n,
        forall|i: int| 0 <= i < keys.len() ==> blocks.contains_key(#[trigger] keys[i]),
        forall|k: u64| #[trigger] blocks.contains_key(k) && (k as nat) < n ==> keys.contains(k),
    ensures
        text_of_keys(blocks, keys) == text_below(blocks, n),
    decreases n,
{
    if n == 0 {
        if keys.len() > 0 {
            assert((keys[0] as nat) < n);
        }
    } else {
        let m = (n - 1) as u64;
        if keys.len() > 0 && keys.last() == m {
            let rest = keys.drop_last();
            assert forall|k: u64| #[trigger] blocks.contains_key(k) && (k as nat) < n - 1 implies rest.contains(k) by {
                assert(keys.contains(k));
                let i = choose|i: int| 0 <= i < keys.len() && keys[i] == k;
                assert(i != keys.len() - 1);
                assert(rest[i] == k);
            }
            assert forall|i: int| 0 <= i < rest.len() implies (rest[i] as nat) < n - 1 by {
                assert(keys[i] < keys[keys.len() - 1]);
            }
            lemma_text_of_sorted_keys(blocks, rest, (n - 1) as nat);
            assert(blocks.contains_key(m)) by {
                assert(blocks.contains_key(keys[keys.len() - 1]));
            }
        } else {
            assert(!blocks.contains_key(m)) by {
                if blocks.contains_key(m) {
                    assert(keys.contains(m));
                    let i = choose|i: int| 0 <= i < keys.len() && keys[i] == m;
                    assert((keys[keys.len() - 1] as nat) < n);
                    if i < keys.len() - 1 {
                        assert(keys[i] < keys[keys.len() - 1]);
                    }
                }
            }
            assert forall|i: int| 0 <= i < keys.len() implies (keys[i] as nat) < n - 1 by {
                if keys[i] == m {
                    assert(blocks.contains_key(keys[i]));
                }
            }
            lemma_text_of_sorted_keys(blocks, keys, (n - 1) as nat);
        }
    }
}

/// Reading the blocks along the strictly increasing list of all stored
/// indexes gives the text of the blocks; when each block read so is UTF-8,
/// all blocks are.
proof fn lemma_read_in_key_order(blocks: Map<u64, Seq<u8>>, keys: Seq<u64>)
    requires
        forall|i: int, j: int| 0 <= i < j < keys.len() ==> keys[i] < keys[j],
        keys.to_set() == blocks.dom(),
    ensures
        text_of_keys(blocks, keys) == blocks_text(blocks),
        (forall|i: int| 0 <= i < keys.len() ==> valid_utf8(blocks[#[trigger] keys[i]]))
            ==> blocks_are_utf8(blocks),
{
    assert forall|i: int| 0 <= i < keys.len() implies (keys[i] as nat) < 0x1_0000_0000_0000_0000nat by {}
    assert forall|i: int| 0 <= i < keys.len() implies blocks.contains_key(#[trigger] keys[i]) by {
        assert(keys.to_set().contains(keys[i]));
    }
    assert forall|k: u64| #[trigger] blocks.contains_key(k) && (k as nat) < 0x1_0000_0000_0000_0000nat implies keys.contains(k) by {
        assert(keys.to_set().contains(k));
    }
    lemma_text_of_sorted_keys(blocks, keys, 0x1_0000_0000_0000_0000nat);
    if forall|i: int| 0 <= i < keys.len() ==> valid_utf8(blocks[#[trigger] keys[i]]) {
        assert forall|k: u64| #[trigger] blocks.contains_key(k) implies valid_utf8(blocks[k]) by {
            assert(keys.to_set().contains(k));
            let i = choose|i: int| 0 <= i < keys.len() && keys[i] == k;
            assert(valid_utf8(blocks[keys[i]]));
        }
    }
}

/// The texts of `blocks`, each read as UTF-8, one after the other.
pub open spec fn joined_text(blocks: Seq<Seq<u8>>) -> Seq<char>
    decreases blocks.len(),
{
    if blocks.len() == 0 {
        seq![]
    } else {
        joined_text(blocks.drop_last()) + decode_utf8(blocks.last())
    }
}

/// The state of a feed whose remote announced head `blocks.len() - 1` and
/// which received the first `i` of `blocks`, in order.
pub open spec fn downloaded(blocks: Seq<Seq<u8>>, i: nat) -> FeedStateView {
    FeedStateView {
        remote_head: (blocks.len() - 1) as u64,
        started: true,
        blocks: Map::new(|k: u64| (k as nat) < i, |k: u64| blocks[k as int]),
    }
}

/// The text below `n` of the first `i` of `blocks` is the joined text of the
/// first `min(n, i)` of them.
proof fn lemma_downloaded_text(blocks: Seq<Seq<u8>>, i: nat, n: nat)
    requires
        i <= blocks.len(),
        blocks.len() <= 0x1_0000_0000_0000_0000nat,
        n <= 0x1_0000_0000_0000_0000nat,
    ensures
        text_below(downloaded(blocks, i).blocks, n) == joined_text(
            blocks.take(if n < i { n as int } else { i as int }),
        ),
    decreases n,
{
    let m = downloaded(blocks, i).blocks;
    if n == 0 {
        assert(blocks.take(0) =~= Seq::<Seq<u8>>::empty());
    } else {
        lemma_downloaded_text(blocks, i, (n - 1) as nat);
        let k = (n - 1) as u64;
        if n <= i {
            assert(m.contains_key(k));
            assert(blocks.take(n as int).drop_last() =~= blocks.take(n - 1));
        } else {
            assert(!m.contains_key(k));
        }
    }
}

/// A download runs as the protocol means it to: a fresh feed whose remote
/// announces head `blocks.len() - 1` asks for block 0; each block received
/// in order is stored and followed by a request for the next, until the
/// last, after which the download is complete; the text it then holds is
/// the text of the blocks in order, and it is UTF-8 exactly when each block
/// is.
pub proof fn lemma_download_in_order(blocks: Seq<Seq<u8>>, i: nat)
    requires
        1 <= blocks.len() <= u64::MAX,
        i < blocks.len(),
    ensures
        have_step(initial_state(), (blocks.len() - 1) as u64) == (downloaded(blocks, 0), Some(0u64)),
        data_step(downloaded(blocks, i), i as u64, Some(blocks[i as int])) == (
            downloaded(blocks, i + 1),
            if i + 1 < blocks.len() {
                Some((i + 1) as u64)
            } else {
                None
            },
        ),
        blocks_text(downloaded(blocks, blocks.len()).blocks) == joined_text(blocks),
        blocks_are_utf8(downloaded(blocks, blocks.len()).blocks) <==> forall|j: int|
            0 <= j < blocks.len() ==> valid_utf8(#[trigger] blocks[j]),
{
    assert(downloaded(blocks, 0).blocks =~= Map::<u64, Seq<u8>>::empty());
    assert(downloaded(blocks, i).blocks.insert(i as u64, blocks[i as int]) =~= downloaded(
        blocks,
        i + 1,
    ).blocks);
    let full = downloaded(blocks, blocks.len()).blocks;
    lemma_downloaded_text(blocks, blocks.len(), 0x1_0000_0000_0000_0000nat);
    assert(blocks.take(blocks.len() as int) =~= blocks);
    if forall|j: int| 0 <= j < blocks.len() ==> valid_utf8(#[trigger] blocks[j]) {
        assert forall|k: u64| #[trigger] full.contains_key(k) implies valid_utf8(full[k]) by {
            assert(valid_utf8(blocks[k as int]));
        }
    }
    if blocks_are_utf8(full) {
        assert forall|j: int| 0 <= j < blocks.len() implies valid_utf8(#[trigger] blocks[j]) by {
            assert(full.contains_key(j as u64));
        }
    }
}

/// Reads `bytes` as UTF-8 text.
///
/// Trusted: calls `std::str::from_utf8`, which succeeds exactly when the
/// bytes are valid UTF-8 and then yields the characters they encode.
#[verifier::external_body]
fn utf8_text(bytes: &[u8]) -> (r: Option<&str>)
    ensures
        r is Some <==> valid_utf8(bytes@),
        r matches Some(t) ==> t@ == decode_utf8(bytes@),
{
    std::str::from_utf8(bytes).ok()
}

impl FeedState {
    /// Takes in the head `start` that the remote announces; returns the
    /// index of the block to ask for, if any.
    pub fn on_have(&mut self, start: u64) -> (request: Option<u64>)
        ensures
            (final(self)@, request) == have_step(old(self)@, start),
    {
        if self.remote_head == 0 || start > self.remote_head {
            self.remote_head = start;
            if !self.started {
                self.started = true;
                return Some(0);
            }
        }
        None
    }

    /// Takes in block `index` with its value, if any; returns the index of
    /// the next block to ask for, or `None` when the download is complete.
    pub fn on_data(&mut self, index: u64, value: Option<Vec<u8>>) -> (next: Option<u64>)
        requires
            index < u64::MAX,
        ensures
            (final(self)@, next) == data_step(
                old(self)@,
                index,
                match value {
                    Some(v) => Some(v@),
                    None => None,
                },
            ),
    {
        broadcast use vstd::std_specs::btree::group_btree_axioms;
        broadcast use vstd::laws_cmp::group_laws_cmp;

        let ghost old_blocks = self@.blocks;
        match value {
            Some(v) => {
                let ghost vv = v@;
                self.data.insert(index, v);
                assert(self@.blocks =~= old_blocks.insert(index, vv));
            },
            None => {},
        }
        let next = index + 1;
        if self.remote_head >= next {
            Some(next)
        } else {
            None
        }
    }

    /// Whether every stored block is valid UTF-8.
    pub fn text_is_valid(&self) -> (valid: bool)
        ensures
            valid == blocks_are_utf8(self@.blocks),
    {
        self.read_text().is_some()
    }

    /// The text of all blocks, in increasing order of index, each block read
    /// as UTF-8; every block must be valid UTF-8.
    pub fn content(&self) -> (text: String)
        requires
            blocks_are_utf8(self@.blocks),
        ensures
            text@ == blocks_text(self@.blocks),
    {
        match self.read_text() {
            Some(text) => text,
            None => String::new(),
        }
    }

    /// A copy of the state.
    pub fn duplicate(&self) -> (copy: Self)
        ensures
            copy@ == self@,
    {
        FeedState {
            remote_head: self.remote_head,
            started: self.started,
            data: self.data.clone(),
        }
    }

    /// The text of all blocks, in increasing order of index; `None` when a
    /// block is not valid UTF-8.
    fn read_text(&self) -> (text: Option<String>)
        ensures
            text is Some <==> blocks_are_utf8(self@.blocks),
            text matches Some(t) ==> t@ == blocks_text(self@.blocks),
    {
        broadcast use vstd::std_specs::btree::group_btree_axioms;
        broadcast use vstd::laws_cmp::group_laws_cmp;

        let ghost m = self.data@;
        let values = self.data.values();
        let ghost keys = choose|keys: Seq<u64>|
            {
                &&& increasing_seq(keys)
                &&& keys.to_set() == m.dom()
                &&& keys.no_duplicates()
                &&& values.remaining() == keys.map(|i: int, k: u64| &m[k])
            };
        assert(vstd::laws_cmp::obeys_cmp::<u64>());
        assert(increasing_seq(keys));
        assert forall|i: int, j: int| 0 <= i < j < keys.len() implies keys[i] < keys[j] by {
            assert(keys[i].cmp_spec(&keys[j]) is Less);
        }
        assert(self@.blocks.dom() =~= m.dom());
        assert forall|i: int| 0 <= i < keys.len() implies m.contains_key(#[trigger] keys[i]) by {
            assert(keys.to_set().contains(keys[i]));
        }
        let mut text = String::new();
        let ghost mut done: int = 0;
        for v in it: values
            invariant
                done == it.index(),
                m == self.data@,
                it.seq() == keys.map(|i: int, k: u64| &m[k]),
                forall|i: int| 0 <= i < keys.len() ==> m.contains_key(#[trigger] keys[i]),
                text@ == text_of_keys(self@.blocks, keys.take(it.index())),
                forall|i: int| 0 <= i < it.index() ==> valid_utf8(self@.blocks[#[trigger] keys[i]]),
        {
            let ghost i = it.index();
            assert(v@ == self@.blocks[keys[i]]);
            match utf8_text(v.as_slice()) {
                Some(t) => {
                    text.append(t);
                    assert(keys.take(i + 1).drop_last() =~= keys.take(i));
                    proof {
                        done = done + 1;
                    }
                },
                None => {
                    assert(self@.blocks.contains_key(keys[i]));
                    assert(!valid_utf8(self@.blocks[keys[i]]));
                    return None;
                },
            }
        }
        assert(keys.take(done) =~= keys);
        proof {
            lemma_read_in_key_order(self@.blocks, keys);
        }
        Some(text)
    }
}

} // verus!

verus! {

/// The discovery key that hypercore derives from a feed's public key.
pub uninterp spec fn hypercore_discovery_key(key: Seq<u8>) -> Seq<u8>;

/// Derives the discovery key of a feed's public key.
///
/// Trusted: calls `hypercore_protocol::discovery_key`, a keyed BLAKE2b hash
/// of the word `hypercore` under `key`, 32 bytes long. It panics on keys
/// longer than 64 bytes (the longest BLAKE2b key), which `requires` leaves out.
#[verifier::external_body]
fn derive_discovery_key(key: &[u8]) -> (dk: Vec<u8>)
    requires
        key@.len() <= 64,
    ensures
        dk@ == hypercore_discovery_key(key@),
        dk@.len() == 32,
{
    hypercore_protocol::discovery_key(key).to_vec()
}

/// The event that a replication hands to the application.
pub enum AppEvent {
    /// The whole content of a feed, read as text.
    ContentLoaded(String),
}

/// A message that arrives on a feed's channel, with what the feed reads of it.
pub enum FeedMessage {
    /// The remote has blocks up to `start`.
    Have { start: u64 },
    /// Block `index`, with its value if the remote sent one.
    Data { index: u64, value: Option<Vec<u8>> },
    /// Any other message, which the feed does not act on.
    Other,
}

/// A request for a range of blocks, from `start`, of `length` blocks or,
/// with no length, of all blocks.
#[derive(Debug, Clone, Copy, PartialEq, Eq)]
pub struct Want {
    pub start: u64,
    pub length: Option<u64>,
}

/// What the feed does after a message.
pub enum FeedAction {
    /// Nothing to send.
    Nothing,
    /// Ask the remote for block `index`.
    Request { index: u64 },
    /// Hand an event to the application.
    Emit(AppEvent),
}

/// The abstract value of a feed.
pub struct FeedView {
    pub key: Seq<u8>,
    pub discovery_key: Seq<u8>,
    pub state: FeedStateView,
}

/// A feed: a single unit of replication, an append-only log, read here
/// sequentially from its first block.
pub struct Feed {
    pub(crate) key: Vec<u8>,
    pub(crate) discovery_key: Vec<u8>,
    pub(crate) state: FeedState,
}

impl View for Feed {
    type V = FeedView;

    closed spec fn view(&self) -> FeedView {
        FeedView { key: self.key@, discovery_key: self.discovery_key@, state: self.state@ }
    }
}

/// The message's value, with its bytes taken by their view.
pub open spec fn value_view(value: Option<Vec<u8>>) -> Option<Seq<u8>> {
    match value {
        Some(v) => Some(v@),
        None => None,
    }
}

/// What a feed in state `s` answers to a message that leaves it in state
/// `t`: requests as the steps say, and, when a data message completes the
/// download, the text of all blocks.
pub open spec fn message_outcome(
    s: FeedStateView,
    msg: FeedMessage,
    t: FeedStateView,
    action: FeedAction,
) -> bool {
    match msg {
        FeedMessage::Have { start } => {
            &&& t == have_step(s, start).0
            &&& match have_step(s, start).1 {
                Some(i) => action matches FeedAction::Request { index } && index == i,
                None => action matches FeedAction::Nothing,
            }
        },
        FeedMessage::Data { index, value } => {
            let (u, next) = data_step(s, index, value_view(value));
            &&& t == u
            &&& match next {
                Some(i) => action matches FeedAction::Request { index: j } && j == i,
                None => action matches FeedAction::Emit(AppEvent::ContentLoaded(text)) && text@
                    == blocks_text(u.blocks),
            }
        },
        FeedMessage::Other => t == s && action matches FeedAction::Nothing,
    }
}

/// Whether a feed in state `s` can take in `msg`: the index after a data
/// block's must be representable, and when the block completes the
/// download, every block must then be valid UTF-8, so that the text can be
/// read.
pub open spec fn message_admissible(s: FeedStateView, msg: FeedMessage) -> bool {
    match msg {
        FeedMessage::Data { index, value } => {
            &&& index < u64::MAX
            &&& data_step(s, index, value_view(value)).1 is None ==> blocks_are_utf8(
                data_step(s, index, value_view(value)).0.blocks,
            )
        },
        _ => true,
    }
}

/// The head that a remote announces with a range of `length` blocks from
/// `start`: the index of its last block (at most `u64::MAX`), or none for an
/// empty range or a range that is dropped.
pub open spec fn range_head(start: u64, length: u64, drop: bool) -> Option<u64> {
    if drop || length == 0 {
        None
    } else if start + length - 1 > u64::MAX {
        Some(u64::MAX)
    } else {
        Some((start + length - 1) as u64)
    }
}

/// Reads the head that a remote announces with a range of `length` blocks
/// from `start`.
pub fn announced_head(start: u64, length: u64, drop: bool) -> (head: Option<u64>)
    ensures
        head == range_head(start, length, drop),
{
    if drop || length == 0 {
        None
    } else if start > u64::MAX - (length - 1) {
        Some(u64::MAX)
    } else {
        Some(start + (length - 1))
    }
}

/// A feed answers a `have` with a request, for block 0, exactly when its
/// download has not started yet and the have brings a new head (the first
/// one, or one beyond the known head); every other have, and in particular
/// every have once the download has started, is answered with nothing.
/// A new head is taken, an old or repeated one is ignored, and no block
/// changes.
pub proof fn lemma_have_answer(s: FeedStateView, start: u64, t: FeedStateView, action: FeedAction)
    requires
        message_outcome(s, FeedMessage::Have { start }, t, action),
    ensures
        action is Nothing || action is Request,
        s.started ==> action is Nothing,
        action is Request <==> (!s.started && (s.remote_head == 0 || start > s.remote_head)),
        action matches FeedAction::Request { index } ==> index == 0,
        t.remote_head == (if s.remote_head == 0 || start > s.remote_head {
            start
        } else {
            s.remote_head
        }),
        t.started == (s.started || s.remote_head == 0 || start > s.remote_head),
        t.blocks == s.blocks,
{
}

/// A feed answers a `data` message for block `index` with a request for
/// the very next block, `index + 1`, while that block lies at or below the
/// remote head; otherwise the download is complete and it hands out the
/// text of all blocks it holds. The block's value, if the message carries
/// one, is stored under `index`; the head and the started flag stay.
pub proof fn lemma_data_answer(
    s: FeedStateView,
    index: u64,
    value: Option<Vec<u8>>,
    t: FeedStateView,
    action: FeedAction,
)
    requires
        index < u64::MAX,
        message_outcome(s, FeedMessage::Data { index, value }, t, action),
    ensures
        index < s.remote_head ==> (action matches FeedAction::Request { index: j } && j == index
            + 1),
        index >= s.remote_head ==> (action matches FeedAction::Emit(AppEvent::ContentLoaded(text))
            && text@ == blocks_text(t.blocks)),
        t.remote_head == s.remote_head,
        t.started == s.started,
        t.blocks == (match value {
            Some(v) => s.blocks.insert(index, v@),
            None => s.blocks,
        }),
{
}

/// A feed takes in every message but a data message whatever its state; it
/// takes in a data message for block `index` exactly when `index + 1` is
/// representable and, if the block completes the download (it lies at or
/// beyond the remote head), every block is then valid UTF-8.
pub proof fn lemma_admissible_messages(
    s: FeedStateView,
    start: u64,
    index: u64,
    value: Option<Vec<u8>>,
)
    ensures
        message_admissible(s, FeedMessage::Have { start }),
        message_admissible(s, FeedMessage::Other),
        message_admissible(s, FeedMessage::Data { index, value }) <==> (index < u64::MAX && (
        index >= s.remote_head ==> blocks_are_utf8(
            match value {
                Some(v) => s.blocks.insert(index, v@),
                None => s.blocks,
            },
        ))),
{
}

/// The head announced by a range is the index of its last block: none for
/// a dropped or empty range; `start + length - 1` for a range of `length`
/// blocks from `start`, so that blocks `start` to the head are exactly the
/// range's; `u64::MAX` where that index does not fit.
pub proof fn lemma_range_head_is_last_block(start: u64, length: u64, drop: bool)
    ensures
        range_head(start, length, drop) is None <==> (drop || length == 0),
        !drop && length > 0 && start + length - 1 <= u64::MAX ==> (range_head(
            start,
            length,
            drop,
        ) matches Some(h) && start <= h && h - start + 1 == length),
        !drop && length > 0 && start + length - 1 > u64::MAX ==> range_head(start, length, drop)
            == Some(u64::MAX),
{
}

impl Feed {
    /// The feed's discovery key is the one derived from its key.
    #[verifier::type_invariant]
    pub(crate) open spec fn discovery_key_is_derived(self) -> bool {
        self@.discovery_key == hypercore_discovery_key(self@.key)
    }

    /// A feed for the public key `key`, with nothing downloaded.
    pub fn new(key: Vec<u8>) -> (feed: Self)
        requires
            key@.len() <= 64,
        ensures
            feed@.key == key@,
            feed@.discovery_key == hypercore_discovery_key(key@),
            feed@.state == initial_state(),
    {
        let discovery_key = derive_discovery_key(key.as_slice());
        Feed { discovery_key, key, state: FeedState::default() }
    }

    /// The feed's public key.
    pub fn key(&self) -> (key: &[u8])
        ensures
            key@ == self@.key,
    {
        self.key.as_slice()
    }

    /// The feed's discovery key.
    pub fn discovery_key(&self) -> (dk: &[u8])
        ensures
            dk@ == self@.discovery_key,
    {
        self.discovery_key.as_slice()
    }

    /// The feed's download state.
    pub fn state(&self) -> (state: &FeedState)
        ensures
            state@ == self@.state,
    {
        &self.state
    }

    /// The request that a feed sends when its channel opens: all blocks
    /// from the first.
    pub fn on_open(&self) -> (want: Want)
        ensures
            want == (Want { start: 0, length: None }),
    {
        Want { start: 0, length: None }
    }

    /// Whether the feed can take in `msg` (see `message_admissible`).
    pub fn admits(&self, msg: &FeedMessage) -> (ok: bool)
        ensures
            ok == message_admissible(self@.state, *msg),
    {
        match msg {
            FeedMessage::Data { index, value } => {
                if *index == u64::MAX {
                    false
                } else if self.state.remote_head >= *index + 1 {
                    true
                } else {
                    let mut after = self.state.duplicate();
                    let copy = match value {
                        Some(v) => {
                            let c = v.clone();
                            assert(c@ =~= v@);
                            Some(c)
                        },
                        None => None,
                    };
                    after.on_data(*index, copy);
                    after.text_is_valid()
                }
            },
            _ => true,
        }
    }

    /// Takes in a message from the feed's channel; returns what to send.
    pub fn on_message(&mut self, msg: FeedMessage) -> (action: FeedAction)
        requires
            message_admissible(old(self)@.state, msg),
        ensures
            final(self)@.key == old(self)@.key,
            final(self)@.discovery_key == old(self)@.discovery_key,
            message_outcome(old(self)@.state, msg, final(self)@.state, action),
    {
        proof {
            use_type_invariant(&*self);
        }
        let mut state = FeedState::default();
        std::mem::swap(&mut state, &mut self.state);
        let action = match msg {
            FeedMessage::Have { start } => match state.on_have(start) {
                Some(index) => FeedAction::Request { index },
                None => FeedAction::Nothing,
            },
            FeedMessage::Data { index, value } => match state.on_data(index, value) {
                Some(next) => FeedAction::Request { index: next },
                None => FeedAction::Emit(AppEvent::ContentLoaded(state.content())),
            },
            FeedMessage::Other => FeedAction::Nothing,
        };
        self.state = state;
        action
    }

    /// A copy of the feed.
    pub fn duplicate(&self) -> (copy: Self)
        ensures
            copy@ == self@,
    {
        proof {
            use_type_invariant(self);
        }
        let copy = Feed {
            key: self.key.clone(),
            discovery_key: self.discovery_key.clone(),
            state: self.state.duplicate(),
        };
        assert(copy.key@ =~= self.key@);
        assert(copy.discovery_key@ =~= self.discovery_key@);
        copy
    }
}

} // verus!
