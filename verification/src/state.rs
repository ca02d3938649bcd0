//! The store as a mathematical value, and the laws of its operations.
//!
//! A [`State`] is a log together with the index and the two counters that
//! the store keeps beside it. The operations of the store are stated here as
//! functions and relations on states; the executable store is proved to
//! follow them.

use vstd::prelude::*;
use crate::command::Record;
use crate::error::{KvError, LogChange};
use crate::frame::{frame_at, is_frame, lemma_frame_appended, lemma_frame_extended};
use crate::record::{lemma_no_record_near_end, lemma_record_at_appended, record_bytes};
use crate::replay::{
    binds, clean, frame_weight, holds, index_after, last_about, lemma_binds_extended,
    lemma_last_about, lemma_replay_appended, lemma_replay_latest, lemma_replay_packed,
    lemma_replay_placed, lemma_replay_sound, lemma_torn_tail, live_len, replay, value_at, Replay,
};
use crate::weight::{lemma_weight_same, total_weight};

verus! {

/// A log, and what the store keeps in memory about it.
#[verifier::ext_equal]
pub struct State {
    /// The bytes of the log.
    pub log: Seq<u8>,
    /// Each bound key, with the place of its latest `Put` in the log.
    pub index: Map<Seq<char>, int>,
    /// The estimate of how many records the log holds. It counts a record
    /// too many for each removal.
    pub total: nat,
    /// The number of bound keys.
    pub actual: nat,
}

/// The value that `key` is bound to in `contents`, if it is bound.
pub open spec fn lookup(contents: Map<Seq<char>, Seq<char>>, key: Seq<char>) -> Option<
    Seq<char>,
> {
    if contents.contains_key(key) {
        Some(contents[key])
    } else {
        None
    }
}

/// The contents after the commands `ops` have been carried out in order,
/// starting from `contents`.
pub open spec fn carried_out(contents: Map<Seq<char>, Seq<char>>, ops: Seq<Record>) -> Map<
    Seq<char>,
    Seq<char>,
>
    decreases ops.len(),
{
    if ops.len() == 0 {
        contents
    } else {
        let before = carried_out(contents, ops.drop_last());
        match ops.last() {
            Record::Put { key, value } => before.insert(key, value),
            Record::Rm { key } => before.remove(key),
        }
    }
}

/// The length of the record that the log takes for a `Put` of a key with a
/// value, as the weight of the key; nothing where the log takes none.
pub open spec fn record_weight() -> spec_fn(Seq<char>, Seq<char>) -> nat {
    |k: Seq<char>, v: Seq<char>|
        match record_bytes(Record::Put { key: k, value: v }) {
            Some(bytes) => bytes.len(),
            None => 0,
        }
}

/// The length of a log that holds the given contents and nothing else: one
/// fresh `Put` for each key.
pub open spec fn fresh_len(contents: Map<Seq<char>, Seq<char>>) -> nat {
    total_weight(contents, record_weight())
}

/// The compaction trigger: with `total` records counted and `actual` keys
/// bound, the log holds more than twice the live records.
pub open spec fn compaction_due(total: nat, actual: nat) -> bool {
    total as int / (actual as int + 1) > 2
}

/// Evaluates the compaction trigger.
pub fn is_compaction_due(total: usize, actual: usize) -> (due: bool)
    ensures
        due == compaction_due(total as nat, actual as nat),
{
    match actual.checked_add(1) {
        Some(live) => total / live > 2,
        None => {
            assert(total as int / (actual as int + 1) == 0) by (nonlinear_arith)
                requires
                    0 <= total as int,
                    (total as int) < actual as int + 1,
            ;
            false
        },
    }
}

impl State {
    /// The state is one that the store can be in: finitely many keys are
    /// bound, `actual` is their number, every bound key points at a `Put` of
    /// that key in the log, and `total` lies between `actual` and the number
    /// of bytes in the log.
    pub open spec fn wf(self) -> bool {
        &&& self.index.dom().finite()
        &&& self.actual == self.index.len()
        &&& self.actual <= self.total <= self.log.len()
        &&& forall|k: Seq<char>| #[trigger]
            self.index.contains_key(k) ==> binds(self.log, self.index[k], k)
    }

    /// What the store holds: each bound key with the value of its latest
    /// `Put`.
    pub open spec fn contents(self) -> Map<Seq<char>, Seq<char>> {
        Map::new(
            |k: Seq<char>| self.index.contains_key(k),
            |k: Seq<char>| value_at(self.log, self.index[k]),
        )
    }

    /// The state of a store that has just been opened on `log`: the index is
    /// what replay finds, `total` the number of records it decoded.
    pub open spec fn opened(log: Seq<u8>) -> State {
        let r = replay(log);
        State { log, index: r.index, total: r.records.len(), actual: r.index.len() }
    }

    /// The log says what the index says: replay reads the log to its end and
    /// finds this index, and `total` counts no fewer records than the log
    /// holds. A store in such a state can be closed and opened again without
    /// loss.
    pub open spec fn synced(self) -> bool {
        &&& clean(self.log)
        &&& replay(self.log).index =~= self.index
        &&& replay(self.log).records.len() <= self.total
    }

    /// The state after the record `bytes` of the command `c` has been
    /// appended to the log and taken into the index. A `Put` counts once in
    /// `total`; a `Rm` counts twice, for itself and for the `Put` it kills.
    pub open spec fn written(self, c: Record, bytes: Seq<u8>) -> State {
        let index = index_after(self.index, c, self.log.len() as int);
        State {
            log: self.log + bytes,
            index,
            total: match c {
                Record::Put { .. } => self.total + 1,
                Record::Rm { .. } => self.total + 2,
            },
            actual: index.len(),
        }
    }

    /// The log has grown to more than twice the number of live records, as
    /// the counters estimate it: compaction is due.
    pub open spec fn compaction_due(self) -> bool {
        compaction_due(self.total, self.actual)
    }

    /// Every bound key can be written afresh with its value.
    pub open spec fn compactable(self) -> bool {
        forall|k: Seq<char>| #[trigger]
            self.index.contains_key(k) ==> record_bytes(
                Record::Put { key: k, value: self.contents()[k] },
            ) is Some
    }

    /// The state is as compaction leaves it: exactly what opening the log
    /// gives, with a log that replay reads to its end and that holds one
    /// `Put` for each bound key and nothing else.
    pub open spec fn tidy(self) -> bool {
        let r = replay(self.log);
        &&& self =~= State::opened(self.log)
        &&& clean(self.log)
        &&& r.records.len() == self.index.len()
        &&& forall|i: int| 0 <= i < r.records.len() ==> #[trigger] r.records[i] is Put
    }

    /// Every bound key points at the record that its `Put` is written as
    /// today: the bytes of the frame there are the bytes that the log takes
    /// for a `Put` of the key with its value.
    pub open spec fn fresh(self) -> bool {
        forall|k: Seq<char>| #[trigger]
            self.index.contains_key(k) ==> record_bytes(
                Record::Put { key: k, value: self.contents()[k] },
            ) == Some(frame_at(self.log, self.index[k]))
    }

    /// `post` is a compaction of this state: it holds the same contents, is
    /// tidy, and each of its records is written afresh.
    pub open spec fn compacts_to(self, post: State) -> bool {
        &&& post.contents() =~= self.contents()
        &&& post.tidy()
        &&& post.fresh()
    }

    /// How an operation ends once its record is written at `from` and the
    /// store is in this state: where compaction is not due, nothing more
    /// happens, and the operation reports the record; where it is due and
    /// every bound key can be written afresh, the store is compacted, and
    /// the operation reports a new log; where one cannot, the operation
    /// fails and the store stays as it is, with the record in its log.
    pub open spec fn settles(self, from: nat, r: Result<LogChange, KvError>, post: State) -> bool {
        if !self.compaction_due() {
            &&& r matches Ok(LogChange::Appended { from: at })
            &&& at == from
            &&& post =~= self
        } else if self.compactable() {
            &&& r == Ok::<LogChange, KvError>(LogChange::Replaced)
            &&& self.compacts_to(post)
        } else {
            &&& r == Err::<LogChange, KvError>(KvError::Codec)
            &&& post =~= self
        }
    }
}

/// A freshly opened store is in a well-formed state, and in a synced one
/// where replay reads the log to its end.
pub proof fn lemma_opened(log: Seq<u8>)
    ensures
        State::opened(log).wf(),
        clean(log) ==> State::opened(log).synced(),
{
    lemma_replay_sound(log, Replay::start());
}

/// A store opened on an empty log holds nothing, has counted nothing, and
/// is in a synced state.
pub proof fn lemma_opened_empty()
    ensures
        State::opened(Seq::<u8>::empty()).index == Map::<Seq<char>, int>::empty(),
        State::opened(Seq::<u8>::empty()).contents() == Map::<Seq<char>, Seq<char>>::empty(),
        State::opened(Seq::<u8>::empty()).total == 0,
        State::opened(Seq::<u8>::empty()).actual == 0,
        State::opened(Seq::<u8>::empty()).synced(),
        State::opened(Seq::<u8>::empty()).fresh(),
{
    lemma_no_record_near_end(Seq::<u8>::empty(), 0);
    assert(State::opened(Seq::<u8>::empty()).contents() =~= Map::<Seq<char>, Seq<char>>::empty());
}

/// Writing a record keeps the state well-formed, changes the contents as the
/// command says, keeps a synced state synced and a fresh state fresh.
pub proof fn lemma_written(s: State, c: Record, bytes: Seq<u8>)
    requires
        s.wf(),
        record_bytes(c) == Some(bytes),
    ensures
        s.written(c, bytes).wf(),
        s.written(c, bytes).contents() == carried_out(s.contents(), seq![c]),
        s.synced() ==> s.written(c, bytes).synced(),
        s.fresh() ==> s.written(c, bytes).fresh(),
{
    let post = s.written(c, bytes);
    lemma_record_at_appended(s.log, c, bytes);
    assert forall|k: Seq<char>| #[trigger] post.index.contains_key(k) implies binds(
        post.log,
        post.index[k],
        k,
    ) by {
        if s.index.contains_key(k) && post.index[k] == s.index[k] {
            lemma_binds_extended(s.log, bytes, s.index[k], k);
        }
    }
    assert forall|k: Seq<char>| #[trigger] s.index.contains_key(k) implies value_at(
        post.log,
        s.index[k],
    ) == value_at(s.log, s.index[k]) by {
        lemma_binds_extended(s.log, bytes, s.index[k], k);
    }
    let ops = seq![c];
    assert(ops.drop_last() =~= Seq::<Record>::empty());
    assert(carried_out(s.contents(), ops.drop_last()) == s.contents());
    assert(ops.last() == c);
    match c {
        Record::Put { key, value } => {
            assert(post.contents() =~= s.contents().insert(key, value));
        },
        Record::Rm { key } => {
            assert(post.contents() =~= s.contents().remove(key));
        },
    }
    if s.synced() {
        lemma_replay_appended(s.log, Replay::start(), c, bytes);
    }
    if s.fresh() {
        lemma_frame_appended(s.log, bytes);
        assert forall|k: Seq<char>| #[trigger] post.index.contains_key(k) implies record_bytes(
            Record::Put { key: k, value: post.contents()[k] },
        ) == Some(frame_at(post.log, post.index[k])) by {
            if s.index.contains_key(k) && post.index[k] == s.index[k] {
                lemma_frame_extended(s.log, bytes, s.index[k]);
                assert(s.contents()[k] == post.contents()[k]);
            }
        }
    }
}

/// Compaction transparency: however an operation ends once its record is
/// written, the store holds what it held when the record was written.
pub proof fn lemma_settles_keeps_contents(
    mid: State,
    from: nat,
    r: Result<LogChange, KvError>,
    post: State,
)
    requires
        mid.settles(from, r, post),
    ensures
        post.contents() == mid.contents(),
{
}

/// In a fresh state the records of the bound keys take as many bytes as a
/// log of the same contents and nothing else.
pub proof fn lemma_live_len(s: State)
    requires
        s.wf(),
        s.fresh(),
    ensures
        live_len(s.log, s.index) == fresh_len(s.contents()),
{
    let w = frame_weight(s.log);
    let u = record_weight();
    assert(s.index.dom() =~= s.contents().dom());
    assert forall|k: Seq<char>| #[trigger] s.index.contains_key(k) implies w(k, s.index[k]) == u(
        k,
        s.contents()[k],
    ) by {}
    lemma_weight_same(s.index, w, s.contents(), u);
}

/// After a compaction both counters are the number of keys that the store
/// holds.
pub proof fn lemma_tidy_counters(s: State)
    requires
        s.wf(),
        s.tidy(),
    ensures
        s.total == s.contents().len(),
        s.actual == s.contents().len(),
{
    assert(s.contents().dom() =~= s.index.dom());
}

/// A compacted log is as long as its contents make it: its length depends
/// on what the store holds and on nothing else, so that a second compaction
/// right after a first keeps the length of the log.
pub proof fn lemma_compacted_len(s: State)
    requires
        s.wf(),
        s.tidy(),
        s.fresh(),
    ensures
        s.log.len() == fresh_len(s.contents()),
{
    lemma_replay_sound(s.log, Replay::start());
    lemma_replay_packed(s.log, Replay::start());
    lemma_live_len(s);
}

/// A log that the store has written itself is never shorter than the log
/// that compaction would make of it.
pub proof fn lemma_fresh_len_bound(s: State)
    requires
        s.wf(),
        s.synced(),
        s.fresh(),
    ensures
        fresh_len(s.contents()) <= s.log.len(),
{
    lemma_replay_sound(s.log, Replay::start());
    lemma_replay_packed(s.log, Replay::start());
    lemma_live_len(s);
}

/// Compaction never makes a log longer that the store has written itself.
pub proof fn lemma_compaction_shrinks(pre: State, post: State)
    requires
        pre.wf(),
        pre.synced(),
        pre.fresh(),
        post.wf(),
        pre.compacts_to(post),
    ensures
        post.log.len() <= pre.log.len(),
{
    lemma_fresh_len_bound(pre);
    lemma_compacted_len(post);
}

/// Point lookup, first half: right after `key` is set to `value`, a lookup
/// of `key` finds `value`, whatever the store held and whatever `value` is,
/// the empty string too.
pub proof fn lemma_get_after_set(
    contents: Map<Seq<char>, Seq<char>>,
    key: Seq<char>,
    value: Seq<char>,
)
    ensures
        lookup(contents.insert(key, value), key) == Some(value),
{
}

/// Point lookup, second half: right after `key` is removed, a lookup of
/// `key` finds nothing.
pub proof fn lemma_get_after_remove(contents: Map<Seq<char>, Seq<char>>, key: Seq<char>)
    ensures
        lookup(contents.remove(key), key) is None,
{
}

/// Last writer wins: after any run of commands, a key holds the value of the
/// last `Put` of it, provided that no later command of the run is about that
/// key.
pub proof fn lemma_last_writer_wins(
    contents: Map<Seq<char>, Seq<char>>,
    ops: Seq<Record>,
    i: int,
    key: Seq<char>,
    value: Seq<char>,
)
    requires
        0 <= i < ops.len(),
        ops[i] == (Record::Put { key, value }),
        forall|j: int| i < j < ops.len() ==> (#[trigger] ops[j]).key() != key,
    ensures
        lookup(carried_out(contents, ops), key) == Some(value),
    decreases ops.len(),
{
    if i == ops.len() - 1 {
    } else {
        let shorter = ops.drop_last();
        assert(ops.last().key() != key);
        assert(shorter[i] == ops[i]);
        assert forall|j: int| i < j < shorter.len() implies (#[trigger] shorter[j]).key()
            != key by {
            assert(shorter[j] == ops[j]);
        }
        lemma_last_writer_wins(contents, shorter, i, key, value);
    }
}

/// Persistence: a store in a synced state that is closed, and opened again
/// on its log, holds what it held, under the same index.
pub proof fn lemma_reopen(s: State)
    requires
        s.wf(),
        s.synced(),
    ensures
        State::opened(s.log).index == s.index,
        State::opened(s.log).contents() == s.contents(),
        State::opened(s.log).synced(),
{
    assert(State::opened(s.log).contents() =~= s.contents());
}

/// In a synced state every bound key points at the last record about it in
/// the log: that record is a `Put` of the key, and no `Rm` of the key and no
/// other `Put` of it lies at a later place.
pub proof fn lemma_synced_latest(s: State, key: Seq<char>)
    requires
        s.synced(),
        s.index.contains_key(key),
    ensures
        ({
            let r = replay(s.log);
            &&& last_about(r.records, key) matches Some(i)
            &&& r.places[i] == s.index[key]
            &&& holds(s.log, s.index[key], r.records[i])
            &&& r.records[i] is Put
            &&& r.records[i].key() == key
            &&& forall|j: int|
                0 <= j < r.records.len() && (#[trigger] r.records[j]).key() == key && j != i
                    ==> r.places[j] < s.index[key]
        }),
{
    let r = replay(s.log);
    lemma_replay_latest(s.log, Replay::start());
    lemma_replay_placed(s.log, Replay::start());
    lemma_last_about(r.records, key);
    assert(r.latest());
    let found = last_about(r.records, key);
    assert(found is Some);
}

/// Tail tolerance, for the store: a log that ends in a record cut short
/// opens to the same index, the same counters and the same contents as the
/// log without those bytes.
pub proof fn lemma_opened_torn_tail(log: Seq<u8>, frame: Seq<u8>, keep: int)
    requires
        clean(log),
        is_frame(frame),
        0 <= keep < frame.len(),
    ensures
        State::opened(log + frame.subrange(0, keep)).index == State::opened(log).index,
        State::opened(log + frame.subrange(0, keep)).total == State::opened(log).total,
        State::opened(log + frame.subrange(0, keep)).actual == State::opened(log).actual,
        State::opened(log + frame.subrange(0, keep)).contents() == State::opened(log).contents(),
{
    let torn = log + frame.subrange(0, keep);
    lemma_torn_tail(log, frame, keep);
    lemma_opened(log);
    let s = State::opened(log);
    assert forall|k: Seq<char>| #[trigger] s.index.contains_key(k) implies value_at(
        torn,
        s.index[k],
    ) == value_at(log, s.index[k]) by {
        lemma_binds_extended(log, frame.subrange(0, keep), s.index[k], k);
    }
    assert(State::opened(torn).contents() =~= s.contents());
}

} // verus!
