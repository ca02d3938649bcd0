//! Replay: what a log says when it is read from its first byte.
//!
//! Replay decodes one record after another, each from where the last one
//! ended, and stops at the first place where no record starts. Every `Put`
//! binds its key to the place of that record, every `Rm` unbinds its key.

use vstd::prelude::*;
use crate::command::Record;
use crate::frame::{frame_at, is_frame};
use crate::weight::{lemma_weight_insert, total_weight};
use crate::record::{
    lemma_no_record_at_cut, lemma_no_record_near_end, lemma_record_at_appended,
    lemma_record_at_extended, record_at, record_bytes,
};

verus! {

/// How far replay has come, and what it has found on the way.
pub struct Replay {
    /// Each bound key, with the place of the `Put` that bound it last.
    pub index: Map<Seq<char>, int>,
    /// The records decoded so far, in the order of the log.
    pub records: Seq<Record>,
    /// The place of each of these records in the log.
    pub places: Seq<int>,
    /// The place behind the last record decoded.
    pub end: int,
}

/// The last of the records that is about `key`, by its number in the
/// sequence.
pub open spec fn last_about(records: Seq<Record>, key: Seq<char>) -> Option<int>
    decreases records.len(),
{
    if records.len() == 0 {
        None
    } else if records.last().key() == key {
        Some(records.len() - 1)
    } else {
        last_about(records.drop_last(), key)
    }
}

/// The index after a record at place `at` has been taken in.
pub open spec fn index_after(index: Map<Seq<char>, int>, c: Record, at: int) -> Map<
    Seq<char>,
    int,
> {
    match c {
        Record::Put { key, .. } => index.insert(key, at),
        Record::Rm { key } => index.remove(key),
    }
}

impl Replay {
    /// Nothing read yet.
    pub open spec fn start() -> Replay {
        Replay { index: Map::empty(), records: Seq::empty(), places: Seq::empty(), end: 0 }
    }

    /// The state after the record `c`, whose frame has `n` bytes, has been
    /// read at the place that replay had come to.
    pub open spec fn step(self, c: Record, n: int) -> Replay {
        Replay {
            index: index_after(self.index, c, self.end),
            records: self.records.push(c),
            places: self.places.push(self.end),
            end: self.end + n,
        }
    }

    /// The index is what the records say, the later ones over the earlier:
    /// the records lie in the log in their order, and a key is bound exactly
    /// if the last record about it is a `Put`, and then to the place of that
    /// record. No `Rm` of a bound key and no other `Put` of it comes later.
    pub open spec fn latest(self) -> bool {
        &&& self.places.len() == self.records.len()
        &&& forall|i: int| 0 <= i < self.places.len() ==> 0 <= #[trigger] self.places[i] < self.end
        &&& forall|i: int, j: int|
            0 <= i < j < self.places.len() ==> #[trigger] self.places[i] < #[trigger] self.places[j]
        &&& forall|k: Seq<char>|
            match #[trigger] last_about(self.records, k) {
                Some(i) => if self.records[i] is Put {
                    self.index.contains_key(k) && self.index[k] == self.places[i]
                } else {
                    !self.index.contains_key(k)
                },
                None => !self.index.contains_key(k),
            }
    }

    /// The records of the bound keys take no more bytes than replay has
    /// read, and exactly as many where every record read so far has bound a
    /// key of its own.
    pub open spec fn packed(self, log: Seq<u8>) -> bool {
        &&& live_len(log, self.index) <= self.end
        &&& self.index.len() == self.records.len() ==> live_len(log, self.index) == self.end
    }

    /// What holds of every state that replay of `log` passes through: it has
    /// not run past the end, each record took at least the shortest frame,
    /// and every bound key points at a `Put` of that key.
    pub open spec fn sound(self, log: Seq<u8>) -> bool {
        &&& 0 <= self.end <= log.len()
        &&& 5 * self.records.len() <= self.end
        &&& self.index.dom().finite()
        &&& self.index.len() <= self.records.len()
        &&& forall|k: Seq<char>| #[trigger]
            self.index.contains_key(k) ==> binds(log, self.index[k], k)
    }
}

/// The length of the frame at a place of the log, as the weight of the key
/// that is bound to the place.
pub open spec fn frame_weight(log: Seq<u8>) -> spec_fn(Seq<char>, int) -> nat {
    |k: Seq<char>, at: int| frame_at(log, at).len()
}

/// The bytes that the records of the bound keys take in the log, all
/// together.
pub open spec fn live_len(log: Seq<u8>, index: Map<Seq<char>, int>) -> nat {
    total_weight(index, frame_weight(log))
}

/// At `at` the log holds a `Put` of `key`.
pub open spec fn binds(log: Seq<u8>, at: int, key: Seq<char>) -> bool {
    match record_at(log, at) {
        Some((Record::Put { key: k, .. }, _)) => k == key,
        _ => false,
    }
}

/// The value of the `Put` at `at`.
pub open spec fn value_at(log: Seq<u8>, at: int) -> Seq<char> {
    match record_at(log, at) {
        Some((Record::Put { value, .. }, _)) => value,
        _ => Seq::empty(),
    }
}

/// Replay of `log`, taken up in state `st`.
pub open spec fn replay_from(log: Seq<u8>, st: Replay) -> Replay
    decreases log.len() - st.end,
{
    match record_at(log, st.end) {
        Some((c, n)) => replay_from(log, st.step(c, n)),
        None => st,
    }
}

/// Replay of `log` from its first byte.
pub open spec fn replay(log: Seq<u8>) -> Replay {
    replay_from(log, Replay::start())
}

/// Replay reads the log to its last byte: no torn or foreign bytes are left
/// behind the last record.
pub open spec fn clean(log: Seq<u8>) -> bool {
    replay(log).end == log.len()
}

/// A `Put` keeps binding its key when the log grows behind it.
pub proof fn lemma_binds_extended(log: Seq<u8>, tail: Seq<u8>, at: int, key: Seq<char>)
    requires
        binds(log, at, key),
    ensures
        binds(log + tail, at, key),
        value_at(log + tail, at) == value_at(log, at),
{
    lemma_record_at_extended(log, tail, at);
}

/// One step of replay keeps the state sound.
pub proof fn lemma_step_sound(log: Seq<u8>, st: Replay, c: Record, n: int)
    requires
        st.sound(log),
        record_at(log, st.end) == Some((c, n)),
    ensures
        st.step(c, n).sound(log),
{
}

/// The last record about a key is a record about that key, and none after
/// it is.
pub proof fn lemma_last_about(records: Seq<Record>, key: Seq<char>)
    ensures
        match last_about(records, key) {
            Some(i) => {
                &&& 0 <= i < records.len()
                &&& records[i].key() == key
                &&& forall|j: int| i < j < records.len() ==> (#[trigger] records[j]).key() != key
            },
            None => forall|j: int| 0 <= j < records.len() ==> (#[trigger] records[j]).key() != key,
        },
    decreases records.len(),
{
    if records.len() > 0 && records.last().key() != key {
        let shorter = records.drop_last();
        lemma_last_about(shorter, key);
        assert forall|j: int| 0 <= j < shorter.len() implies shorter[j] == records[j] by {}
        match last_about(shorter, key) {
            Some(i) => {
                assert forall|j: int| i < j < records.len() implies (#[trigger] records[j]).key()
                    != key by {
                    if j < shorter.len() {
                        assert(shorter[j] == records[j]);
                    }
                }
            },
            None => {
                assert forall|j: int| 0 <= j < records.len() implies (#[trigger] records[j]).key()
                    != key by {
                    if j < shorter.len() {
                        assert(shorter[j] == records[j]);
                    }
                }
            },
        }
    }
}

/// One step of replay keeps the index the latest word of the records.
pub proof fn lemma_step_latest(st: Replay, c: Record, n: int)
    requires
        st.latest(),
        0 <= st.end,
        n > 0,
    ensures
        st.step(c, n).latest(),
{
    let next = st.step(c, n);
    assert(next.records.drop_last() =~= st.records);
    assert forall|k: Seq<char>|
        match #[trigger] last_about(next.records, k) {
            Some(i) => if next.records[i] is Put {
                next.index.contains_key(k) && next.index[k] == next.places[i]
            } else {
                !next.index.contains_key(k)
            },
            None => !next.index.contains_key(k),
        } by {
        if c.key() != k {
            assert(last_about(next.records, k) == last_about(st.records, k));
            lemma_last_about(st.records, k);
        }
    }
}

/// Replay keeps the index the latest word of the records.
pub proof fn lemma_replay_latest(log: Seq<u8>, st: Replay)
    requires
        st.latest(),
        0 <= st.end,
    ensures
        replay_from(log, st).latest(),
    decreases log.len() - st.end,
{
    match record_at(log, st.end) {
        Some((c, n)) => {
            lemma_step_latest(st, c, n);
            lemma_replay_latest(log, st.step(c, n));
        },
        None => {},
    }
}

/// At `at` the log holds a record of the command `c`.
pub open spec fn holds(log: Seq<u8>, at: int, c: Record) -> bool {
    match record_at(log, at) {
        Some((found, _)) => found == c,
        None => false,
    }
}

/// The records that replay has found lie in the log where it says.
pub open spec fn placed(log: Seq<u8>, st: Replay) -> bool {
    &&& st.places.len() == st.records.len()
    &&& forall|i: int|
        0 <= i < st.records.len() ==> holds(log, #[trigger] st.places[i], st.records[i])
}

/// Replay keeps track of where its records lie.
pub proof fn lemma_replay_placed(log: Seq<u8>, st: Replay)
    requires
        placed(log, st),
    ensures
        placed(log, replay_from(log, st)),
    decreases log.len() - st.end,
{
    match record_at(log, st.end) {
        Some((c, n)) => {
            let next = st.step(c, n);
            assert forall|i: int| 0 <= i < next.records.len() implies holds(
                log,
                #[trigger] next.places[i],
                next.records[i],
            ) by {
                if i < st.records.len() {
                    assert(next.places[i] == st.places[i]);
                    assert(next.records[i] == st.records[i]);
                }
            }
            lemma_replay_placed(log, next);
        },
        None => {},
    }
}

/// One step of replay keeps the state packed.
pub proof fn lemma_step_packed(log: Seq<u8>, st: Replay, c: Record, n: int)
    requires
        st.sound(log),
        st.packed(log),
        record_at(log, st.end) == Some((c, n)),
    ensures
        st.step(c, n).packed(log),
{
    let w = frame_weight(log);
    assert(w(c.key(), st.end) == n);
    match c {
        Record::Put { key, .. } => {
            lemma_weight_insert(st.index, w, key, st.end);
        },
        Record::Rm { key } => {
            lemma_weight_insert(st.index, w, key, st.end);
        },
    }
}

/// Replay keeps its states packed.
pub proof fn lemma_replay_packed(log: Seq<u8>, st: Replay)
    requires
        st.sound(log),
        st.packed(log),
    ensures
        replay_from(log, st).packed(log),
    decreases log.len() - st.end,
{
    match record_at(log, st.end) {
        Some((c, n)) => {
            lemma_step_sound(log, st, c, n);
            lemma_step_packed(log, st, c, n);
            lemma_replay_packed(log, st.step(c, n));
        },
        None => {},
    }
}

/// Replay keeps its states sound.
pub proof fn lemma_replay_sound(log: Seq<u8>, st: Replay)
    requires
        st.sound(log),
    ensures
        replay_from(log, st).sound(log),
    decreases log.len() - st.end,
{
    match record_at(log, st.end) {
        Some((c, n)) => {
            lemma_step_sound(log, st, c, n);
            lemma_replay_sound(log, st.step(c, n));
        },
        None => {},
    }
}

/// A record appended to a log that replay reads to its end is read next:
/// replay of the longer log is replay of the shorter one, and one step.
pub proof fn lemma_replay_appended(log: Seq<u8>, st: Replay, c: Record, bytes: Seq<u8>)
    requires
        record_bytes(c) == Some(bytes),
        0 <= st.end,
        replay_from(log, st).end == log.len(),
    ensures
        replay_from(log + bytes, st) == replay_from(log, st).step(c, bytes.len() as int),
    decreases log.len() - st.end,
{
    let ext = log + bytes;
    match record_at(log, st.end) {
        Some((c0, n0)) => {
            lemma_record_at_extended(log, bytes, st.end);
            lemma_replay_appended(log, st.step(c0, n0), c, bytes);
            assert(replay_from(ext, st) == replay_from(ext, st.step(c0, n0)));
        },
        None => {
            lemma_record_at_appended(log, c, bytes);
            let next = st.step(c, bytes.len() as int);
            lemma_no_record_near_end(ext, next.end);
            assert(replay_from(ext, next) == next);
            assert(replay_from(ext, st) == replay_from(ext, next));
        },
    }
}

/// Bytes appended to a log that replay reads to its end change nothing
/// where no record starts with them.
pub proof fn lemma_replay_stops(log: Seq<u8>, st: Replay, tail: Seq<u8>)
    requires
        replay_from(log, st).end == log.len(),
        record_at(log + tail, log.len() as int) is None,
    ensures
        replay_from(log + tail, st) == replay_from(log, st),
    decreases log.len() - st.end,
{
    match record_at(log, st.end) {
        Some((c0, n0)) => {
            lemma_record_at_extended(log, tail, st.end);
            lemma_replay_stops(log, st.step(c0, n0), tail);
            assert(replay_from(log + tail, st) == replay_from(log + tail, st.step(c0, n0)));
        },
        None => {},
    }
}

/// Tail tolerance: a log that ends in a record cut short replays to the same
/// state as the log without those bytes. `log` is a log that replay reads to
/// its end, `frame` any complete frame, and `keep` the number of its bytes
/// that made it into the log.
pub proof fn lemma_torn_tail(log: Seq<u8>, frame: Seq<u8>, keep: int)
    requires
        clean(log),
        is_frame(frame),
        0 <= keep < frame.len(),
    ensures
        replay(log + frame.subrange(0, keep)) == replay(log),
{
    lemma_no_record_at_cut(log, frame, keep);
    lemma_replay_stops(log, Replay::start(), frame.subrange(0, keep));
}

} // verus!
