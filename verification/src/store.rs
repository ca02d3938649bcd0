//! The store: a log in memory, the index into it, and the operations.
//!
//! The store owns the bytes of its log. Whoever keeps the log on disk hands
//! the bytes to [`KvStore::open`] and writes back what the operations add:
//! every operation either leaves the log as it was, appends one record to
//! it, or, in a compaction, replaces it by a shorter one of the same
//! contents.

use vstd::prelude::*;
use crate::command::{Command, Record};
use crate::error::{KvError, LogChange};
use crate::frame::{frame_at, lemma_frame_appended, lemma_frame_extended};
use crate::record::{
    encode_record, lemma_no_record_near_end, lemma_record_at_appended, read_record, record_at,
    record_bytes,
};
use crate::index::Index;
use crate::replay::{
    binds, clean, lemma_binds_extended, lemma_replay_appended, lemma_replay_sound,
    lemma_step_sound, replay, replay_from, value_at, Replay,
};
use crate::state::{carried_out, is_compaction_due, lemma_opened, lemma_written, lookup, State};

verus! {

/// A key-value store over an append-only log of commands.
pub struct KvStore {
    log: Vec<u8>,
    index: Index,
    total: usize,
    actual: usize,
}

impl View for KvStore {
    type V = Map<Seq<char>, Seq<char>>;

    /// What the store holds: each bound key with its value.
    open spec fn view(&self) -> Map<Seq<char>, Seq<char>> {
        self.state().contents()
    }
}

/// The value as a sequence of characters, where there is one.
pub open spec fn text_of(value: Option<String>) -> Option<Seq<char>> {
    match value {
        Some(v) => Some(v@),
        None => None,
    }
}

impl KvStore {
    /// The log and what the store keeps about it, as a mathematical value.
    pub closed spec fn state(&self) -> State {
        State {
            log: self.log@,
            index: self.index@,
            total: self.total as nat,
            actual: self.actual as nat,
        }
    }

    #[verifier::type_invariant]
    spec fn inv(&self) -> bool {
        &&& self.index.wf()
        &&& self.state().wf()
    }

    /// A store over an empty log.
    fn empty() -> (store: KvStore)
        ensures
            store.state() == State::opened(Seq::<u8>::empty()),
    {
        proof {
            lemma_no_record_near_end(Seq::<u8>::empty(), 0);
        }
        let index = Index::new();
        let actual = index.len();
        KvStore { log: Vec::new(), index, total: 0, actual }
    }

    /// Opens a store on the bytes of a log, by replay: the log is read
    /// record by record from its first byte to the first place where no
    /// record starts. What lies behind that place is kept and ignored.
    pub fn open(log: Vec<u8>) -> (store: KvStore)
        ensures
            store.state() == State::opened(log@),
            store.state().wf(),
            clean(log@) ==> store.state().synced(),
    {
        let mut index = Index::new();
        let mut total: usize = 0;
        let mut at: usize = 0;
        let ghost mut st = Replay::start();
        let len = log.len();
        let mut next = read_record(log.as_slice(), at);
        while next.is_some()
            invariant
                len == log@.len(),
                index.wf(),
                index@ == st.index,
                total == st.records.len(),
                at == st.end,
                st.sound(log@),
                replay_from(log@, st) == replay(log@),
                match next {
                    Some((cmd, n)) => record_at(log@, at as int) == Some((cmd@, n as int)),
                    None => record_at(log@, at as int) is None,
                },
            decreases log@.len() - at,
        {
            let (cmd, n) = next.unwrap();
            proof {
                lemma_step_sound(log@, st, cmd@, n as int);
                st = st.step(cmd@, n as int);
            }
            index.apply(cmd, at);
            total = total + 1;
            at = at + n;
            next = read_record(log.as_slice(), at);
        }
        let actual = index.len();
        proof {
            lemma_opened(log@);
        }
        KvStore { log, index, total, actual }
    }

    /// The bytes of the log.
    pub fn log(&self) -> (bytes: &[u8])
        ensures
            bytes@ == self.state().log,
    {
        self.log.as_slice()
    }

    /// Closes the store: hands out the bytes of the log, on which the store
    /// can be opened again.
    pub fn into_log(self) -> (bytes: Vec<u8>)
        ensures
            bytes@ == self.state().log,
    {
        self.log
    }

    /// The store's estimate of the number of records in the log.
    pub fn total(&self) -> (n: usize)
        ensures
            n == self.state().total,
    {
        self.total
    }

    /// The number of bound keys.
    pub fn actual(&self) -> (n: usize)
        ensures
            n == self.state().actual,
            n == self@.len(),
    {
        proof {
            use_type_invariant(self);
            assert(self@.dom() =~= self.state().index.dom());
        }
        self.actual
    }

    /// Looks `key` up: its value where it is bound, `None` where it is not.
    /// The value is read from the log, at the place the index gives. A store
    /// never fails to find it there.
    pub fn get(&self, key: String) -> (r: Result<Option<String>, KvError>)
        ensures
            match r {
                Ok(found) => text_of(found) == lookup(self@, key@),
                Err(_) => false,
            },
    {
        proof {
            use_type_invariant(self);
        }
        match self.index.get(key.as_str()) {
            None => Ok(None),
            Some(at) => match read_record(self.log.as_slice(), at) {
                Some((Command::Put { key: found, value }, _)) => {
                    if found == key {
                        Ok(Some(value))
                    } else {
                        Err(KvError::Codec)
                    }
                },
                _ => Err(KvError::Codec),
            },
        }
    }

    /// Whether compaction is due: the log is estimated to hold more than
    /// twice as many records as there are bound keys.
    pub fn compaction_due(&self) -> (due: bool)
        ensures
            due == self.state().compaction_due(),
    {
        is_compaction_due(self.total, self.actual)
    }

    /// Appends the record of `cmd` to the log and takes it into the index.
    fn append(&mut self, cmd: Command) -> (r: Result<(), KvError>)
        ensures
            final(self).state().wf(),
            old(self).state().synced() ==> final(self).state().synced(),
            old(self).state().fresh() ==> final(self).state().fresh(),
            match record_bytes(cmd@) {
                None => r == Err::<(), KvError>(KvError::Codec) && final(self).state() == old(
                    self,
                ).state(),
                Some(bytes) => r is Ok && final(self).state() == old(self).state().written(
                    cmd@,
                    bytes,
                ),
            },
    {
        proof {
            use_type_invariant(&*self);
        }
        let mut bytes = match encode_record(&cmd) {
            Some(bytes) => bytes,
            None => {
                return Err(KvError::Codec);
            },
        };
        proof {
            lemma_written(self.state(), cmd@, bytes@);
        }
        let mut taken = KvStore::empty();
        core::mem::swap(self, &mut taken);
        let KvStore { log, index, total, actual: _ } = taken;
        let mut log = log;
        let mut index = index;
        let at = log.len();
        let ghost record = bytes@;
        log.append(&mut bytes);
        let grown = log.len();
        assert(grown == at + record.len() && record.len() >= 5);
        let total = match cmd {
            Command::Put { .. } => total + 1,
            Command::Rm { .. } => total + 2,
        };
        index.apply(cmd, at);
        let actual = index.len();
        *self = KvStore { log, index, total, actual };
        Ok(())
    }

    /// Binds `key` to `value`, without compacting: the record is appended to
    /// the log, the index points `key` at it, and `total` counts it.
    ///
    /// Fails, and changes nothing, where the command cannot be written as a
    /// record that reads back as itself.
    pub fn write_set(&mut self, key: String, value: String) -> (r: Result<(), KvError>)
        ensures
            final(self).state().wf(),
            old(self).state().synced() ==> final(self).state().synced(),
            old(self).state().fresh() ==> final(self).state().fresh(),
            match record_bytes(Record::Put { key: key@, value: value@ }) {
                None => r == Err::<(), KvError>(KvError::Codec) && final(self).state() == old(
                    self,
                ).state(),
                Some(bytes) => {
                    &&& r is Ok
                    &&& final(self).state() == old(self).state().written(
                        Record::Put { key: key@, value: value@ },
                        bytes,
                    )
                    &&& final(self)@ == old(self)@.insert(key@, value@)
                },
            },
    {
        proof {
            use_type_invariant(&*self);
            let c = Record::Put { key: key@, value: value@ };
            if record_bytes(c) is Some {
                lemma_written(self.state(), c, record_bytes(c)->0);
                lemma_one_command(self@, c);
            }
        }
        self.append(Command::Put { key, value })
    }

    /// Unbinds `key`, without compacting: the record is appended to the log,
    /// the index forgets `key`, and `total` counts two, the new record and
    /// the `Put` that is dead now.
    ///
    /// Fails with `KeyNotFound`, and writes nothing, where `key` is not
    /// bound; fails with `Codec`, and changes nothing, where the command
    /// cannot be written as a record that reads back as itself.
    pub fn write_remove(&mut self, key: String) -> (r: Result<(), KvError>)
        ensures
            final(self).state().wf(),
            old(self).state().synced() ==> final(self).state().synced(),
            old(self).state().fresh() ==> final(self).state().fresh(),
            if !old(self)@.contains_key(key@) {
                r == Err::<(), KvError>(KvError::KeyNotFound) && final(self).state() == old(
                    self,
                ).state()
            } else {
                match record_bytes(Record::Rm { key: key@ }) {
                    None => r == Err::<(), KvError>(KvError::Codec) && final(self).state() == old(
                        self,
                    ).state(),
                    Some(bytes) => {
                        &&& r is Ok
                        &&& final(self).state() == old(self).state().written(
                            Record::Rm { key: key@ },
                            bytes,
                        )
                        &&& final(self)@ == old(self)@.remove(key@)
                    },
                }
            },
    {
        proof {
            use_type_invariant(&*self);
            let c = Record::Rm { key: key@ };
            if record_bytes(c) is Some {
                lemma_written(self.state(), c, record_bytes(c)->0);
                lemma_one_command(self@, c);
            }
        }
        if self.index.get(key.as_str()).is_none() {
            return Err(KvError::KeyNotFound);
        }
        self.append(Command::Rm { key })
    }

    /// Rewrites the log so that it holds one fresh `Put` for each bound key
    /// and nothing else, and points the index at the new records. The
    /// contents of the store stay as they are.
    ///
    /// Each bound key is looked up as `get` does and written afresh. Fails,
    /// and changes nothing, where one of them cannot be written as a record
    /// that reads back as itself.
    pub fn compaction(&mut self) -> (r: Result<(), KvError>)
        ensures
            final(self).state().wf(),
            old(self).state().synced() ==> final(self).state().synced(),
            old(self).state().fresh() ==> final(self).state().fresh(),
            if old(self).state().compactable() {
                r is Ok && old(self).state().compacts_to(final(self).state())
            } else {
                r == Err::<(), KvError>(KvError::Codec) && final(self).state() == old(
                    self,
                ).state()
            },
    {
        proof {
            use_type_invariant(&*self);
            self.index.lemma_wf();
            lemma_no_record_near_end(Seq::<u8>::empty(), 0);
        }
        let ghost s0 = self.state();
        let mut fresh_log: Vec<u8> = Vec::new();
        let mut fresh = Index::new();
        let slots = self.index.journal_len();
        let mut i: usize = 0;
        while i < slots
            invariant
                i <= slots,
                slots == self.index.journal().len(),
                self.state() == s0,
                s0.wf(),
                self.index.wf(),
                fresh.wf(),
                fresh@.dom().finite(),
                clean(fresh_log@),
                replay(fresh_log@).index =~= fresh@,
                replay(fresh_log@).records.len() == fresh@.len(),
                forall|j: int|
                    0 <= j < replay(fresh_log@).records.len() ==> #[trigger] replay(
                        fresh_log@,
                    ).records[j] is Put,
                forall|k: Seq<char>| #[trigger]
                    fresh@.contains_key(k) ==> {
                        &&& s0.index.contains_key(k)
                        &&& binds(fresh_log@, fresh@[k], k)
                        &&& value_at(fresh_log@, fresh@[k]) == s0.contents()[k]
                        &&& record_bytes(Record::Put { key: k, value: s0.contents()[k] }) == Some(
                            frame_at(fresh_log@, fresh@[k]),
                        )
                    },
                forall|j: int|
                    0 <= j < i && s0.index.contains_key(#[trigger] self.index.journal()[j])
                        ==> fresh@.contains_key(self.index.journal()[j]),
            decreases slots - i,
        {
            let key = self.index.journal_key(i);
            let live = match self.index.get(key.as_str()) {
                Some(at) => if fresh.get(key.as_str()).is_none() {
                    Some(at)
                } else {
                    None
                },
                None => None,
            };
            if let Some(at) = live {
                match read_record(self.log.as_slice(), at) {
                    Some((Command::Put { key: found, value }, _)) => {
                        let cmd = Command::Put { key: found, value };
                        let mut bytes = match encode_record(&cmd) {
                            Some(bytes) => bytes,
                            None => {
                                return Err(KvError::Codec);
                            },
                        };
                        let place = fresh_log.len();
                        proof {
                            let before = fresh_log@;
                            let r = replay(before);
                            lemma_replay_appended(before, Replay::start(), cmd@, bytes@);
                            lemma_record_at_appended(before, cmd@, bytes@);
                            fresh.lemma_wf();
                            lemma_frame_appended(before, bytes@);
                            assert forall|k: Seq<char>| #[trigger]
                                fresh@.contains_key(k) implies binds(
                                before + bytes@,
                                fresh@[k],
                                k,
                            ) && value_at(before + bytes@, fresh@[k]) == s0.contents()[k]
                                && frame_at(before + bytes@, fresh@[k]) == frame_at(
                                before,
                                fresh@[k],
                            ) by {
                                lemma_binds_extended(before, bytes@, fresh@[k], k);
                                lemma_frame_extended(before, bytes@, fresh@[k]);
                            }
                            assert forall|j: int|
                                0 <= j < r.step(
                                    cmd@,
                                    bytes@.len() as int,
                                ).records.len() implies #[trigger] r.step(
                                cmd@,
                                bytes@.len() as int,
                            ).records[j] is Put by {
                                if j < r.records.len() {
                                    assert(r.records[j] is Put);
                                }
                            }
                        }
                        fresh_log.append(&mut bytes);
                        fresh.insert(key.clone(), place);
                    },
                    _ => {
                        return Err(KvError::Codec);
                    },
                }
            }
            i = i + 1;
        }
        let n = fresh.len();
        proof {
            fresh.lemma_wf();
            lemma_replay_sound(fresh_log@, Replay::start());
            assert forall|k: Seq<char>| #[trigger] s0.index.contains_key(k) implies fresh@.contains_key(
                k,
            ) by {
                assert(self.index.journal().contains(k));
                let j = choose|j: int|
                    0 <= j < self.index.journal().len() && self.index.journal()[j] == k;
                assert(s0.index.contains_key(self.index.journal()[j]));
            }
            let post = State { log: fresh_log@, index: fresh@, total: n as nat, actual: n as nat };
            assert(post.contents() =~= s0.contents());
            assert(post =~= State::opened(fresh_log@));
            assert(post.fresh());
        }
        *self = KvStore { log: fresh_log, index: fresh, total: n, actual: n };
        Ok(())
    }

    /// Ends an operation whose record is written at `from`: compacts where
    /// compaction is due.
    fn settle(&mut self, from: usize) -> (r: Result<LogChange, KvError>)
        ensures
            final(self).state().wf(),
            old(self).state().synced() ==> final(self).state().synced(),
            old(self).state().fresh() ==> final(self).state().fresh(),
            old(self).state().settles(from as nat, r, final(self).state()),
    {
        proof {
            use_type_invariant(&*self);
        }
        if self.compaction_due() {
            match self.compaction() {
                Ok(()) => Ok(LogChange::Replaced),
                Err(e) => Err(e),
            }
        } else {
            Ok(LogChange::Appended { from })
        }
    }

    /// Binds `key` to `value`: writes the record, then compacts where
    /// compaction is due. Reports what became of the log: the record
    /// appended, or the log replaced by a compacted one.
    ///
    /// Fails, and changes nothing, where the command cannot be written as a
    /// record that reads back as itself. Where the record is written, `key`
    /// is bound to `value` from then on, whether or not a compaction
    /// follows; the operation still fails where a compaction is due and
    /// cannot be done, and the log then ends in the record.
    pub fn set(&mut self, key: String, value: String) -> (r: Result<LogChange, KvError>)
        ensures
            final(self).state().wf(),
            old(self).state().synced() ==> final(self).state().synced(),
            old(self).state().fresh() ==> final(self).state().fresh(),
            match record_bytes(Record::Put { key: key@, value: value@ }) {
                None => r == Err::<LogChange, KvError>(KvError::Codec) && final(self).state()
                    == old(self).state(),
                Some(bytes) => {
                    &&& old(self).state().written(
                        Record::Put { key: key@, value: value@ },
                        bytes,
                    ).settles(old(self).state().log.len(), r, final(self).state())
                    &&& final(self)@ == old(self)@.insert(key@, value@)
                },
            },
    {
        let from = self.log.len();
        match self.write_set(key, value) {
            Err(e) => Err(e),
            Ok(()) => self.settle(from),
        }
    }

    /// Unbinds `key`: writes the record, then compacts where compaction is
    /// due. Reports what became of the log: the record appended, or the log
    /// replaced by a compacted one.
    ///
    /// Fails with `KeyNotFound`, and writes nothing, where `key` is not
    /// bound. Fails with `Codec`, and changes nothing, where the command
    /// cannot be written as a record that reads back as itself. Where the
    /// record is written, `key` is unbound from then on, whether or not a
    /// compaction follows; the operation still fails where a compaction is
    /// due and cannot be done, and the log then ends in the record.
    pub fn remove(&mut self, key: String) -> (r: Result<LogChange, KvError>)
        ensures
            final(self).state().wf(),
            old(self).state().synced() ==> final(self).state().synced(),
            old(self).state().fresh() ==> final(self).state().fresh(),
            if !old(self)@.contains_key(key@) {
                r == Err::<LogChange, KvError>(KvError::KeyNotFound) && final(self).state()
                    == old(self).state()
            } else {
                match record_bytes(Record::Rm { key: key@ }) {
                    None => r == Err::<LogChange, KvError>(KvError::Codec) && final(self).state()
                        == old(self).state(),
                    Some(bytes) => {
                        &&& old(self).state().written(Record::Rm { key: key@ }, bytes).settles(
                            old(self).state().log.len(),
                            r,
                            final(self).state(),
                        )
                        &&& final(self)@ == old(self)@.remove(key@)
                    },
                }
            },
    {
        let from = self.log.len();
        match self.write_remove(key) {
            Err(e) => Err(e),
            Ok(()) => self.settle(from),
        }
    }
}

/// One command, carried out, is one insertion or one removal.
proof fn lemma_one_command(contents: Map<Seq<char>, Seq<char>>, c: Record)
    ensures
        carried_out(contents, seq![c]) == match c {
            Record::Put { key, value } => contents.insert(key, value),
            Record::Rm { key } => contents.remove(key),
        },
{
    let ops = seq![c];
    assert(ops.drop_last() =~= Seq::<Record>::empty());
    assert(carried_out(contents, ops.drop_last()) == contents);
    assert(ops.last() == c);
}

} // verus!
