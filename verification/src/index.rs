//! The index: which keys are bound, and where in the log each was bound last.

use vstd::prelude::*;
use vstd::hash_map::StringHashMap;
use crate::command::Command;
use crate::replay::index_after;

verus! {

/// A map from each bound key to the place of its latest `Put`.
///
/// Lookups go through a hash map. A hash map cannot be walked in verified
/// code, so the keys are also kept in a journal: every key that is bound
/// stands in it, along with keys that were bound once and no longer are.
pub struct Index {
    places: StringHashMap<usize>,
    journal: Vec<String>,
}

impl View for Index {
    type V = Map<Seq<char>, int>;

    closed spec fn view(&self) -> Map<Seq<char>, int> {
        Map::new(
            |k: Seq<char>| self.places@.contains_key(k),
            |k: Seq<char>| self.places@[k] as int,
        )
    }
}

impl Index {
    /// The journal of keys, each as a sequence of characters.
    pub closed spec fn journal(&self) -> Seq<Seq<char>> {
        Seq::new(self.journal@.len(), |i: int| self.journal@[i]@)
    }

    /// The index is finite and every bound key stands in the journal.
    pub closed spec fn wf(&self) -> bool {
        &&& self.places@.dom().finite()
        &&& forall|k: Seq<char>| #[trigger]
            self.places@.contains_key(k) ==> self.journal().contains(k)
    }

    /// A well-formed index binds finitely many keys, all of them listed.
    pub proof fn lemma_wf(&self)
        requires
            self.wf(),
        ensures
            self@.dom().finite(),
            forall|k: Seq<char>| #[trigger] self@.contains_key(k) ==> self.journal().contains(k),
    {
        assert(self@.dom() =~= self.places@.dom());
    }

    /// An index that binds no key.
    pub fn new() -> (index: Index)
        ensures
            index.wf(),
            index@ == Map::<Seq<char>, int>::empty(),
    {
        let index = Index { places: StringHashMap::new(), journal: Vec::new() };
        assert(index@ =~= Map::<Seq<char>, int>::empty());
        index
    }

    /// The place that `key` is bound to, if it is bound.
    pub fn get(&self, key: &str) -> (r: Option<usize>)
        ensures
            match r {
                Some(at) => self@.contains_key(key@) && self@[key@] == at,
                None => !self@.contains_key(key@),
            },
    {
        match self.places.get(key) {
            Some(at) => Some(*at),
            None => None,
        }
    }

    /// Binds `key` to the place `at`.
    pub fn insert(&mut self, key: String, at: usize)
        requires
            old(self).wf(),
        ensures
            final(self).wf(),
            final(self)@ == old(self)@.insert(key@, at as int),
    {
        if !self.places.contains_key(key.as_str()) {
            self.journal.push(key.clone());
        }
        let ghost k = key@;
        self.places.insert(key, at);
        proof {
            assert(self@ =~= old(self)@.insert(k, at as int));
            assert forall|x: Seq<char>| #[trigger] self.places@.contains_key(x) implies self.journal().contains(x) by {
                if x == k {
                    if old(self).places@.contains_key(k) {
                        assert(old(self).journal().contains(k));
                        let i = choose|i: int| 0 <= i < old(self).journal().len() && old(self).journal()[i] == k;
                        assert(self.journal()[i] == k);
                    } else {
                        assert(self.journal()[self.journal().len() - 1] == k);
                    }
                } else {
                    assert(old(self).journal().contains(x));
                    let i = choose|i: int| 0 <= i < old(self).journal().len() && old(self).journal()[i] == x;
                    assert(self.journal()[i] == x);
                }
            }
        }
    }

    /// Unbinds `key`.
    pub fn remove(&mut self, key: &str)
        requires
            old(self).wf(),
        ensures
            final(self).wf(),
            final(self)@ == old(self)@.remove(key@),
    {
        self.places.remove(key);
        proof {
            assert(self@ =~= old(self)@.remove(key@));
        }
    }

    /// Takes in a command that the log holds at the place `at`: a `Put`
    /// binds its key to `at`, a `Rm` unbinds its key.
    pub fn apply(&mut self, cmd: Command, at: usize)
        requires
            old(self).wf(),
        ensures
            final(self).wf(),
            final(self)@ == index_after(old(self)@, cmd@, at as int),
    {
        match cmd {
            Command::Put { key, value: _ } => {
                self.insert(key, at);
            },
            Command::Rm { key } => {
                self.remove(key.as_str());
            },
        }
    }

    /// The number of bound keys.
    pub fn len(&self) -> (n: usize)
        requires
            self.wf(),
        ensures
            n == self@.len(),
    {
        proof {
            assert(self@.dom() =~= self.places@.dom());
        }
        self.places.len()
    }

    /// The length of the journal.
    pub fn journal_len(&self) -> (n: usize)
        ensures
            n == self.journal().len(),
    {
        self.journal.len()
    }

    /// The key at place `i` of the journal.
    pub fn journal_key(&self, i: usize) -> (key: &String)
        requires
            i < self.journal().len(),
        ensures
            key@ == self.journal()[i as int],
    {
        &self.journal[i]
    }
}

} // verus!
