use crate::word::{u256_eq, Word};
use vstd::prelude::*;

verus! {

#[derive(Clone, Copy, Debug, PartialEq, Eq, Structural)]
pub enum StorageError {
    StorageAccessError,
}

/// Persistent slots: a map from 256-bit keys to 256-bit values, where a slot never
/// written reads as zero. Each key is held once, in the order it was first written.
pub struct Storage {
    entries: Vec<(Word, Word)>,
    slots: Ghost<Map<nat, nat>>,
}

impl View for Storage {
    type V = Map<nat, nat>;

    closed spec fn view(&self) -> Map<nat, nat> {
        self.slots@
    }
}

impl Storage {
    /// Every entry is in the map, every key of the map has an entry, and no key is held
    /// twice.
    pub closed spec fn wf(&self) -> bool {
        &&& forall|i: int|
            0 <= i < self.entries@.len() ==> #[trigger] self.slots@.contains_key(
                self.entries@[i].0.value(),
            ) && self.slots@[self.entries@[i].0.value()] == self.entries@[i].1.value()
        &&& forall|k: nat| #[trigger]
            self.slots@.contains_key(k) ==> exists|i: int|
                0 <= i < self.entries@.len() && self.entries@[i].0.value() == k
        &&& forall|i: int, j: int|
            0 <= i < self.entries@.len() && 0 <= j < self.entries@.len() && i != j
                ==> self.entries@[i].0.value() != self.entries@[j].0.value()
    }

    pub fn new() -> (r: Storage)
        ensures
            r.wf(),
            r@ == Map::<nat, nat>::empty(),
    {
        Storage { entries: Vec::new(), slots: Ghost(Map::empty()) }
    }

    /// The index of the entry for `key`, if there is one.
    fn find(&self, key: Word) -> (r: Option<usize>)
        requires
            self.wf(),
        ensures
            match r {
                Some(i) => i < self.entries@.len() && self.entries@[i as int].0.value()
                    == key.value(),
                None => !self@.contains_key(key.value()),
            },
    {
        let mut i: usize = 0;
        while i < self.entries.len()
            invariant
                self.wf(),
                i <= self.entries@.len(),
                forall|j: int| 0 <= j < i ==> self.entries@[j].0.value() != key.value(),
            decreases self.entries.len() - i,
        {
            if u256_eq(self.entries[i].0, key) {
                return Some(i);
            }
            i = i + 1;
        }
        None
    }

    pub fn contains(&self, key: Word) -> (r: bool)
        requires
            self.wf(),
        ensures
            r == self@.contains_key(key.value()),
    {
        self.find(key).is_some()
    }

    /// The value in slot `key`, zero where it was never written.
    pub fn load(&self, key: Word) -> (r: Result<Word, StorageError>)
        requires
            self.wf(),
        ensures
            r is Ok,
            self@.contains_key(key.value()) ==> r->Ok_0.value() == self@[key.value()],
            !self@.contains_key(key.value()) ==> r->Ok_0.value() == 0,
    {
        match self.find(key) {
            Some(i) => Ok(self.entries[i].1),
            None => Ok(Word::zero()),
        }
    }

    pub fn store(&mut self, key: Word, value: Word) -> (r: Result<(), StorageError>)
        requires
            old(self).wf(),
        ensures
            final(self).wf(),
            r is Ok,
            final(self)@ == old(self)@.insert(key.value(), value.value()),
    {
        let ghost k = key.value();
        let ghost old_entries = self.entries@;
        match self.find(key) {
            Some(i) => {
                self.entries.set(i, (key, value));
                self.slots = Ghost(self.slots@.insert(k, value.value()));
                proof {
                    assert forall|j: int| 0 <= j < old_entries.len() && j != i implies
                        old_entries[j].0.value() != k by {}
                    assert forall|k2: nat| #[trigger] self.slots@.contains_key(k2) implies exists|
                        j: int,
                    |
                        0 <= j < self.entries@.len() && self.entries@[j].0.value() == k2 by {
                        if k2 == k {
                            assert(self.entries@[i as int].0.value() == k2);
                        } else {
                            let j0 = choose|j: int|
                                0 <= j < old_entries.len() && old_entries[j].0.value() == k2;
                            assert(self.entries@[j0].0.value() == k2);
                        }
                    }
                }
            },
            None => {
                self.entries.push((key, value));
                self.slots = Ghost(self.slots@.insert(k, value.value()));
                proof {
                    let n = old_entries.len() as int;
                    assert forall|j: int| 0 <= j < n implies old_entries[j].0.value() != k by {
                        assert(old(self).slots@.contains_key(old_entries[j].0.value()));
                    }
                    assert forall|k2: nat| #[trigger] self.slots@.contains_key(k2) implies exists|
                        j: int,
                    |
                        0 <= j < self.entries@.len() && self.entries@[j].0.value() == k2 by {
                        if k2 == k {
                            assert(self.entries@[n].0.value() == k2);
                        } else {
                            let j0 = choose|j: int|
                                0 <= j < old_entries.len() && old_entries[j].0.value() == k2;
                            assert(self.entries@[j0].0.value() == k2);
                        }
                    }
                }
            },
        }
        Ok(())
    }

    /// Reads slot `slot` of `storage`.
    pub fn load_storage(&self, storage: &Storage, slot: Word) -> (r: Result<Word, StorageError>)
        requires
            storage.wf(),
        ensures
            r is Ok,
            storage@.contains_key(slot.value()) ==> r->Ok_0.value() == storage@[slot.value()],
            !storage@.contains_key(slot.value()) ==> r->Ok_0.value() == 0,
    {
        storage.load(slot)
    }

    /// Writes `value` into slot `slot` of `storage`.
    pub fn store_storage(&mut self, storage: &mut Storage, slot: Word, value: Word) -> (r: Result<
        (),
        StorageError,
    >)
        requires
            old(storage).wf(),
        ensures
            final(storage).wf(),
            r is Ok,
            final(storage)@ == old(storage)@.insert(slot.value(), value.value()),
    {
        storage.store(slot, value)
    }
}

} // verus!
