//! A store that owns values under stable keys.
//!
//! The linked structures that need more than one path to a node keep their nodes here and
//! hold keys in place of pointers: a key confers no ownership, so any number of them may
//! name the same node. Slots given back are chained together and handed out again first.

use crate::chain::{first_key, key_after, lemma_first_added, lemma_first_removed};
use vstd::pervasive::unreached;
use vstd::prelude::*;

verus! {

/// A place for one value. While it holds none it names the next such place.
enum Slot<T> {
    Used(T),
    Spare(Option<usize>),
}

/// Values of type `T`, each under the key it was given when it was inserted.
pub struct Arena<T> {
    slots: Vec<Slot<T>>,
    /// The slot that the next insertion fills, if any was given back.
    spare: Option<usize>,
    /// The slots given back, in the order in which insertions will fill them.
    spares: Ghost<Seq<usize>>,
}

impl<T> View for Arena<T> {
    type V = Map<usize, T>;

    /// The values that the arena holds, each under its key.
    closed spec fn view(&self) -> Map<usize, T> {
        Map::new(
            |key: usize| key < self.slots@.len() && self.slots@[key as int] is Used,
            |key: usize| self.slots@[key as int]->Used_0,
        )
    }
}

impl<T> Arena<T> {
    /// The spare slots form one chain without repetition that starts at `spare`, and every
    /// slot that holds no value is on it.
    pub closed spec fn wf(&self) -> bool {
        &&& self.spare == first_key(self.spares@)
        &&& self.spares@.no_duplicates()
        &&& forall|i: int|
            0 <= i < self.spares@.len() ==> (#[trigger] self.spares@[i]) < self.slots@.len()
                && self.slots@[self.spares@[i] as int] == Slot::<T>::Spare(
                key_after(self.spares@, i),
            )
        &&& forall|key: usize|
            key < self.slots@.len() && (#[trigger] self.slots@[key as int]) is Spare
                ==> self.spares@.contains(key)
    }

    /// An arena that holds nothing.
    pub fn new() -> (arena: Self)
        ensures
            arena.wf(),
            arena@ == Map::<usize, T>::empty(),
    {
        Arena { slots: Vec::new(), spare: None, spares: Ghost(Seq::empty()) }
    }

    /// Stores `value` under a key that was not in use and returns that key. A slot that was
    /// given back is filled before a new one is made.
    pub fn insert(&mut self, value: T) -> (key: usize)
        requires
            old(self).wf(),
        ensures
            final(self).wf(),
            !old(self)@.dom().contains(key),
            final(self)@ == old(self)@.insert(key, value),
    {
        match self.spare {
            Some(key) => {
                let mut slot = Slot::Used(value);
                std::mem::swap(&mut self.slots[key], &mut slot);
                match slot {
                    Slot::Spare(next) => {
                        self.spare = next;
                    },
                    Slot::Used(_) => {
                        unreached::<()>();
                    },
                }
                proof {
                    let before = self.spares@;
                    self.spares@ = before.drop_first();
                    lemma_first_removed(before);
                    assert forall|i: int| 0 <= i < self.spares@.len() implies (
                    #[trigger] self.spares@[i]) < self.slots@.len() && self.slots@[self.spares@[i] as int]
                        == Slot::<T>::Spare(key_after(self.spares@, i)) by {
                        assert(self.spares@[i] == before[i + 1]);
                    }
                }
                key
            },
            None => {
                let key = self.slots.len();
                self.slots.push(Slot::Used(value));
                key
            },
        }
    }

    /// Takes the value under `key` out and puts its slot first among the spare ones.
    pub fn remove(&mut self, key: usize) -> (value: T)
        requires
            old(self).wf(),
            old(self)@.dom().contains(key),
        ensures
            final(self).wf(),
            value == old(self)@[key],
            final(self)@ == old(self)@.remove(key),
    {
        let mut slot = Slot::Spare(self.spare);
        std::mem::swap(&mut self.slots[key], &mut slot);
        self.spare = Some(key);
        proof {
            let before = self.spares@;
            self.spares@ = seq![key] + before;
            assert forall|i: int| 0 <= i < self.spares@.len() implies (#[trigger] self.spares@[i])
                < self.slots@.len() && self.slots@[self.spares@[i] as int] == Slot::<T>::Spare(
                key_after(self.spares@, i),
            ) by {
                if i > 0 {
                    assert(self.spares@[i] == before[i - 1]);
                }
            }
            lemma_first_added(before, key);
        }
        match slot {
            Slot::Used(value) => value,
            Slot::Spare(_) => unreached(),
        }
    }

    /// The value under `key`, to be changed in place. Whatever is written through the
    /// result is the value under `key` afterwards; no other key is touched.
    pub fn get_mut(&mut self, key: usize) -> (value: &mut T)
        requires
            old(self).wf(),
            old(self)@.dom().contains(key),
        ensures
            *value == old(self)@[key],
            final(self).wf(),
            final(self)@ == old(self)@.insert(key, *final(value)),
    {
        match &mut self.slots[key] {
            Slot::Used(value) => value,
            Slot::Spare(_) => unreached(),
        }
    }
}

} // verus!
