//! The persistent storage of one account: a map from words to words.
use crate::assoc::AssocMap;
use crate::word::{zero_word, U256};
use vstd::prelude::*;

verus! {

/// An account's storage. Every slot written is kept, zero or not.
#[derive(Debug, Clone)]
pub struct Storage {
    slots: AssocMap<U256, U256>,
}

impl Storage {
    /// The slots written so far and their values.
    pub closed spec fn view(&self) -> Map<U256, U256> {
        self.slots.view()
    }

    /// The representation is sound.
    pub closed spec fn wf(&self) -> bool {
        self.slots.wf()
    }

    /// An empty storage.
    pub fn new() -> (r: Self)
        ensures
            r.wf(),
            r.view() == Map::<U256, U256>::empty(),
    {
        Storage { slots: AssocMap::new() }
    }

    /// The value of slot `key`: zero for a slot never written.
    pub fn load(&self, key: U256) -> (r: U256)
        requires
            self.wf(),
        ensures
            r == spec_load(self.view(), key),
    {
        match self.slots.get(&key) {
            Some(v) => *v,
            None => U256::zero(),
        }
    }

    /// Writes `value` to slot `key`.
    pub fn store(&mut self, key: U256, value: U256)
        requires
            old(self).wf(),
        ensures
            final(self).wf(),
            final(self).view() == old(self).view().insert(key, value),
    {
        self.slots.insert(key, value);
    }

    /// Whether no slot has ever been written.
    pub fn is_empty(&self) -> (r: bool)
        requires
            self.wf(),
        ensures
            r == (self.view() == Map::<U256, U256>::empty()),
    {
        self.slots.is_empty()
    }

    /// A copy of the storage.
    pub fn duplicate(&self) -> (r: Self)
        requires
            self.wf(),
        ensures
            r.wf(),
            r.view() == self.view(),
    {
        Storage { slots: self.slots.duplicate() }
    }
}

/// The value a storage map gives for `key`: zero for a missing key.
pub open spec fn spec_load(m: Map<U256, U256>, key: U256) -> U256 {
    if m.dom().contains(key) {
        m[key]
    } else {
        zero_word()
    }
}

} // verus!
