//! The sentence store: a mapping from position number to sentence text,
//! written exactly once per position and consumed by the playback stage.

use std::collections::HashMap;
use vstd::prelude::*;

verus! {

broadcast use vstd::std_specs::hash::group_hash_axioms;

/// Why an operation on the sentence store was refused.
pub enum StoreError {
    /// An entry for this position already exists; it is never overwritten.
    PositionOccupied { position: u64 },
}

/// Mapping from position number to sentence text. Entries are inserted
/// exactly once and never overwritten; a duplicate insertion is reported as
/// an error so the caller can treat it as a broken sequencing invariant.
pub struct SentenceStore {
    entries: HashMap<u64, String>,
}

impl View for SentenceStore {
    type V = Map<u64, String>;

    closed spec fn view(&self) -> Map<u64, String> {
        self.entries@
    }
}

impl SentenceStore {
    /// An empty store.
    pub fn new() -> (s: Self)
        ensures
            s@ == Map::<u64, String>::empty(),
    {
        SentenceStore { entries: HashMap::new() }
    }

    /// How many positions are currently held.
    pub fn len(&self) -> (n: usize)
        ensures
            n == self@.len(),
    {
        self.entries.len()
    }

    /// Whether an entry for `position` is present.
    pub fn contains(&self, position: u64) -> (r: bool)
        ensures
            r == self@.contains_key(position),
    {
        self.entries.contains_key(&position)
    }

    /// Publishes `text` under `position`. An already occupied position is
    /// never overwritten: the insertion is refused and the store is left
    /// unchanged.
    pub fn insert(&mut self, position: u64, text: String) -> (r: Result<(), StoreError>)
        ensures
            match r {
                Ok(()) => {
                    &&& !old(self)@.contains_key(position)
                    &&& final(self)@ == old(self)@.insert(position, text)
                },
                Err(e) => {
                    &&& old(self)@.contains_key(position)
                    &&& final(self)@ == old(self)@
                    &&& e == (StoreError::PositionOccupied { position })
                },
            },
    {
        if self.entries.contains_key(&position) {
            Err(StoreError::PositionOccupied { position })
        } else {
            let _ = self.entries.insert(position, text);
            Ok(())
        }
    }

    /// The sentence stored at `position`, if any.
    pub fn get(&self, position: u64) -> (r: Option<&String>)
        ensures
            match r {
                Some(text) => self@.contains_key(position) && *text == self@[position],
                None => !self@.contains_key(position),
            },
    {
        self.entries.get(&position)
    }

    /// Removes and returns the entry at `position`: the store is consumed
    /// strictly forward, so a played position can be discarded.
    pub fn take(&mut self, position: u64) -> (r: Option<String>)
        ensures
            final(self)@ == old(self)@.remove(position),
            match r {
                Some(text) => old(self)@.contains_key(position) && text == old(self)@[position],
                None => !old(self)@.contains_key(position),
            },
    {
        self.entries.remove(&position)
    }
}

} // verus!
