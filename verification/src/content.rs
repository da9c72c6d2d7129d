//! The content store of a store held in memory.

use crate::assoc::{as_map, distinct_keys, holds_at, lemma_lookup, lemma_push, lemma_remove};
use crate::order::bytes_eq;
use vstd::prelude::*;
use vstd::slice::slice_to_vec;

verus! {

/// One payload with the field that it is stored under.
struct ContentEntry {
    field: Vec<u8>,
    value: Vec<u8>,
}

/// The entries as pairs of a field and the payload under it.
spec fn content_pairs(entries: Seq<ContentEntry>) -> Seq<(Seq<u8>, Seq<u8>)> {
    entries.map_values(|entry: ContentEntry| (entry.field@, entry.value@))
}

/// A map from byte strings to payloads. No field occurs twice.
pub struct ContentStore {
    entries: Vec<ContentEntry>,
}

impl View for ContentStore {
    type V = Map<Seq<u8>, Seq<u8>>;

    closed spec fn view(&self) -> Map<Seq<u8>, Seq<u8>> {
        as_map(content_pairs(self.entries@))
    }
}

impl ContentStore {
    #[verifier::type_invariant]
    spec fn well_formed(&self) -> bool {
        distinct_keys(content_pairs(self.entries@))
    }

    /// A content store without payloads.
    pub fn new() -> (content: ContentStore)
        ensures
            content@ == Map::<Seq<u8>, Seq<u8>>::empty(),
    {
        let content = ContentStore { entries: Vec::new() };
        assert(content@ =~= Map::<Seq<u8>, Seq<u8>>::empty());
        content
    }

    /// Moves the entries out and leaves the store empty.
    fn take_entries(&mut self) -> (entries: Vec<ContentEntry>)
        ensures
            entries@ == old(self).entries@,
    {
        let mut entries: Vec<ContentEntry> = Vec::new();
        core::mem::swap(&mut self.entries, &mut entries);
        entries
    }

    /// Makes `entries` the entries of the store.
    fn put_entries(&mut self, entries: Vec<ContentEntry>)
        requires
            distinct_keys(content_pairs(entries@)),
        ensures
            final(self).entries@ == entries@,
    {
        let mut entries = entries;
        core::mem::swap(&mut self.entries, &mut entries);
    }

    /// The position of the entry of `field`, if any.
    fn find(&self, field: &[u8]) -> (found: Option<usize>)
        ensures
            match found {
                Some(i) => holds_at(content_pairs(self.entries@), i as int, field@),
                None => !self@.contains_key(field@),
            },
    {
        let mut i: usize = 0;
        while i < self.entries.len()
            invariant
                i <= self.entries.len(),
                forall|j: int| 0 <= j < i ==> !holds_at(content_pairs(self.entries@), j, field@),
            decreases self.entries.len() - i,
        {
            if bytes_eq(self.entries[i].field.as_slice(), field) {
                return Some(i);
            }
            i += 1;
        }
        None
    }

    /// The payload stored under `field`, if there is one.
    pub fn get(&self, field: &[u8]) -> (payload: Option<Vec<u8>>)
        ensures
            match payload {
                Some(bytes) => self@.contains_key(field@) && bytes@ == self@[field@],
                None => !self@.contains_key(field@),
            },
    {
        proof {
            use_type_invariant(self);
        }
        match self.find(field) {
            Some(i) => {
                proof {
                    lemma_lookup(content_pairs(self.entries@), i as int);
                }
                Some(slice_to_vec(self.entries[i].value.as_slice()))
            },
            None => None,
        }
    }

    /// Stores `value` under `field`, in place of what was there.
    pub fn set(&mut self, field: &[u8], value: &[u8])
        ensures
            final(self)@ == old(self)@.insert(field@, value@),
    {
        proof {
            use_type_invariant(&*self);
        }
        let found = self.find(field);
        let mut entries = self.take_entries();
        match found {
            Some(i) => {
                proof {
                    lemma_remove(content_pairs(entries@), i as int);
                    assert(content_pairs(entries@.remove(i as int)) =~= content_pairs(
                        entries@,
                    ).remove(i as int));
                }
                entries.remove(i);
            },
            None => {
                assert(old(self)@.remove(field@) =~= old(self)@);
            },
        }
        let entry = ContentEntry { field: slice_to_vec(field), value: slice_to_vec(value) };
        proof {
            lemma_push(content_pairs(entries@), field@, value@);
            assert(content_pairs(entries@.push(entry)) =~= content_pairs(entries@).push(
                (field@, value@),
            ));
            assert(old(self)@.remove(field@).insert(field@, value@) =~= old(self)@.insert(
                field@,
                value@,
            ));
        }
        entries.push(entry);
        self.put_entries(entries);
    }
}

} // verus!
