//! A store held in memory, with the behaviour of the remote one: the
//! same steps, the same answers, and atomic groups that a fault can
//! interrupt.

use crate::content::ContentStore;
use crate::db::{StoreError, DB};
use crate::engine::{
    flatten_chunks, payload_from_reply, resolve_latest, result_view, scored_views_of, views_of,
};
use crate::index::VersionIndex;
use crate::keys::{memory_key, spec_memory_key};
use crate::model::{is_ranking, StoreState};
use crate::plan::{steps_of, write_plan, Mutation};
use vstd::prelude::*;

verus! {

/// Whether a pending fault strikes a group of `steps` steps: it names
/// one of the group's steps, counted from zero.
pub open spec fn fault_strikes(fault: Option<usize>, steps: nat) -> bool {
    fault matches Some(at) && at < steps
}

/// A store in memory.
pub struct MemoryDb {
    index: VersionIndex,
    content: ContentStore,
    current_block: Vec<Vec<u8>>,
    fault: Option<usize>,
}

impl View for MemoryDb {
    type V = StoreState;

    closed spec fn view(&self) -> StoreState {
        StoreState {
            index: self.index@,
            content: self.content@,
            current_block: views_of(self.current_block@),
        }
    }
}

impl MemoryDb {
    /// The fault that waits for the next atomic group: the number of
    /// the step, counted from zero, that the connection fails to send.
    pub closed spec fn pending_fault(&self) -> Option<usize> {
        self.fault
    }

    /// An empty store with no fault pending.
    pub fn new() -> (db: MemoryDb)
        ensures
            db@ == StoreState::empty(),
            db.pending_fault() is None,
    {
        let db = MemoryDb {
            index: VersionIndex::new(),
            content: ContentStore::new(),
            current_block: Vec::new(),
            fault: None,
        };
        assert(db@.current_block =~= Seq::empty());
        db
    }

    /// Arranges for the connection to fail during the next atomic
    /// group, when the group tries to send its step number `at_step`.
    pub fn inject_fault(&mut self, at_step: usize)
        ensures
            final(self)@ == old(self)@,
            final(self).pending_fault() == Some(at_step),
    {
        self.fault = Some(at_step);
    }

    /// Appends `chunk` to the current block, as the owner of that
    /// buffer does.
    pub fn push_chunk(&mut self, chunk: Vec<u8>)
        ensures
            final(self)@ == old(self)@.append_chunk(chunk@),
            final(self).pending_fault() == old(self).pending_fault(),
    {
        self.current_block.push(chunk);
        assert(views_of(self.current_block@) =~= views_of(old(self).current_block@).push(chunk@));
    }

    /// Applies one step by itself, outside any atomic group.
    pub fn apply(&mut self, mutation: &Mutation)
        ensures
            final(self)@ == old(self)@.apply(mutation@),
            final(self).pending_fault() == old(self).pending_fault(),
    {
        match mutation {
            Mutation::IndexRemove { namespace, member } => {
                self.index.remove(namespace.as_slice(), member.as_slice());
            },
            Mutation::IndexInsert { namespace, score, member } => {
                self.index.insert(namespace.as_slice(), *score, member.as_slice());
            },
            Mutation::ContentSet { field, value } => {
                self.content.set(field.as_slice(), value.as_slice());
            },
        }
    }

    /// Applies the steps of `group` together. Where a pending fault
    /// strikes the group, none of its steps takes effect and the store
    /// is reported unavailable; otherwise all of them do, in order.
    /// Either way no fault is pending afterwards.
    pub fn exec_atomic(&mut self, group: &Vec<Mutation>) -> (result: Result<(), StoreError>)
        ensures
            final(self).pending_fault() is None,
            fault_strikes(old(self).pending_fault(), group@.len()) ==> {
                &&& result == Err::<(), StoreError>(StoreError::BackingStoreUnavailable)
                &&& final(self)@ == old(self)@
            },
            !fault_strikes(old(self).pending_fault(), group@.len()) ==> {
                &&& result is Ok
                &&& final(self)@ == old(self)@.apply_all(steps_of(group@))
            },
    {
        let fault = self.fault;
        self.fault = None;
        if let Some(at) = fault {
            if at < group.len() {
                return Err(StoreError::BackingStoreUnavailable);
            }
        }
        let mut i: usize = 0;
        assert(steps_of(group@).skip(0) =~= steps_of(group@));
        while i < group.len()
            invariant
                i <= group.len(),
                self.pending_fault() is None,
                self@.apply_all(steps_of(group@).skip(i as int)) == old(self)@.apply_all(
                    steps_of(group@),
                ),
            decreases group.len() - i,
        {
            assert(steps_of(group@).skip(i as int).drop_first() =~= steps_of(group@).skip(i + 1));
            self.apply(&group[i]);
            i += 1;
        }
        Ok(())
    }

    /// Scans the index of `key`: its version identifiers with their
    /// block numbers, from the lowest-ranking to the highest.
    pub fn versions(&self, key: &[u8]) -> (ranked: Vec<(u64, Vec<u8>)>)
        ensures
            is_ranking(self@.index, spec_memory_key(key@), scored_views_of(ranked@)),
    {
        let namespace = memory_key(key);
        self.index.ranking(namespace.as_slice())
    }

    /// Answers the request for the latest version identifier in
    /// `namespace`: a list of that one identifier, or an empty list.
    pub fn latest_hash_keys(&self, namespace: &[u8]) -> (latest: Vec<Vec<u8>>)
        ensures
            views_of(latest@) == self@.top(namespace@),
    {
        self.index.top(namespace)
    }
}

/// Looks up the payload stored under the version identifier `hash_key`.
/// A payload that is missing is a violation of the store's integrity.
pub fn get_memory_by_hash_key(db: &MemoryDb, hash_key: &[u8]) -> (result: Result<
    Vec<u8>,
    StoreError,
>)
    ensures
        result_view(result) == db@.payload(hash_key@),
{
    payload_from_reply(db.content.get(hash_key))
}

impl DB for MemoryDb {
    open spec fn state(&self) -> StoreState {
        self@
    }

    /// Writes `value` for `key` at `block_number` as one atomic group.
    fn write(&mut self, block_number: u64, key: &[u8], value: &[u8]) -> (result: Result<
        (),
        StoreError,
    >)
        ensures
            final(self).pending_fault() is None,
            fault_strikes(old(self).pending_fault(), 3) ==> {
                &&& result == Err::<(), StoreError>(StoreError::BackingStoreUnavailable)
                &&& final(self)@ == old(self)@
            },
            !fault_strikes(old(self).pending_fault(), 3) ==> {
                &&& result is Ok
                &&& final(self)@ == old(self)@.write(block_number, key@, value@)
            },
    {
        let plan = write_plan(block_number, key, value);
        assert(plan@.len() == steps_of(plan@).len());
        self.exec_atomic(&plan)
    }

    /// Reads the payload of the latest version of `key`, whatever
    /// `block_number` is.
    fn read(&self, block_number: u64, key: &[u8]) -> (result: Result<Vec<u8>, StoreError>)
        ensures
            result_view(result) == self@.read(key@),
    {
        let namespace = memory_key(key);
        let latest = self.latest_hash_keys(namespace.as_slice());
        match resolve_latest(latest) {
            Some(id) => get_memory_by_hash_key(self, id.as_slice()),
            None => Ok(Vec::new()),
        }
    }

    /// Returns the current block as one byte string.
    fn get_block_data(&self) -> (result: Result<Vec<u8>, StoreError>)
        ensures
            result_view(result) == Ok::<Seq<u8>, StoreError>(self@.block_data()),
    {
        Ok(flatten_chunks(&self.current_block))
    }
}

} // verus!
