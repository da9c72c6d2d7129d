//! The storage interface that the execution engine calls.

use crate::engine::result_view;
use crate::model::StoreState;
use vstd::prelude::*;

verus! {

/// How a storage operation can fail. A block number is sixty-four bits
/// wide wherever it is held, so that no encoding of it can overflow and
/// no failure stands for that.
#[derive(Debug, Clone, Copy, PartialEq, Eq, Structural)]
pub enum StoreError {
    /// The backing store could not be reached, or gave up during a
    /// request. An atomic group that fails this way leaves no effect.
    BackingStoreUnavailable,
    /// The version index names a version whose payload is absent from
    /// the content store.
    DataIntegrityViolation,
}

impl StoreError {
    /// A short description of the failure.
    pub fn message(&self) -> (text: &'static str)
        ensures
            text@ == match *self {
                StoreError::BackingStoreUnavailable => "backing store unavailable"@,
                StoreError::DataIntegrityViolation => "version index names a missing payload"@,
            },
    {
        match self {
            StoreError::BackingStoreUnavailable => "backing store unavailable",
            StoreError::DataIntegrityViolation => "version index names a missing payload",
        }
    }
}

/// The three operations of versioned storage. A backing technology
/// implements them; the execution engine depends on nothing else.
///
/// An implementation answers for a state of its own. A write that
/// succeeds has taken effect as a whole. One that fails has left the
/// state as it was or has taken effect as a whole without the caller
/// learning of it, which is why a failed write may be repeated; it has
/// never taken effect in part.
pub trait DB {
    /// What the store holds.
    spec fn state(&self) -> StoreState;

    /// Records `value` as the version of `key` written at `block_number`.
    /// The only failure is that of the backing store.
    fn write(&mut self, block_number: u64, key: &[u8], value: &[u8]) -> (result: Result<
        (),
        StoreError,
    >)
        ensures
            result is Ok ==> final(self).state() == old(self).state().write(
                block_number,
                key@,
                value@,
            ),
            result is Err ==> {
                &&& result == Err::<(), StoreError>(StoreError::BackingStoreUnavailable)
                &&& final(self).state() == old(self).state() || final(self).state() == old(
                    self,
                ).state().write(block_number, key@, value@)
            },
    ;

    /// Returns the payload of the latest version of `key`, or no bytes
    /// where the key was never written. `block_number` selects nothing:
    /// the latest version is returned whatever block is asked for.
    /// Unless the backing store fails, the result is the one that the
    /// state determines.
    fn read(&self, block_number: u64, key: &[u8]) -> (result: Result<Vec<u8>, StoreError>)
        ensures
            result matches Err(StoreError::BackingStoreUnavailable) || result_view(result)
                == self.state().read(key@),
    ;

    /// Returns the chunks of the current block, concatenated in order.
    /// The only failure is that of the backing store.
    fn get_block_data(&self) -> (result: Result<Vec<u8>, StoreError>)
        ensures
            result matches Ok(data) ==> data@ == self.state().block_data(),
            result matches Err(error) ==> error == StoreError::BackingStoreUnavailable,
    ;
}

} // verus!
