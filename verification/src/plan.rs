//! The changes that a write asks of the backing store.

use crate::keys::{hash_key, memory_key};
use crate::model::{spec_write_plan, Step};
use vstd::prelude::*;
use vstd::slice::slice_to_vec;

verus! {

/// One change to the backing store, with the bytes that it carries.
#[derive(Debug, PartialEq, Eq)]
pub enum Mutation {
    /// Takes `member` out of the index `namespace`, if it is there.
    IndexRemove { namespace: Vec<u8>, member: Vec<u8> },
    /// Puts `member` into the index `namespace` with `score`.
    IndexInsert { namespace: Vec<u8>, score: u64, member: Vec<u8> },
    /// Stores `value` under `field` in the content store.
    ContentSet { field: Vec<u8>, value: Vec<u8> },
}

impl View for Mutation {
    type V = Step;

    open spec fn view(&self) -> Step {
        match *self {
            Mutation::IndexRemove { namespace, member } => Step::IndexRemove {
                namespace: namespace@,
                member: member@,
            },
            Mutation::IndexInsert { namespace, score, member } => Step::IndexInsert {
                namespace: namespace@,
                score,
                member: member@,
            },
            Mutation::ContentSet { field, value } => Step::ContentSet {
                field: field@,
                value: value@,
            },
        }
    }
}

/// The steps that a group of mutations stands for, in order.
pub open spec fn steps_of(group: Seq<Mutation>) -> Seq<Step> {
    group.map_values(|mutation: Mutation| mutation@)
}

/// Plans the write of `value` for `key` at `block_number`: remove the
/// version from the key's index, insert it again with the block number
/// as its score, and store the payload under the version identifier.
/// The three steps are meant to take effect together or not at all.
pub fn write_plan(block_number: u64, key: &[u8], value: &[u8]) -> (plan: Vec<Mutation>)
    ensures
        steps_of(plan@) == spec_write_plan(block_number, key@, value@),
{
    let mut plan: Vec<Mutation> = Vec::new();
    plan.push(
        Mutation::IndexRemove { namespace: memory_key(key), member: hash_key(block_number, key) },
    );
    plan.push(
        Mutation::IndexInsert {
            namespace: memory_key(key),
            score: block_number,
            member: hash_key(block_number, key),
        },
    );
    plan.push(
        Mutation::ContentSet { field: hash_key(block_number, key), value: slice_to_vec(value) },
    );
    assert(steps_of(plan@) =~= spec_write_plan(block_number, key@, value@));
    plan
}

} // verus!
