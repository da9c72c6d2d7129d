//! The mathematical model of the store: a version index, a content
//! store and the buffer of the current block, with the steps that
//! change them.

use crate::db::StoreError;
use crate::keys::{spec_hash_key, spec_memory_key};
use crate::order::{lemma_bytes_le_antisymmetric, rank_le};
use vstd::prelude::*;

verus! {

/// One change to the store.
pub enum Step {
    /// Takes `member` out of the index `namespace`, if it is there.
    IndexRemove { namespace: Seq<u8>, member: Seq<u8> },
    /// Puts `member` into the index `namespace` with `score`, replacing
    /// the score it had.
    IndexInsert { namespace: Seq<u8>, score: u64, member: Seq<u8> },
    /// Stores `value` under `field` in the content store.
    ContentSet { field: Seq<u8>, value: Seq<u8> },
}

/// The three steps of a write, in the order in which they are applied.
pub open spec fn spec_write_plan(block_number: u64, key: Seq<u8>, value: Seq<u8>) -> Seq<Step> {
    seq![
        Step::IndexRemove {
            namespace: spec_memory_key(key),
            member: spec_hash_key(block_number, key),
        },
        Step::IndexInsert {
            namespace: spec_memory_key(key),
            score: block_number,
            member: spec_hash_key(block_number, key),
        },
        Step::ContentSet { field: spec_hash_key(block_number, key), value },
    ]
}

/// The version indexes of a store: the score of each member of each
/// namespace.
pub type IndexMap = Map<(Seq<u8>, Seq<u8>), u64>;

/// Whether `member` ranks highest in `namespace`.
pub open spec fn is_latest(index: IndexMap, namespace: Seq<u8>, member: Seq<u8>) -> bool {
    &&& index.contains_key((namespace, member))
    &&& forall|other: Seq<u8>| #[trigger]
        index.contains_key((namespace, other)) ==> rank_le(
            index[(namespace, other)],
            other,
            index[(namespace, member)],
            member,
        )
}

/// The member that ranks highest in `namespace`, if it has one.
pub open spec fn latest(index: IndexMap, namespace: Seq<u8>) -> Option<Seq<u8>> {
    if exists|member: Seq<u8>| is_latest(index, namespace, member) {
        Some(choose|member: Seq<u8>| is_latest(index, namespace, member))
    } else {
        None
    }
}

/// What an index answers when asked for the single highest-ranking
/// member of `namespace`: that member, or nothing.
pub open spec fn top(index: IndexMap, namespace: Seq<u8>) -> Seq<Seq<u8>> {
    match latest(index, namespace) {
        Some(member) => seq![member],
        None => Seq::empty(),
    }
}

/// Whether `ranked` lists the members of `namespace`, each with its
/// score, from the lowest-ranking to the highest: every listed pair is
/// an entry, the list ascends strictly, and no member is left out.
pub open spec fn is_ranking(
    index: IndexMap,
    namespace: Seq<u8>,
    ranked: Seq<(u64, Seq<u8>)>,
) -> bool {
    &&& forall|i: int|
        0 <= i < ranked.len() ==> index.contains_key((namespace, (#[trigger] ranked[i]).1))
            && index[(namespace, ranked[i].1)] == ranked[i].0
    &&& forall|i: int, j: int|
        0 <= i < j < ranked.len() ==> rank_le(
            (#[trigger] ranked[i]).0,
            ranked[i].1,
            (#[trigger] ranked[j]).0,
            ranked[j].1,
        ) && ranked[i].1 != ranked[j].1
    &&& forall|member: Seq<u8>| #[trigger]
        index.contains_key((namespace, member)) ==> exists|i: int|
            0 <= i < ranked.len() && (#[trigger] ranked[i]).1 == member
}

/// What the store holds.
#[verifier::ext_equal]
pub struct StoreState {
    /// The version indexes: the score of each member of each namespace.
    pub index: IndexMap,
    /// The content store: the payload of each version identifier.
    pub content: Map<Seq<u8>, Seq<u8>>,
    /// The chunks of the current block, oldest first.
    pub current_block: Seq<Seq<u8>>,
}

impl StoreState {
    /// The store before anything was written.
    pub open spec fn empty() -> StoreState {
        StoreState { index: Map::empty(), content: Map::empty(), current_block: Seq::empty() }
    }

    /// The store after one step.
    pub open spec fn apply(self, step: Step) -> StoreState {
        match step {
            Step::IndexRemove { namespace, member } => StoreState {
                index: self.index.remove((namespace, member)),
                ..self
            },
            Step::IndexInsert { namespace, score, member } => StoreState {
                index: self.index.insert((namespace, member), score),
                ..self
            },
            Step::ContentSet { field, value } => StoreState {
                content: self.content.insert(field, value),
                ..self
            },
        }
    }

    /// The store after all of `steps`, first to last.
    pub open spec fn apply_all(self, steps: Seq<Step>) -> StoreState
        decreases steps.len(),
    {
        if steps.len() == 0 {
            self
        } else {
            self.apply(steps.first()).apply_all(steps.drop_first())
        }
    }

    /// The store after `value` was written for `key` at `block_number`.
    pub open spec fn write(self, block_number: u64, key: Seq<u8>, value: Seq<u8>) -> StoreState {
        self.apply_all(spec_write_plan(block_number, key, value))
    }

    /// The store after the caller appended `chunk` to the current block.
    pub open spec fn append_chunk(self, chunk: Seq<u8>) -> StoreState {
        StoreState { current_block: self.current_block.push(chunk), ..self }
    }

    /// Whether `namespace` has any member.
    pub open spec fn has_versions(self, namespace: Seq<u8>) -> bool {
        exists|member: Seq<u8>| self.index.contains_key((namespace, member))
    }

    /// The members of the index of `key` whose score is `block_number`.
    pub open spec fn versions_at(self, key: Seq<u8>, block_number: u64) -> Set<Seq<u8>> {
        Set::new(
            |member: Seq<u8>|
                self.index.contains_key((spec_memory_key(key), member)) && self.index[(
                    spec_memory_key(key),
                    member,
                )] == block_number,
        )
    }

    /// Whether no version of `key` carries a block number above
    /// `block_number`.
    pub open spec fn no_version_above(self, key: Seq<u8>, block_number: u64) -> bool {
        forall|member: Seq<u8>| #[trigger]
            self.index.contains_key((spec_memory_key(key), member)) ==> self.index[(
                spec_memory_key(key),
                member,
            )] <= block_number
    }

    /// The member that ranks highest in `namespace`, if it has one.
    pub open spec fn latest(self, namespace: Seq<u8>) -> Option<Seq<u8>> {
        latest(self.index, namespace)
    }

    /// What the store answers when asked for the single highest-ranking
    /// member of `namespace`: that member, or nothing.
    pub open spec fn top(self, namespace: Seq<u8>) -> Seq<Seq<u8>> {
        top(self.index, namespace)
    }

    /// The payload stored under `field`, or the violation that its
    /// absence is.
    pub open spec fn payload(self, field: Seq<u8>) -> Result<Seq<u8>, StoreError> {
        if self.content.contains_key(field) {
            Ok(self.content[field])
        } else {
            Err(StoreError::DataIntegrityViolation)
        }
    }

    /// What a read of `key` returns: the payload of its latest version,
    /// no bytes where it has no version, and a violation where the
    /// latest version has no payload.
    pub open spec fn read(self, key: Seq<u8>) -> Result<Seq<u8>, StoreError> {
        match self.latest(spec_memory_key(key)) {
            None => Ok(Seq::empty()),
            Some(id) => self.payload(id),
        }
    }

    /// The current block as one byte sequence.
    pub open spec fn block_data(self) -> Seq<u8> {
        self.current_block.flatten()
    }

    /// Every member of every index has a payload.
    pub open spec fn intact(self) -> bool {
        forall|namespace: Seq<u8>, member: Seq<u8>| #[trigger]
            self.index.contains_key((namespace, member)) ==> self.content.contains_key(member)
    }

    /// Every index entry is one that a write makes: in the namespace of
    /// some key, the version identifier of that key at the entry's score.
    pub open spec fn versioned(self) -> bool {
        forall|namespace: Seq<u8>, member: Seq<u8>| #[trigger]
            self.index.contains_key((namespace, member)) ==> exists|key: Seq<u8>|
                namespace == spec_memory_key(key) && member == #[trigger] spec_hash_key(
                    self.index[(namespace, member)],
                    key,
                )
    }
}

/// At most one member ranks highest in a namespace.
pub proof fn lemma_latest_is_unique(index: IndexMap, namespace: Seq<u8>, a: Seq<u8>, b: Seq<u8>)
    requires
        is_latest(index, namespace, a),
        is_latest(index, namespace, b),
    ensures
        a == b,
{
    lemma_bytes_le_antisymmetric(a, b);
}

/// A member that ranks highest is the one that `latest` names.
pub proof fn lemma_latest_is(index: IndexMap, namespace: Seq<u8>, member: Seq<u8>)
    requires
        is_latest(index, namespace, member),
    ensures
        latest(index, namespace) == Some(member),
{
    let chosen = choose|m: Seq<u8>| is_latest(index, namespace, m);
    lemma_latest_is_unique(index, namespace, chosen, member);
}

} // verus!
