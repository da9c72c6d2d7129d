//! What holds of the store whatever is written to it.

use crate::db::StoreError;
use crate::keys::{
    index_prefix, lemma_block_bytes_match, spec_full_key, spec_hash_key, spec_memory_key,
};
use crate::model::{
    is_latest, is_ranking, latest, lemma_latest_is, spec_write_plan, IndexMap, Step, StoreState,
};
use crate::order::{lemma_bytes_le_antisymmetric, lemma_bytes_le_total, rank_le};
use crate::remote::{block_name, content_name};
use vstd::bytes::{lemma_auto_spec_u64_to_from_le_bytes, spec_u64_to_le_bytes};
use vstd::prelude::*;
use vstd::string::is_ascii_spec_bytes;

verus! {

/// A version identifier names one block number and one key: two
/// identifiers are equal only where both agree.
pub proof fn law_full_key_injective(
    block_a: u64,
    key_a: Seq<u8>,
    block_b: u64,
    key_b: Seq<u8>,
)
    requires
        spec_full_key(block_a, key_a) == spec_full_key(block_b, key_b),
    ensures
        block_a == block_b,
        key_a == key_b,
{
    lemma_auto_spec_u64_to_from_le_bytes();
    lemma_block_bytes_match(block_a);
    lemma_block_bytes_match(block_b);
    let a = spec_full_key(block_a, key_a);
    let b = spec_full_key(block_b, key_b);
    assert(a.subrange(0, 8) =~= spec_u64_to_le_bytes(block_a));
    assert(b.subrange(0, 8) =~= spec_u64_to_le_bytes(block_b));
    assert(a.subrange(8, a.len() as int) =~= key_a);
    assert(b.subrange(8, b.len() as int) =~= key_b);
}

/// The name of a version index names one key.
pub proof fn law_memory_key_injective(key_a: Seq<u8>, key_b: Seq<u8>)
    requires
        spec_memory_key(key_a) == spec_memory_key(key_b),
    ensures
        key_a == key_b,
{
    let a = spec_memory_key(key_a);
    let b = spec_memory_key(key_b);
    let n = index_prefix().len() as int;
    assert(a.subrange(n, a.len() as int) =~= key_a);
    assert(b.subrange(n, b.len() as int) =~= key_b);
}

/// A write puts the version into the key's index with the block number
/// as its score, stores the payload under the version identifier, and
/// changes nothing else.
pub proof fn law_write_effect(state: StoreState, block_number: u64, key: Seq<u8>, value: Seq<u8>)
    ensures
        state.write(block_number, key, value) == (StoreState {
            index: state.index.insert(
                (spec_memory_key(key), spec_hash_key(block_number, key)),
                block_number,
            ),
            content: state.content.insert(spec_hash_key(block_number, key), value),
            current_block: state.current_block,
        }),
{
    let plan = spec_write_plan(block_number, key, value);
    let slot = (spec_memory_key(key), spec_hash_key(block_number, key));
    reveal_with_fuel(StoreState::apply_all, 4);
    assert(plan.drop_first() =~= seq![plan[1], plan[2]]);
    assert(plan.drop_first().drop_first() =~= seq![plan[2]]);
    assert(plan.drop_first().drop_first().drop_first() =~= Seq::<Step>::empty());
    assert(state.index.remove(slot).insert(slot, block_number) =~= state.index.insert(
        slot,
        block_number,
    ));
}

/// Idempotent write: writing the same value for the same key at the
/// same block number a second time leaves the store as the first write
/// left it.
pub proof fn law_write_idempotent(
    state: StoreState,
    block_number: u64,
    key: Seq<u8>,
    value: Seq<u8>,
)
    ensures
        state.write(block_number, key, value).write(block_number, key, value) == state.write(
            block_number,
            key,
            value,
        ),
{
    law_write_overwrites(state, block_number, key, value, value);
}

/// Same-block overwrite: of two writes for one key at one block number
/// only the second shows; the store is as if the first had not been.
pub proof fn law_write_overwrites(
    state: StoreState,
    block_number: u64,
    key: Seq<u8>,
    first: Seq<u8>,
    second: Seq<u8>,
)
    ensures
        state.write(block_number, key, first).write(block_number, key, second) == state.write(
            block_number,
            key,
            second,
        ),
{
    let slot = (spec_memory_key(key), spec_hash_key(block_number, key));
    let once = state.write(block_number, key, first);
    law_write_effect(state, block_number, key, first);
    law_write_effect(state, block_number, key, second);
    law_write_effect(once, block_number, key, second);
    assert(once.index.insert(slot, block_number) =~= state.index.insert(slot, block_number));
    assert(once.content.insert(slot.1, second) =~= state.content.insert(slot.1, second));
}

/// After a write the index of the key holds the version under its block
/// number and the content store holds the payload under the version
/// identifier.
pub proof fn law_write_is_stored(
    state: StoreState,
    block_number: u64,
    key: Seq<u8>,
    value: Seq<u8>,
)
    ensures
        state.write(block_number, key, value).index.contains_key(
            (spec_memory_key(key), spec_hash_key(block_number, key)),
        ),
        state.write(block_number, key, value).index[(
            spec_memory_key(key),
            spec_hash_key(block_number, key),
        )] == block_number,
        state.write(block_number, key, value).payload(spec_hash_key(block_number, key)) == Ok::<
            Seq<u8>,
            StoreError,
        >(value),
{
    law_write_effect(state, block_number, key, value);
}

/// The empty store is one that only writes have filled, and each of
/// its index entries has a payload.
pub proof fn law_empty_is_sound()
    ensures
        StoreState::empty().versioned(),
        StoreState::empty().intact(),
{
}

/// A write keeps the store one that only writes have filled.
pub proof fn law_write_keeps_versioned(
    state: StoreState,
    block_number: u64,
    key: Seq<u8>,
    value: Seq<u8>,
)
    requires
        state.versioned(),
    ensures
        state.write(block_number, key, value).versioned(),
{
    law_write_effect(state, block_number, key, value);
    let after = state.write(block_number, key, value);
    assert forall|namespace: Seq<u8>, member: Seq<u8>| #[trigger]
        after.index.contains_key((namespace, member)) implies exists|k: Seq<u8>|
        namespace == spec_memory_key(k) && member == #[trigger] spec_hash_key(
            after.index[(namespace, member)],
            k,
        ) by {
        if (namespace, member) == (spec_memory_key(key), spec_hash_key(block_number, key)) {
            assert(member == spec_hash_key(after.index[(namespace, member)], key));
        } else {
            assert(state.index.contains_key((namespace, member)));
            let k = choose|k: Seq<u8>|
                namespace == spec_memory_key(k) && member == #[trigger] spec_hash_key(
                    state.index[(namespace, member)],
                    k,
                );
            assert(member == spec_hash_key(after.index[(namespace, member)], k));
        }
    }
}

/// Atomicity, the part that the steps of a write provide: a write as a
/// whole never leaves an index entry without its payload.
pub proof fn law_write_keeps_intact(
    state: StoreState,
    block_number: u64,
    key: Seq<u8>,
    value: Seq<u8>,
)
    requires
        state.intact(),
    ensures
        state.write(block_number, key, value).intact(),
{
    law_write_effect(state, block_number, key, value);
    let after = state.write(block_number, key, value);
    assert forall|namespace: Seq<u8>, member: Seq<u8>| #[trigger]
        after.index.contains_key((namespace, member)) implies after.content.contains_key(
        member,
    ) by {
        if (namespace, member) != (spec_memory_key(key), spec_hash_key(block_number, key)) {
            assert(state.index.contains_key((namespace, member)));
        }
    }
}

/// In a store that is intact a read never reports a violation.
pub proof fn law_intact_read_succeeds(state: StoreState, key: Seq<u8>)
    requires
        state.intact(),
    ensures
        state.read(key) is Ok,
{
    let namespace = spec_memory_key(key);
    if latest(state.index, namespace) is Some {
        let member = choose|member: Seq<u8>| is_latest(state.index, namespace, member);
        assert(state.index.contains_key((namespace, member)));
    }
}

/// In a store that only writes have filled, the index of a key holds at
/// most one member per block number: the version identifier of the key
/// at that block number.
pub proof fn law_one_version_per_block(
    state: StoreState,
    key: Seq<u8>,
    block_number: u64,
    member: Seq<u8>,
)
    requires
        state.versioned(),
        state.versions_at(key, block_number).contains(member),
    ensures
        member == spec_hash_key(block_number, key),
{
    let namespace = spec_memory_key(key);
    assert(state.index.contains_key((namespace, member)));
    let k = choose|k: Seq<u8>|
        namespace == spec_memory_key(k) && member == #[trigger] spec_hash_key(
            state.index[(namespace, member)],
            k,
        );
    law_memory_key_injective(key, k);
}

/// In a store that only writes have filled, a write leaves exactly one
/// index entry for its key and block number, however often that pair
/// was written before.
pub proof fn law_write_leaves_one_version(
    state: StoreState,
    block_number: u64,
    key: Seq<u8>,
    value: Seq<u8>,
)
    requires
        state.versioned(),
    ensures
        state.write(block_number, key, value).versions_at(key, block_number) == set![
            spec_hash_key(block_number, key),
        ],
{
    let after = state.write(block_number, key, value);
    law_write_keeps_versioned(state, block_number, key, value);
    law_write_is_stored(state, block_number, key, value);
    assert forall|member: Seq<u8>|
        after.versions_at(key, block_number).contains(member) implies member == spec_hash_key(
        block_number,
        key,
    ) by {
        law_one_version_per_block(after, key, block_number, member);
    }
    assert(after.versions_at(key, block_number) =~= set![spec_hash_key(block_number, key)]);
}

/// Empty on miss: the read of a key whose index has no member returns
/// no bytes, and no error.
pub proof fn law_read_unwritten_is_empty(state: StoreState, key: Seq<u8>)
    requires
        !state.has_versions(spec_memory_key(key)),
    ensures
        state.read(key) == Ok::<Seq<u8>, StoreError>(Seq::empty()),
{
}

/// A write for one key gives another key no version: what was never
/// written still reads as no bytes.
pub proof fn law_write_leaves_other_keys_unwritten(
    state: StoreState,
    block_number: u64,
    key: Seq<u8>,
    value: Seq<u8>,
    other: Seq<u8>,
)
    requires
        other != key,
        !state.has_versions(spec_memory_key(other)),
    ensures
        !state.write(block_number, key, value).has_versions(spec_memory_key(other)),
        state.write(block_number, key, value).read(other) == Ok::<Seq<u8>, StoreError>(
            Seq::empty(),
        ),
{
    law_write_effect(state, block_number, key, value);
    if spec_memory_key(other) == spec_memory_key(key) {
        law_memory_key_injective(other, key);
    }
    let after = state.write(block_number, key, value);
    assert forall|member: Seq<u8>| !after.index.contains_key((spec_memory_key(other), member)) by {
        assert(!state.index.contains_key((spec_memory_key(other), member)));
    }
}

/// Latest-wins read: after a write at a block number that no version of
/// the key exceeds, a read of the key returns the value just written.
pub proof fn law_read_after_latest_write(
    state: StoreState,
    block_number: u64,
    key: Seq<u8>,
    value: Seq<u8>,
)
    requires
        state.versioned(),
        state.no_version_above(key, block_number),
    ensures
        state.write(block_number, key, value).read(key) == Ok::<Seq<u8>, StoreError>(value),
{
    let namespace = spec_memory_key(key);
    let id = spec_hash_key(block_number, key);
    let after = state.write(block_number, key, value);
    law_write_effect(state, block_number, key, value);
    law_write_keeps_versioned(state, block_number, key, value);
    assert forall|other: Seq<u8>| #[trigger]
        after.index.contains_key((namespace, other)) implies rank_le(
        after.index[(namespace, other)],
        other,
        block_number,
        id,
    ) by {
        if after.index[(namespace, other)] == block_number {
            assert(after.versions_at(key, block_number).contains(other));
            law_one_version_per_block(after, key, block_number, other);
            lemma_bytes_le_total(id, id);
        } else {
            assert(state.index.contains_key((namespace, other)));
        }
    }
    lemma_latest_is(after.index, namespace, id);
}

/// Latest-wins read: a write at a block number below that of some
/// version of the key does not change what a read of the key returns.
pub proof fn law_read_after_older_write(
    state: StoreState,
    block_number: u64,
    key: Seq<u8>,
    value: Seq<u8>,
)
    requires
        state.versioned(),
        !state.no_version_above(key, block_number),
    ensures
        state.write(block_number, key, value).read(key) == state.read(key),
{
    let namespace = spec_memory_key(key);
    let id = spec_hash_key(block_number, key);
    let after = state.write(block_number, key, value);
    law_write_effect(state, block_number, key, value);
    law_write_keeps_versioned(state, block_number, key, value);
    let above = choose|member: Seq<u8>|
        state.index.contains_key((namespace, member)) && state.index[(namespace, member)]
            > block_number;
    if state.index.contains_key((namespace, id)) {
        let k = choose|k: Seq<u8>|
            namespace == spec_memory_key(k) && id == #[trigger] spec_hash_key(
                state.index[(namespace, id)],
                k,
            );
        law_full_key_injective(block_number, key, state.index[(namespace, id)], k);
    }
    assert(after.index.contains_key((namespace, above)));
    assert(after.index[(namespace, above)] == state.index[(namespace, above)]);
    assert forall|member: Seq<u8>|
        is_latest(after.index, namespace, member) <==> is_latest(
            state.index,
            namespace,
            member,
        ) by {
        if is_latest(after.index, namespace, member) {
            assert(rank_le(
                after.index[(namespace, above)],
                above,
                after.index[(namespace, member)],
                member,
            ));
            assert(member != id);
            assert forall|other: Seq<u8>| #[trigger]
                state.index.contains_key((namespace, other)) implies rank_le(
                state.index[(namespace, other)],
                other,
                state.index[(namespace, member)],
                member,
            ) by {
                assert(after.index.contains_key((namespace, other)));
            }
        }
        if is_latest(state.index, namespace, member) {
            assert(rank_le(
                state.index[(namespace, above)],
                above,
                state.index[(namespace, member)],
                member,
            ));
            assert(member != id || state.index[(namespace, id)] == block_number);
            assert(member != id);
            assert forall|other: Seq<u8>| #[trigger]
                after.index.contains_key((namespace, other)) implies rank_le(
                after.index[(namespace, other)],
                other,
                after.index[(namespace, member)],
                member,
            ) by {
                if other != id {
                    assert(state.index.contains_key((namespace, other)));
                }
            }
        }
    }
    if exists|member: Seq<u8>| is_latest(state.index, namespace, member) {
        let member = choose|member: Seq<u8>| is_latest(state.index, namespace, member);
        assert(is_latest(after.index, namespace, member));
        lemma_latest_is(after.index, namespace, member);
        assert(member != id);
    } else {
        assert(latest(after.index, namespace) is None);
    }
}

/// Latest-wins read: of two writes for one key, the one at the higher
/// block number decides what a read returns, where no version of the
/// key lies above it.
pub proof fn law_later_block_wins(
    state: StoreState,
    earlier: u64,
    later: u64,
    key: Seq<u8>,
    first: Seq<u8>,
    second: Seq<u8>,
)
    requires
        state.versioned(),
        state.no_version_above(key, later),
        earlier <= later,
    ensures
        state.write(earlier, key, first).write(later, key, second).read(key) == Ok::<
            Seq<u8>,
            StoreError,
        >(second),
{
    let between = state.write(earlier, key, first);
    law_write_effect(state, earlier, key, first);
    law_write_keeps_versioned(state, earlier, key, first);
    assert forall|member: Seq<u8>| #[trigger]
        between.index.contains_key((spec_memory_key(key), member)) implies between.index[(
        spec_memory_key(key),
        member,
    )] <= later by {
        if member != spec_hash_key(earlier, key) {
            assert(state.index.contains_key((spec_memory_key(key), member)));
        }
    }
    law_read_after_latest_write(between, later, key, second);
}

/// Block-data flattening: a chunk appended to the current block shows
/// at the end of the block's data, and an empty block has no data.
pub proof fn law_block_data_appends(state: StoreState, chunk: Seq<u8>)
    ensures
        state.append_chunk(chunk).block_data() == state.block_data() + chunk,
        StoreState::empty().block_data() == Seq::<u8>::empty(),
{
    state.current_block.lemma_flatten_push(chunk);
}

/// The scan of an index is determined: two lists that both rank the
/// members of a namespace are the same list.
pub proof fn law_ranking_is_unique(
    index: IndexMap,
    namespace: Seq<u8>,
    a: Seq<(u64, Seq<u8>)>,
    b: Seq<(u64, Seq<u8>)>,
)
    requires
        is_ranking(index, namespace, a),
        is_ranking(index, namespace, b),
    ensures
        a == b,
    decreases a.len(),
{
    if a.len() == 0 {
        if b.len() > 0 {
            assert(index.contains_key((namespace, b[0].1)));
        }
        assert(a =~= b);
    } else {
        assert(index.contains_key((namespace, a[0].1)));
        let at_b = choose|i: int| 0 <= i < b.len() && (#[trigger] b[i]).1 == a[0].1;
        assert(index.contains_key((namespace, b[0].1)));
        let at_a = choose|i: int| 0 <= i < a.len() && (#[trigger] a[i]).1 == b[0].1;
        lemma_bytes_le_total(a[0].1, a[0].1);
        lemma_bytes_le_total(b[0].1, b[0].1);
        assert(rank_le(b[0].0, b[0].1, b[at_b].0, b[at_b].1));
        assert(rank_le(a[0].0, a[0].1, a[at_a].0, a[at_a].1));
        assert(b[at_b].0 == a[0].0);
        assert(a[at_a].0 == b[0].0);
        if a[0].0 == b[0].0 {
            lemma_bytes_le_antisymmetric(a[0].1, b[0].1);
        }
        assert(a[0] == b[0]);
        let rest = index.remove((namespace, a[0].1));
        lemma_ranking_without_first(index, namespace, a);
        lemma_ranking_without_first(index, namespace, b);
        law_ranking_is_unique(rest, namespace, a.drop_first(), b.drop_first());
        assert(a =~= seq![a[0]] + a.drop_first());
        assert(b =~= seq![b[0]] + b.drop_first());
    }
}

/// A ranking without its first pair ranks the index without that member.
proof fn lemma_ranking_without_first(
    index: IndexMap,
    namespace: Seq<u8>,
    ranked: Seq<(u64, Seq<u8>)>,
)
    requires
        is_ranking(index, namespace, ranked),
        ranked.len() > 0,
    ensures
        is_ranking(index.remove((namespace, ranked[0].1)), namespace, ranked.drop_first()),
{
    let rest = index.remove((namespace, ranked[0].1));
    let tail = ranked.drop_first();
    assert forall|i: int| 0 <= i < tail.len() implies rest.contains_key(
        (namespace, (#[trigger] tail[i]).1),
    ) && rest[(namespace, tail[i].1)] == tail[i].0 by {
        assert(tail[i] == ranked[i + 1]);
        assert(ranked[0].1 != ranked[i + 1].1);
    }
    assert forall|i: int, j: int| 0 <= i < j < tail.len() implies rank_le(
        (#[trigger] tail[i]).0,
        tail[i].1,
        (#[trigger] tail[j]).0,
        tail[j].1,
    ) && tail[i].1 != tail[j].1 by {
        assert(tail[i] == ranked[i + 1] && tail[j] == ranked[j + 1]);
    }
    assert forall|member: Seq<u8>| #[trigger]
        rest.contains_key((namespace, member)) implies exists|i: int|
        0 <= i < tail.len() && (#[trigger] tail[i]).1 == member by {
        assert(index.contains_key((namespace, member)));
        let i = choose|i: int| 0 <= i < ranked.len() && (#[trigger] ranked[i]).1 == member;
        assert(tail[i - 1] == ranked[i]);
    }
}

/// The names under which the remote store keeps its three structures
/// never coincide: the index of a key is named neither like the hash
/// of payloads nor like the list of the current block.
pub proof fn law_store_names_are_apart(key: Seq<u8>)
    ensures
        spec_memory_key(key) != content_name(),
        spec_memory_key(key) != block_name(),
{
    reveal_strlit("memory:");
    reveal_strlit("memory_hash");
    reveal_strlit("current_block");
    is_ascii_spec_bytes("memory:");
    is_ascii_spec_bytes("memory_hash");
    is_ascii_spec_bytes("current_block");
    assert(spec_memory_key(key)[0] == 109u8);
    assert(spec_memory_key(key)[6] == 58u8);
    assert(content_name()[6] == 95u8);
    assert(block_name()[0] == 99u8);
}

} // verus!
