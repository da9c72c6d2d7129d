//! The order in which a version index ranks its members.

use vstd::prelude::*;

verus! {

/// Byte strings in dictionary order: a proper prefix comes first, and
/// otherwise the first differing byte decides.
pub open spec fn bytes_le(a: Seq<u8>, b: Seq<u8>) -> bool
    decreases a.len(),
{
    if a.len() == 0 {
        true
    } else if b.len() == 0 {
        false
    } else if a[0] != b[0] {
        a[0] < b[0]
    } else {
        bytes_le(a.drop_first(), b.drop_first())
    }
}

/// The order of a version index: by score, and among equal scores by
/// member in dictionary order.
pub open spec fn rank_le(score_a: u64, member_a: Seq<u8>, score_b: u64, member_b: Seq<u8>) -> bool {
    score_a < score_b || (score_a == score_b && bytes_le(member_a, member_b))
}

/// Dictionary order compares any two byte strings.
pub proof fn lemma_bytes_le_total(a: Seq<u8>, b: Seq<u8>)
    ensures
        bytes_le(a, b) || bytes_le(b, a),
    decreases a.len(),
{
    if a.len() > 0 && b.len() > 0 && a[0] == b[0] {
        lemma_bytes_le_total(a.drop_first(), b.drop_first());
    }
}

/// Two byte strings that each come no later than the other are equal.
pub proof fn lemma_bytes_le_antisymmetric(a: Seq<u8>, b: Seq<u8>)
    requires
        bytes_le(a, b),
        bytes_le(b, a),
    ensures
        a == b,
    decreases a.len(),
{
    if a.len() > 0 && b.len() > 0 {
        lemma_bytes_le_antisymmetric(a.drop_first(), b.drop_first());
        assert(a =~= seq![a[0]] + a.drop_first());
        assert(b =~= seq![b[0]] + b.drop_first());
    } else {
        assert(a =~= b);
    }
}

/// Dictionary order is transitive.
pub proof fn lemma_bytes_le_transitive(a: Seq<u8>, b: Seq<u8>, c: Seq<u8>)
    requires
        bytes_le(a, b),
        bytes_le(b, c),
    ensures
        bytes_le(a, c),
    decreases a.len(),
{
    if a.len() > 0 && b.len() > 0 && c.len() > 0 && a[0] == b[0] && b[0] == c[0] {
        lemma_bytes_le_transitive(a.drop_first(), b.drop_first(), c.drop_first());
    }
}

/// The order of a version index compares any two entries.
pub proof fn lemma_rank_le_total(score_a: u64, member_a: Seq<u8>, score_b: u64, member_b: Seq<u8>)
    ensures
        rank_le(score_a, member_a, score_b, member_b) || rank_le(
            score_b,
            member_b,
            score_a,
            member_a,
        ),
{
    lemma_bytes_le_total(member_a, member_b);
}

/// The order of a version index is transitive.
pub proof fn lemma_rank_le_transitive(
    score_a: u64,
    member_a: Seq<u8>,
    score_b: u64,
    member_b: Seq<u8>,
    score_c: u64,
    member_c: Seq<u8>,
)
    requires
        rank_le(score_a, member_a, score_b, member_b),
        rank_le(score_b, member_b, score_c, member_c),
    ensures
        rank_le(score_a, member_a, score_c, member_c),
{
    if score_a == score_b && score_b == score_c {
        lemma_bytes_le_transitive(member_a, member_b, member_c);
    }
}

/// Whether two byte strings are equal.
pub fn bytes_eq(a: &[u8], b: &[u8]) -> (equal: bool)
    ensures
        equal == (a@ == b@),
{
    if a.len() != b.len() {
        return false;
    }
    let mut i: usize = 0;
    while i < a.len()
        invariant
            a.len() == b.len(),
            i <= a.len(),
            a@.subrange(0, i as int) == b@.subrange(0, i as int),
        decreases a.len() - i,
    {
        if a[i] != b[i] {
            return false;
        }
        assert(a@.subrange(0, i + 1) =~= a@.subrange(0, i as int).push(a@[i as int]));
        assert(b@.subrange(0, i + 1) =~= b@.subrange(0, i as int).push(b@[i as int]));
        i += 1;
    }
    assert(a@ =~= a@.subrange(0, i as int));
    assert(b@ =~= b@.subrange(0, i as int));
    true
}

/// Whether `a` comes no later than `b` in dictionary order.
pub fn bytes_no_later(a: &[u8], b: &[u8]) -> (no_later: bool)
    ensures
        no_later == bytes_le(a@, b@),
{
    let mut i: usize = 0;
    assert(a@.skip(0) =~= a@ && b@.skip(0) =~= b@);
    while i < a.len() && i < b.len()
        invariant
            i <= a.len(),
            i <= b.len(),
            bytes_le(a@, b@) == bytes_le(a@.skip(i as int), b@.skip(i as int)),
        decreases a.len() - i,
    {
        if a[i] != b[i] {
            return a[i] < b[i];
        }
        assert(a@.skip(i as int).drop_first() =~= a@.skip(i + 1));
        assert(b@.skip(i as int).drop_first() =~= b@.skip(i + 1));
        i += 1;
    }
    i == a.len()
}

/// Whether the entry `(score_a, member_a)` ranks no higher than
/// `(score_b, member_b)`.
pub fn rank_no_higher(score_a: u64, member_a: &[u8], score_b: u64, member_b: &[u8]) -> (no_higher:
    bool)
    ensures
        no_higher == rank_le(score_a, member_a@, score_b, member_b@),
{
    score_a < score_b || (score_a == score_b && bytes_no_later(member_a, member_b))
}

} // verus!
