//! The version indexes of a store held in memory.

use crate::assoc::{as_map, distinct_keys, holds_at, lemma_lookup, lemma_push, lemma_remove};
use crate::engine::{scored_views_of, views_of};
use crate::model::{is_ranking, lemma_latest_is, top, IndexMap};
use crate::order::{
    bytes_eq, lemma_rank_le_total, lemma_rank_le_transitive, rank_le, rank_no_higher,
};
use vstd::prelude::*;
use vstd::slice::slice_to_vec;

verus! {

/// One member of one index.
struct IndexEntry {
    namespace: Vec<u8>,
    member: Vec<u8>,
    score: u64,
}

/// The entries as pairs of a slot, which is a namespace with a member,
/// and the score in that slot.
spec fn index_pairs(entries: Seq<IndexEntry>) -> Seq<((Seq<u8>, Seq<u8>), u64)> {
    entries.map_values(|entry: IndexEntry| ((entry.namespace@, entry.member@), entry.score))
}

/// Whether `first` ranks no higher than `second`.
spec fn pair_le(first: ((Seq<u8>, Seq<u8>), u64), second: ((Seq<u8>, Seq<u8>), u64)) -> bool {
    rank_le(first.1, first.0.1, second.1, second.0.1)
}

/// Whether `best` is the position of the highest-ranking pair of
/// `namespace` among the first `upto` pairs, or none where there is no
/// such pair.
spec fn leads_prefix(
    pairs: Seq<((Seq<u8>, Seq<u8>), u64)>,
    upto: int,
    namespace: Seq<u8>,
    best: Option<usize>,
) -> bool {
    match best {
        None => forall|j: int| 0 <= j < upto ==> (#[trigger] pairs[j]).0.0 != namespace,
        Some(b) => {
            &&& b < upto
            &&& pairs[b as int].0.0 == namespace
            &&& forall|j: int|
                0 <= j < upto && (#[trigger] pairs[j]).0.0 == namespace ==> pair_le(
                    pairs[j],
                    pairs[b as int],
                )
        },
    }
}

/// The leader among one pair more: the new pair where it belongs to
/// the namespace and outranks the leader so far.
proof fn lemma_leader_after(
    pairs: Seq<((Seq<u8>, Seq<u8>), u64)>,
    i: usize,
    namespace: Seq<u8>,
    best: Option<usize>,
)
    requires
        i < pairs.len(),
        pairs[i as int].0.0 == namespace,
        leads_prefix(pairs, i as int, namespace, best),
    ensures
        leads_prefix(
            pairs,
            i + 1,
            namespace,
            if best matches Some(b) && pair_le(pairs[i as int], pairs[b as int]) {
                best
            } else {
                Some(i)
            },
        ),
{
    let new = pairs[i as int];
    lemma_rank_le_total(new.1, new.0.1, new.1, new.0.1);
    if let Some(b) = best {
        let leader = pairs[b as int];
        lemma_rank_le_total(new.1, new.0.1, leader.1, leader.0.1);
        if !pair_le(new, leader) {
            assert forall|j: int|
                0 <= j < i + 1 && (#[trigger] pairs[j]).0.0 == namespace implies pair_le(
                pairs[j],
                new,
            ) by {
                if j < i {
                    lemma_rank_le_transitive(
                        pairs[j].1,
                        pairs[j].0.1,
                        leader.1,
                        leader.0.1,
                        new.1,
                        new.0.1,
                    );
                }
            }
        }
    }
}

/// The leader among all pairs is what the index answers as its top.
proof fn lemma_leader_is_top(
    pairs: Seq<((Seq<u8>, Seq<u8>), u64)>,
    namespace: Seq<u8>,
    best: Option<usize>,
)
    requires
        distinct_keys(pairs),
        leads_prefix(pairs, pairs.len() as int, namespace, best),
    ensures
        top(as_map(pairs), namespace) == match best {
            Some(b) => seq![pairs[b as int].0.1],
            None => Seq::<Seq<u8>>::empty(),
        },
{
    let index = as_map(pairs);
    match best {
        None => {
            assert forall|member: Seq<u8>| !index.contains_key((namespace, member)) by {
                if index.contains_key((namespace, member)) {
                    let j = choose|j: int| holds_at(pairs, j, (namespace, member));
                    assert(pairs[j].0.0 == namespace);
                }
            }
        },
        Some(b) => {
            let winner = pairs[b as int].0.1;
            lemma_lookup(pairs, b as int);
            assert forall|other: Seq<u8>| #[trigger]
                index.contains_key((namespace, other)) implies rank_le(
                index[(namespace, other)],
                other,
                index[(namespace, winner)],
                winner,
            ) by {
                let j = choose|j: int| holds_at(pairs, j, (namespace, other));
                lemma_lookup(pairs, j);
                assert(pair_le(pairs[j], pairs[b as int]));
            }
            lemma_latest_is(index, namespace, winner);
        },
    }
}

/// Whether every pair of `ranked` is one of the first `upto` pairs and
/// belongs to `namespace`.
spec fn drawn_from(
    pairs: Seq<((Seq<u8>, Seq<u8>), u64)>,
    upto: int,
    namespace: Seq<u8>,
    ranked: Seq<(u64, Seq<u8>)>,
) -> bool {
    forall|t: int|
        0 <= t < ranked.len() ==> exists|j: int|
            0 <= j < upto && #[trigger] pairs[j] == ((namespace, (#[trigger] ranked[t]).1), ranked[t].0)
}

/// Whether `ranked` ascends strictly.
spec fn ascends(ranked: Seq<(u64, Seq<u8>)>) -> bool {
    forall|a: int, b: int|
        0 <= a < b < ranked.len() ==> rank_le(
            (#[trigger] ranked[a]).0,
            ranked[a].1,
            (#[trigger] ranked[b]).0,
            ranked[b].1,
        ) && ranked[a].1 != ranked[b].1
}

/// Whether each of the first `upto` pairs that belongs to `namespace`
/// is in `ranked`.
spec fn covers(
    pairs: Seq<((Seq<u8>, Seq<u8>), u64)>,
    upto: int,
    namespace: Seq<u8>,
    ranked: Seq<(u64, Seq<u8>)>,
) -> bool {
    forall|j: int|
        0 <= j < upto && (#[trigger] pairs[j]).0.0 == namespace ==> exists|t: int|
            0 <= t < ranked.len() && #[trigger] ranked[t] == (pairs[j].1, pairs[j].0.1)
}

/// Whether `ranked` lists, in strictly ascending rank, exactly those of
/// the first `upto` pairs that belong to `namespace`.
spec fn lists_prefix(
    pairs: Seq<((Seq<u8>, Seq<u8>), u64)>,
    upto: int,
    namespace: Seq<u8>,
    ranked: Seq<(u64, Seq<u8>)>,
) -> bool {
    &&& drawn_from(pairs, upto, namespace, ranked)
    &&& ascends(ranked)
    &&& covers(pairs, upto, namespace, ranked)
}

/// A pair of another namespace leaves the listing as it is.
proof fn lemma_skip_keeps_listing(
    pairs: Seq<((Seq<u8>, Seq<u8>), u64)>,
    i: int,
    namespace: Seq<u8>,
    ranked: Seq<(u64, Seq<u8>)>,
)
    requires
        0 <= i < pairs.len(),
        pairs[i].0.0 != namespace,
        lists_prefix(pairs, i, namespace, ranked),
    ensures
        lists_prefix(pairs, i + 1, namespace, ranked),
{
    assert forall|t: int| 0 <= t < ranked.len() implies exists|j: int|
        0 <= j < i + 1 && #[trigger] pairs[j] == ((namespace, (#[trigger] ranked[t]).1), ranked[t].0) by {
        let j = choose|j: int|
            0 <= j < i && #[trigger] pairs[j] == ((namespace, ranked[t].1), ranked[t].0);
        assert(0 <= j < i + 1 && pairs[j] == ((namespace, ranked[t].1), ranked[t].0));
    }
}

/// Inserting the next pair keeps every listed pair one of the pairs.
proof fn lemma_insert_keeps_drawn(
    pairs: Seq<((Seq<u8>, Seq<u8>), u64)>,
    i: int,
    namespace: Seq<u8>,
    ranked: Seq<(u64, Seq<u8>)>,
    at: int,
)
    requires
        0 <= i < pairs.len(),
        pairs[i].0.0 == namespace,
        drawn_from(pairs, i, namespace, ranked),
        0 <= at <= ranked.len(),
    ensures
        drawn_from(pairs, i + 1, namespace, ranked.insert(at, (pairs[i].1, pairs[i].0.1))),
{
    let more = ranked.insert(at, (pairs[i].1, pairs[i].0.1));
    assert forall|t: int| 0 <= t < more.len() implies exists|j: int|
        0 <= j < i + 1 && #[trigger] pairs[j] == ((namespace, (#[trigger] more[t]).1), more[t].0) by {
        if t == at {
            assert(pairs[i] == ((namespace, more[t].1), more[t].0));
        } else {
            let t0 = if t < at { t } else { t - 1 };
            assert(more[t] == ranked[t0]);
            let j = choose|j: int|
                0 <= j < i && #[trigger] pairs[j] == ((namespace, ranked[t0].1), ranked[t0].0);
            assert(0 <= j < i + 1 && pairs[j] == ((namespace, more[t].1), more[t].0));
        }
    }
}

/// Inserting the next pair behind all that rank no higher, and before
/// one that ranks higher, keeps the listing in strictly ascending order.
proof fn lemma_insert_keeps_order(
    pairs: Seq<((Seq<u8>, Seq<u8>), u64)>,
    i: int,
    namespace: Seq<u8>,
    ranked: Seq<(u64, Seq<u8>)>,
    at: int,
)
    requires
        distinct_keys(pairs),
        0 <= i < pairs.len(),
        pairs[i].0.0 == namespace,
        drawn_from(pairs, i, namespace, ranked),
        ascends(ranked),
        0 <= at <= ranked.len(),
        forall|t: int|
            0 <= t < at ==> rank_le(
                (#[trigger] ranked[t]).0,
                ranked[t].1,
                pairs[i].1,
                pairs[i].0.1,
            ),
        at < ranked.len() ==> !rank_le(ranked[at].0, ranked[at].1, pairs[i].1, pairs[i].0.1),
    ensures
        ascends(ranked.insert(at, (pairs[i].1, pairs[i].0.1))),
{
    let new = (pairs[i].1, pairs[i].0.1);
    let more = ranked.insert(at, new);
    assert forall|t: int| 0 <= t < ranked.len() implies (#[trigger] ranked[t]).1 != new.1 by {
        let j = choose|j: int|
            0 <= j < i && #[trigger] pairs[j] == ((namespace, ranked[t].1), ranked[t].0);
        assert(pairs[j].0 != pairs[i].0);
    }
    assert forall|t: int| at <= t < ranked.len() implies rank_le(
        new.0,
        new.1,
        (#[trigger] ranked[t]).0,
        ranked[t].1,
    ) by {
        lemma_rank_le_total(new.0, new.1, ranked[at].0, ranked[at].1);
        if at < t {
            assert(rank_le(ranked[at].0, ranked[at].1, ranked[t].0, ranked[t].1));
            lemma_rank_le_transitive(
                new.0,
                new.1,
                ranked[at].0,
                ranked[at].1,
                ranked[t].0,
                ranked[t].1,
            );
        }
    }
    assert forall|a: int, b: int| 0 <= a < b < more.len() implies rank_le(
        (#[trigger] more[a]).0,
        more[a].1,
        (#[trigger] more[b]).0,
        more[b].1,
    ) && more[a].1 != more[b].1 by {
        let a0 = if a < at { a } else { a - 1 };
        let b0 = if b < at { b } else { b - 1 };
        if a == at {
            assert(more[a] == new && more[b] == ranked[b0]);
        } else if b == at {
            assert(more[b] == new && more[a] == ranked[a0]);
        } else {
            assert(more[a] == ranked[a0] && more[b] == ranked[b0]);
        }
    }
}

/// Inserting the next pair keeps every pair of the namespace listed.
proof fn lemma_insert_keeps_cover(
    pairs: Seq<((Seq<u8>, Seq<u8>), u64)>,
    i: int,
    namespace: Seq<u8>,
    ranked: Seq<(u64, Seq<u8>)>,
    at: int,
)
    requires
        0 <= i < pairs.len(),
        covers(pairs, i, namespace, ranked),
        0 <= at <= ranked.len(),
    ensures
        covers(pairs, i + 1, namespace, ranked.insert(at, (pairs[i].1, pairs[i].0.1))),
{
    let more = ranked.insert(at, (pairs[i].1, pairs[i].0.1));
    assert forall|j: int| 0 <= j < i + 1 && (#[trigger] pairs[j]).0.0 == namespace implies exists|
        t: int,
    | 0 <= t < more.len() && #[trigger] more[t] == (pairs[j].1, pairs[j].0.1) by {
        if j == i {
            assert(more[at] == (pairs[j].1, pairs[j].0.1));
        } else {
            let t0 = choose|t: int|
                0 <= t < ranked.len() && #[trigger] ranked[t] == (pairs[j].1, pairs[j].0.1);
            let t = if t0 < at { t0 } else { t0 + 1 };
            assert(more[t] == ranked[t0]);
        }
    }
}

/// A listing of all pairs is a ranking of the map that they stand for.
proof fn lemma_listing_is_ranking(
    pairs: Seq<((Seq<u8>, Seq<u8>), u64)>,
    namespace: Seq<u8>,
    ranked: Seq<(u64, Seq<u8>)>,
)
    requires
        distinct_keys(pairs),
        lists_prefix(pairs, pairs.len() as int, namespace, ranked),
    ensures
        is_ranking(as_map(pairs), namespace, ranked),
{
    let index = as_map(pairs);
    assert forall|t: int| 0 <= t < ranked.len() implies index.contains_key(
        (namespace, (#[trigger] ranked[t]).1),
    ) && index[(namespace, ranked[t].1)] == ranked[t].0 by {
        let j = choose|j: int|
            0 <= j < pairs.len() && #[trigger] pairs[j] == ((namespace, ranked[t].1), ranked[t].0);
        lemma_lookup(pairs, j);
    }
    assert forall|member: Seq<u8>| #[trigger]
        index.contains_key((namespace, member)) implies exists|t: int|
        0 <= t < ranked.len() && (#[trigger] ranked[t]).1 == member by {
        let j = choose|j: int| holds_at(pairs, j, (namespace, member));
        assert(pairs[j].0.0 == namespace);
        let t = choose|t: int|
            0 <= t < ranked.len() && #[trigger] ranked[t] == (pairs[j].1, pairs[j].0.1);
        assert(ranked[t].1 == member);
    }
}

/// Sorted sets of byte strings, one per namespace, each member with a
/// score. No member occurs twice in a namespace.
pub struct VersionIndex {
    entries: Vec<IndexEntry>,
}

impl View for VersionIndex {
    type V = IndexMap;

    closed spec fn view(&self) -> IndexMap {
        as_map(index_pairs(self.entries@))
    }
}

impl VersionIndex {
    #[verifier::type_invariant]
    spec fn well_formed(&self) -> bool {
        distinct_keys(index_pairs(self.entries@))
    }

    /// An index without members.
    pub fn new() -> (index: VersionIndex)
        ensures
            index@ == IndexMap::empty(),
    {
        let index = VersionIndex { entries: Vec::new() };
        assert(index@ =~= IndexMap::empty());
        index
    }

    /// Moves the entries out and leaves the index empty.
    fn take_entries(&mut self) -> (entries: Vec<IndexEntry>)
        ensures
            entries@ == old(self).entries@,
    {
        let mut entries: Vec<IndexEntry> = Vec::new();
        core::mem::swap(&mut self.entries, &mut entries);
        entries
    }

    /// Makes `entries` the entries of the index.
    fn put_entries(&mut self, entries: Vec<IndexEntry>)
        requires
            distinct_keys(index_pairs(entries@)),
        ensures
            final(self).entries@ == entries@,
    {
        let mut entries = entries;
        core::mem::swap(&mut self.entries, &mut entries);
    }

    /// The position of the entry of `member` in `namespace`, if any.
    fn find(&self, namespace: &[u8], member: &[u8]) -> (found: Option<usize>)
        ensures
            match found {
                Some(i) => holds_at(index_pairs(self.entries@), i as int, (namespace@, member@)),
                None => !self@.contains_key((namespace@, member@)),
            },
    {
        let mut i: usize = 0;
        while i < self.entries.len()
            invariant
                i <= self.entries.len(),
                forall|j: int|
                    0 <= j < i ==> !holds_at(index_pairs(self.entries@), j, (namespace@, member@)),
            decreases self.entries.len() - i,
        {
            if bytes_eq(self.entries[i].namespace.as_slice(), namespace) && bytes_eq(
                self.entries[i].member.as_slice(),
                member,
            ) {
                return Some(i);
            }
            i += 1;
        }
        None
    }

    /// The score of `member` in `namespace`, if it is a member.
    pub fn score(&self, namespace: &[u8], member: &[u8]) -> (score: Option<u64>)
        ensures
            score == if self@.contains_key((namespace@, member@)) {
                Some(self@[(namespace@, member@)])
            } else {
                None
            },
    {
        proof {
            use_type_invariant(self);
        }
        match self.find(namespace, member) {
            Some(i) => {
                proof {
                    lemma_lookup(index_pairs(self.entries@), i as int);
                }
                Some(self.entries[i].score)
            },
            None => None,
        }
    }

    /// Takes `member` out of `namespace`. Nothing changes where it is
    /// no member.
    pub fn remove(&mut self, namespace: &[u8], member: &[u8])
        ensures
            final(self)@ == old(self)@.remove((namespace@, member@)),
    {
        proof {
            use_type_invariant(&*self);
        }
        match self.find(namespace, member) {
            Some(i) => {
                let mut entries = self.take_entries();
                proof {
                    lemma_remove(index_pairs(entries@), i as int);
                    assert(index_pairs(entries@.remove(i as int)) =~= index_pairs(
                        entries@,
                    ).remove(i as int));
                }
                entries.remove(i);
                self.put_entries(entries);
            },
            None => {
                assert(self@.remove((namespace@, member@)) =~= self@);
            },
        }
    }

    /// Puts `member` into `namespace` with `score`. A member that is
    /// there already gets the new score.
    pub fn insert(&mut self, namespace: &[u8], score: u64, member: &[u8])
        ensures
            final(self)@ == old(self)@.insert((namespace@, member@), score),
    {
        self.remove(namespace, member);
        proof {
            use_type_invariant(&*self);
        }
        let entry = IndexEntry {
            namespace: slice_to_vec(namespace),
            member: slice_to_vec(member),
            score,
        };
        let mut entries = self.take_entries();
        proof {
            lemma_push(index_pairs(entries@), (namespace@, member@), score);
            assert(index_pairs(entries@.push(entry)) =~= index_pairs(entries@).push(
                ((namespace@, member@), score),
            ));
            assert(old(self)@.remove((namespace@, member@)).insert((namespace@, member@), score)
                =~= old(self)@.insert((namespace@, member@), score));
        }
        entries.push(entry);
        self.put_entries(entries);
    }

    /// Answers the request for the single highest-ranking member of
    /// `namespace`: a list of that member, or an empty list.
    pub fn top(&self, namespace: &[u8]) -> (members: Vec<Vec<u8>>)
        ensures
            views_of(members@) == top(self@, namespace@),
    {
        proof {
            use_type_invariant(self);
        }
        let ghost pairs = index_pairs(self.entries@);
        let mut best: Option<usize> = None;
        let mut i: usize = 0;
        while i < self.entries.len()
            invariant
                i <= self.entries.len(),
                pairs == index_pairs(self.entries@),
                leads_prefix(pairs, i as int, namespace@, best),
            decreases self.entries.len() - i,
        {
            if bytes_eq(self.entries[i].namespace.as_slice(), namespace) {
                let leads = match best {
                    None => true,
                    Some(b) => !rank_no_higher(
                        self.entries[i].score,
                        self.entries[i].member.as_slice(),
                        self.entries[b].score,
                        self.entries[b].member.as_slice(),
                    ),
                };
                proof {
                    lemma_leader_after(pairs, i, namespace@, best);
                }
                if leads {
                    best = Some(i);
                }
            }
            i += 1;
        }
        let mut members: Vec<Vec<u8>> = Vec::new();
        if let Some(b) = best {
            members.push(slice_to_vec(self.entries[b].member.as_slice()));
        }
        proof {
            lemma_leader_is_top(pairs, namespace@, best);
            assert(views_of(members@) =~= top(self@, namespace@));
        }
        members
    }

    /// Lists the members of `namespace` with their scores, from the
    /// lowest-ranking to the highest.
    pub fn ranking(&self, namespace: &[u8]) -> (ranked: Vec<(u64, Vec<u8>)>)
        ensures
            is_ranking(self@, namespace@, scored_views_of(ranked@)),
    {
        proof {
            use_type_invariant(self);
        }
        let ghost pairs = index_pairs(self.entries@);
        let mut ranked: Vec<(u64, Vec<u8>)> = Vec::new();
        let mut i: usize = 0;
        while i < self.entries.len()
            invariant
                i <= self.entries.len(),
                pairs == index_pairs(self.entries@),
                distinct_keys(pairs),
                lists_prefix(pairs, i as int, namespace@, scored_views_of(ranked@)),
            decreases self.entries.len() - i,
        {
            let ghost before = scored_views_of(ranked@);
            if bytes_eq(self.entries[i].namespace.as_slice(), namespace) {
                let score = self.entries[i].score;
                let mut at: usize = 0;
                while at < ranked.len() && rank_no_higher(
                    ranked[at].0,
                    ranked[at].1.as_slice(),
                    score,
                    self.entries[i].member.as_slice(),
                )
                    invariant
                        at <= ranked.len(),
                        i < self.entries.len(),
                        pairs == index_pairs(self.entries@),
                        before == scored_views_of(ranked@),
                        score == pairs[i as int].1,
                        forall|t: int|
                            0 <= t < at ==> rank_le(
                                (#[trigger] before[t]).0,
                                before[t].1,
                                score,
                                pairs[i as int].0.1,
                            ),
                    decreases ranked.len() - at,
                {
                    at += 1;
                }
                let member = slice_to_vec(self.entries[i].member.as_slice());
                proof {
                    lemma_insert_keeps_drawn(pairs, i as int, namespace@, before, at as int);
                    lemma_insert_keeps_order(pairs, i as int, namespace@, before, at as int);
                    lemma_insert_keeps_cover(pairs, i as int, namespace@, before, at as int);
                    assert(scored_views_of(ranked@.insert(at as int, (score, member)))
                        =~= before.insert(at as int, (score, member@)));
                }
                ranked.insert(at, (score, member));
            } else {
                proof {
                    lemma_skip_keeps_listing(pairs, i as int, namespace@, before);
                }
            }
            i += 1;
        }
        proof {
            lemma_listing_is_ranking(pairs, namespace@, scored_views_of(ranked@));
        }
        ranked
    }
}

} // verus!
