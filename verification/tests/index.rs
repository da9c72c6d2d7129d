use versioned_store::content::ContentStore;
use versioned_store::index::VersionIndex;
use versioned_store::keys::{hash_key, memory_key};
use versioned_store::plan::{write_plan, Mutation};

#[test]
fn write_plan_removes_inserts_and_stores() {
    let plan = write_plan(7, b"K", b"payload");
    assert_eq!(
        plan,
        vec![
            Mutation::IndexRemove { namespace: memory_key(b"K"), member: hash_key(7, b"K") },
            Mutation::IndexInsert {
                namespace: memory_key(b"K"),
                score: 7,
                member: hash_key(7, b"K"),
            },
            Mutation::ContentSet { field: hash_key(7, b"K"), value: b"payload".to_vec() },
        ]
    );
}

#[test]
fn write_plan_spells_out_the_bytes() {
    let plan = write_plan(1, b"a", b"");
    assert_eq!(
        plan[1],
        Mutation::IndexInsert {
            namespace: b"memory:a".to_vec(),
            score: 1,
            member: vec![1, 0, 0, 0, 0, 0, 0, 0, b'a'],
        }
    );
    assert_eq!(
        plan[2],
        Mutation::ContentSet { field: vec![1, 0, 0, 0, 0, 0, 0, 0, b'a'], value: vec![] }
    );
}

#[test]
fn index_starts_empty() {
    let index = VersionIndex::new();
    assert_eq!(index.score(b"ns", b"m"), None);
    assert_eq!(index.top(b"ns"), Vec::<Vec<u8>>::new());
    assert_eq!(index.ranking(b"ns"), Vec::<(u64, Vec<u8>)>::new());
}

#[test]
fn index_insert_then_score() {
    let mut index = VersionIndex::new();
    index.insert(b"ns", 4, b"m");
    assert_eq!(index.score(b"ns", b"m"), Some(4));
    assert_eq!(index.score(b"ns", b"other"), None);
    assert_eq!(index.score(b"other", b"m"), None);
}

#[test]
fn index_insert_replaces_the_score() {
    let mut index = VersionIndex::new();
    index.insert(b"ns", 4, b"m");
    index.insert(b"ns", 9, b"m");
    assert_eq!(index.score(b"ns", b"m"), Some(9));
    assert_eq!(index.ranking(b"ns"), vec![(9, b"m".to_vec())]);
}

#[test]
fn index_remove_takes_the_member_out() {
    let mut index = VersionIndex::new();
    index.insert(b"ns", 4, b"m");
    index.insert(b"ns", 5, b"n");
    index.remove(b"ns", b"m");
    assert_eq!(index.score(b"ns", b"m"), None);
    assert_eq!(index.score(b"ns", b"n"), Some(5));
}

#[test]
fn index_remove_of_a_stranger_changes_nothing() {
    let mut index = VersionIndex::new();
    index.insert(b"ns", 4, b"m");
    index.remove(b"ns", b"x");
    index.remove(b"other", b"m");
    assert_eq!(index.ranking(b"ns"), vec![(4, b"m".to_vec())]);
}

#[test]
fn index_top_is_the_highest_score() {
    let mut index = VersionIndex::new();
    index.insert(b"ns", 5, b"five");
    index.insert(b"ns", 9, b"nine");
    index.insert(b"ns", 1, b"one");
    index.insert(b"other", 100, b"far");
    assert_eq!(index.top(b"ns"), vec![b"nine".to_vec()]);
    assert_eq!(index.top(b"other"), vec![b"far".to_vec()]);
    assert_eq!(index.top(b"none"), Vec::<Vec<u8>>::new());
}

#[test]
fn index_top_breaks_ties_by_member() {
    let mut index = VersionIndex::new();
    index.insert(b"ns", 3, b"b");
    index.insert(b"ns", 3, b"c");
    index.insert(b"ns", 3, b"a");
    assert_eq!(index.top(b"ns"), vec![b"c".to_vec()]);
}

#[test]
fn index_ranking_ascends() {
    let mut index = VersionIndex::new();
    index.insert(b"ns", 5, b"five");
    index.insert(b"ns", 9, b"nine");
    index.insert(b"ns", 1, b"one");
    index.insert(b"ns", 5, b"cinq");
    index.insert(b"other", 0, b"zero");
    assert_eq!(
        index.ranking(b"ns"),
        vec![
            (1, b"one".to_vec()),
            (5, b"cinq".to_vec()),
            (5, b"five".to_vec()),
            (9, b"nine".to_vec()),
        ]
    );
}

#[test]
fn content_starts_empty() {
    let content = ContentStore::new();
    assert_eq!(content.get(b"f"), None);
}

#[test]
fn content_set_then_get() {
    let mut content = ContentStore::new();
    content.set(b"f", b"value");
    content.set(b"g", b"");
    assert_eq!(content.get(b"f"), Some(b"value".to_vec()));
    assert_eq!(content.get(b"g"), Some(vec![]));
    assert_eq!(content.get(b"h"), None);
}

#[test]
fn content_set_replaces_the_payload() {
    let mut content = ContentStore::new();
    content.set(b"f", b"old");
    content.set(b"f", b"new");
    assert_eq!(content.get(b"f"), Some(b"new".to_vec()));
}
