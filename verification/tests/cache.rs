//! The cache of tree diffs.

use rit::git::cache::{TreeDiffKey, TREE_DIFF_CACHE_CAP};
use rit::git::diff::{ChangeKind, ChangeRecord};
use rit::git::TreeDiffCache;
use rit::model::ObjectId;

fn commit(n: u8) -> ObjectId {
    ObjectId::from_slice(&[n; 20]).expect("twenty bytes")
}

fn key(n: u8) -> TreeDiffKey {
    TreeDiffKey { parent: Some(commit(n)), commit: commit(n + 1) }
}

fn records(path: &str) -> Vec<ChangeRecord> {
    let kind = ChangeKind::Addition { oid: commit(1) };
    vec![ChangeRecord { kind, is_blob: true, path: path.as_bytes().to_vec() }]
}

fn path_under(cache: &mut TreeDiffCache, key: &TreeDiffKey) -> Option<Vec<u8>> {
    cache.get(key).map(|records| records[0].path.clone())
}

#[test]
fn what_was_put_in_is_found_under_its_key_alone() {
    let mut cache = TreeDiffCache::new();
    assert!(cache.get(&key(1)).is_none());
    cache.insert(key(1), records("a"));
    cache.insert(key(2), records("b"));
    assert_eq!(path_under(&mut cache, &key(1)).as_deref(), Some(b"a".as_slice()));
    assert_eq!(path_under(&mut cache, &key(2)).as_deref(), Some(b"b".as_slice()));
    let root = TreeDiffKey { parent: None, commit: commit(2) };
    assert!(cache.get(&root).is_none());
}

#[test]
fn the_least_recently_used_entry_makes_room() {
    let mut cache = TreeDiffCache::new();
    for n in 0..TREE_DIFF_CACHE_CAP {
        cache.insert(key(n as u8), records("old"));
    }
    assert_eq!(cache.entries.len(), TREE_DIFF_CACHE_CAP);
    assert!(cache.get(&key(0)).is_some());
    cache.insert(key(200), records("new"));
    assert_eq!(cache.entries.len(), TREE_DIFF_CACHE_CAP);
    assert!(cache.get(&key(1)).is_none(), "the oldest untouched entry is gone");
    assert!(cache.get(&key(0)).is_some(), "the entry that was read stays");
    assert_eq!(path_under(&mut cache, &key(200)).as_deref(), Some(b"new".as_slice()));
    assert!(cache.get(&key(63)).is_some());
}

#[test]
fn a_lookup_changes_nothing_but_the_order() {
    let mut cache = TreeDiffCache::new();
    for n in 0..5 {
        cache.insert(key(n), records("x"));
    }
    assert!(cache.get(&key(2)).is_some());
    let order: Vec<TreeDiffKey> = cache.entries.iter().map(|e| e.key).collect();
    assert_eq!(order, [key(0), key(1), key(3), key(4), key(2)]);
    assert!(cache.get(&key(9)).is_none());
    assert_eq!(cache.entries.len(), 5);
}
