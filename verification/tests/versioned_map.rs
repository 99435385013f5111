use sha2::Digest;
use versioned_map::{Block, Id, MapError, MapOperation, MemoryStore, Mutation, VersionedMap};

fn key(s: &str) -> Vec<u8> {
    s.as_bytes().to_vec()
}

fn val(b: u8) -> Vec<u8> {
    vec![b]
}

fn first_mutation() -> Mutation {
    let mut m = Mutation::new(key("did:key:zA"));
    m.add(key("a"), val(1));
    m.add(key("b"), val(2));
    m
}

fn second_mutation() -> Mutation {
    let mut m = Mutation::new(key("did:key:zA"));
    m.remove(key("a"));
    m.add(key("c"), val(3));
    m
}

fn sorted(mut pairs: Vec<(Vec<u8>, Vec<u8>)>) -> Vec<(Vec<u8>, Vec<u8>)> {
    pairs.sort();
    pairs
}

#[test]
fn it_applies_a_scenario_and_keeps_history() {
    let mut store = MemoryStore::new();
    let empty = VersionedMap::try_empty(&mut store).unwrap();
    let r0 = empty.cid().duplicate();

    let r1 = VersionedMap::try_apply_with_cid(Some(&r0), &first_mutation(), &mut store).unwrap();
    let mut m1 = VersionedMap::at(&r1);
    assert_eq!(m1.get(&key("a"), &mut store).unwrap(), Some(val(1)));
    assert_eq!(m1.get(&key("b"), &mut store).unwrap(), Some(val(2)));
    let listed = sorted(m1.for_each(&mut store).unwrap());
    assert_eq!(listed, vec![(key("a"), val(1)), (key("b"), val(2))]);

    let r2 = VersionedMap::try_apply_with_cid(Some(&r1), &second_mutation(), &mut store).unwrap();
    let mut m2 = VersionedMap::at(&r2);
    assert_eq!(m2.get(&key("a"), &mut store).unwrap(), None);
    assert_eq!(m2.get(&key("b"), &mut store).unwrap(), Some(val(2)));
    assert_eq!(m2.get(&key("c"), &mut store).unwrap(), Some(val(3)));
    let listed = sorted(m2.for_each(&mut store).unwrap());
    assert_eq!(listed, vec![(key("b"), val(2)), (key("c"), val(3))]);

    // The prior version is still independently loadable and unchanged.
    let mut m1_again = VersionedMap::at(&r1);
    assert_eq!(m1_again.get(&key("a"), &mut store).unwrap(), Some(val(1)));
    assert_eq!(m1_again.get(&key("c"), &mut store).unwrap(), None);
}

#[test]
fn it_derives_the_same_root_for_the_same_mutation() {
    let mut store1 = MemoryStore::new();
    let mut store2 = MemoryStore::new();
    let a1 = VersionedMap::try_apply_with_cid(None, &first_mutation(), &mut store1).unwrap();
    let a2 = VersionedMap::try_apply_with_cid(None, &first_mutation(), &mut store2).unwrap();
    assert_eq!(a1, a2);
    let b1 = VersionedMap::try_apply_with_cid(Some(&a1), &second_mutation(), &mut store1).unwrap();
    let b2 = VersionedMap::try_apply_with_cid(Some(&a2), &second_mutation(), &mut store2).unwrap();
    assert_eq!(b1, b2);
    assert_ne!(a1, b1);
}

#[test]
fn it_keeps_the_last_write_to_a_key() {
    let mut store = MemoryStore::new();
    let mut m = Mutation::new(key("did:key:zA"));
    m.add(key("k"), val(1));
    m.add(key("k"), val(2));
    let root = VersionedMap::try_apply_with_cid(None, &m, &mut store).unwrap();
    let mut view = VersionedMap::at(&root);
    assert_eq!(view.get(&key("k"), &mut store).unwrap(), Some(val(2)));
}

#[test]
fn it_reads_a_removed_key_as_absent() {
    let mut store = MemoryStore::new();
    let mut m = Mutation::new(key("did:key:zA"));
    m.add(key("k"), val(1));
    m.remove(key("k"));
    let root = VersionedMap::try_apply_with_cid(None, &m, &mut store).unwrap();
    let mut view = VersionedMap::at(&root);
    assert_eq!(view.get(&key("k"), &mut store).unwrap(), None);
    assert_eq!(view.require(&key("k"), &mut store), Err(MapError::KeyNotFound));
}

#[test]
fn it_removes_an_absent_key_without_failing() {
    let mut store = MemoryStore::new();
    let mut m = Mutation::new(key("did:key:zA"));
    m.remove(key("never-bound"));
    let root = VersionedMap::try_apply_with_cid(None, &m, &mut store).unwrap();
    let mut view = VersionedMap::at(&root);
    assert_eq!(view.get(&key("never-bound"), &mut store).unwrap(), None);
}

#[test]
fn it_starts_empty() {
    let mut store = MemoryStore::new();
    let mut empty = VersionedMap::try_empty(&mut store).unwrap();
    assert_eq!(empty.for_each(&mut store).unwrap(), vec![]);
    assert_eq!(empty.get(&key("anything"), &mut store).unwrap(), None);
    assert_eq!(empty.get(&key(""), &mut store).unwrap(), None);
}

#[test]
fn it_shares_unchanged_blocks_between_versions() {
    let mut store = MemoryStore::new();
    let r1 = VersionedMap::try_apply_with_cid(None, &first_mutation(), &mut store).unwrap();

    // Applying a mutation that touches other keys writes only the new value
    // block, the changelog entry, the trie block and the root node.
    let saves_before = store.saves();
    let r2 = VersionedMap::try_apply_with_cid(Some(&r1), &second_mutation(), &mut store).unwrap();
    assert_eq!(store.saves() - saves_before, 4);

    // The untouched key still points at the very same value block.
    let mut m1 = VersionedMap::at(&r1);
    let mut m2 = VersionedMap::at(&r2);
    let t1 = m1.try_get_hamt(&mut store).unwrap();
    let t2 = m2.try_get_hamt(&mut store).unwrap();
    let b1 = t1.get(&key("b")).unwrap().duplicate();
    let b2 = t2.get(&key("b")).unwrap().duplicate();
    assert_eq!(b1, b2);
}

#[test]
fn it_materializes_the_trie_once() {
    let mut store = MemoryStore::new();
    let root = VersionedMap::try_apply_with_cid(None, &first_mutation(), &mut store).unwrap();
    let mut view = VersionedMap::at(&root);
    let loads_before = store.loads();
    view.get(&key("a"), &mut store).unwrap();
    // The first read loads the root node and the trie block.
    assert_eq!(store.loads() - loads_before, 2);
    view.get(&key("b"), &mut store).unwrap();
    view.get(&key("a"), &mut store).unwrap();
    view.for_each(&mut store).unwrap();
    assert_eq!(store.loads() - loads_before, 2);
}

#[test]
fn it_reports_not_found_for_an_unknown_root() {
    let mut store = MemoryStore::new();
    let mut view = VersionedMap::at(&Id::from_bytes(vec![1, 2, 3]));
    assert_eq!(view.get(&key("a"), &mut store), Err(MapError::NotFound));
}

#[test]
fn it_reports_a_decode_error_for_a_block_of_the_wrong_shape() {
    let mut store = MemoryStore::new();
    let raw_id = store.save(Block::Raw(val(9)));
    let mut view = VersionedMap::at(&raw_id);
    assert_eq!(view.get(&key("a"), &mut store), Err(MapError::DecodeError));
    assert_eq!(view.try_get_changelog(&mut store).err(), Some(MapError::DecodeError));
}

#[test]
fn it_records_every_operation_in_the_changelog() {
    let mut store = MemoryStore::new();
    let r1 = VersionedMap::try_apply_with_cid(None, &first_mutation(), &mut store).unwrap();
    let mut m1 = VersionedMap::at(&r1);
    let entry = m1.try_get_changelog(&mut store).unwrap();
    assert_eq!(entry.author, key("did:key:zA"));
    assert_eq!(entry.operations.len(), 2);
    match &entry.operations[0] {
        MapOperation::Add { key: k, value: v } => {
            assert_eq!(k, &key("a"));
            assert_eq!(v, &val(1));
        },
        _ => panic!("the first recorded operation should bind a key"),
    }
    assert!(entry.parent.is_some());

    // The next entry is chained to this version's changelog identifier.
    let r2 = VersionedMap::try_apply_with_cid(Some(&r1), &second_mutation(), &mut store).unwrap();
    let mut m2 = VersionedMap::at(&r2);
    let entry2 = m2.try_get_changelog(&mut store).unwrap();
    let r1_changelog = match store.lookup(&r1).unwrap() {
        Block::Root(root) => root.changelog.duplicate(),
        _ => panic!("the root identifier should name a root node"),
    };
    assert_eq!(entry2.parent.as_ref().unwrap(), &r1_changelog);
    assert_eq!(entry2.operations.len(), 2);
}

#[test]
fn it_saves_identical_content_under_one_identifier() {
    let mut store = MemoryStore::new();
    let id1 = store.save(Block::Raw(val(7)));
    let id2 = store.save(Block::Raw(val(7)));
    let id3 = store.save(Block::Raw(val(8)));
    assert_eq!(id1, id2);
    assert_ne!(id1, id3);
}

#[test]
fn it_streams_the_same_entries_as_for_each() {
    let mut store = MemoryStore::new();
    let root = VersionedMap::try_apply_with_cid(None, &first_mutation(), &mut store).unwrap();
    let mut view = VersionedMap::at(&root);
    let from_for_each = view.for_each(&mut store).unwrap();
    let from_stream = view.stream(&mut store).unwrap();
    assert_eq!(from_for_each, from_stream);
    let consuming = VersionedMap::at(&root).into_stream(&mut store).unwrap();
    assert_eq!(from_for_each, consuming);
}

#[test]
fn it_appends_a_changelog_entry_even_for_an_empty_mutation() {
    let mut store = MemoryStore::new();
    let r1 = VersionedMap::try_apply_with_cid(None, &first_mutation(), &mut store).unwrap();
    let empty_mutation = Mutation::new(key("did:key:zA"));
    let r2 = VersionedMap::try_apply_with_cid(Some(&r1), &empty_mutation, &mut store).unwrap();
    assert_ne!(r1, r2);
    let mut m2 = VersionedMap::at(&r2);
    assert_eq!(m2.get(&key("a"), &mut store).unwrap(), Some(val(1)));
    assert_eq!(m2.try_get_changelog(&mut store).unwrap().operations.len(), 0);
}

#[test]
fn it_finds_a_pinned_block_in_a_listing() {
    let keys = vec![key("bafyone"), key("bafytwo")];
    assert!(versioned_map::pin::pin_listing_contains(&keys, &key("bafytwo")));
    assert!(!versioned_map::pin::pin_listing_contains(&keys, &key("bafythree")));
    assert!(!versioned_map::pin::pin_listing_contains(&vec![], &key("bafyone")));
}

#[test]
fn it_accepts_an_import_only_on_success_status() {
    assert!(versioned_map::pin::import_accepted(200));
    assert!(!versioned_map::pin::import_accepted(500));
    assert!(!versioned_map::pin::import_accepted(404));
}

#[test]
fn it_fails_atomically_against_an_unknown_root() {
    let mut store = MemoryStore::new();
    let r1 = VersionedMap::try_apply_with_cid(None, &first_mutation(), &mut store).unwrap();
    let saves_before = store.saves();
    let bogus = Id::from_bytes(vec![0xde, 0xad]);
    let result = VersionedMap::try_apply_with_cid(Some(&bogus), &second_mutation(), &mut store);
    assert_eq!(result, Err(MapError::NotFound));
    // Nothing new was persisted and the prior version is untouched.
    assert_eq!(store.saves(), saves_before);
    let mut m1 = VersionedMap::at(&r1);
    assert_eq!(m1.get(&key("a"), &mut store).unwrap(), Some(val(1)));
}

#[test]
fn it_resolves_an_existing_root_or_creates_an_empty_one() {
    let mut store = MemoryStore::new();
    let from_nothing = VersionedMap::try_at_or_empty(None, &mut store).unwrap();
    let empty_again = VersionedMap::try_empty(&mut store).unwrap();
    assert_eq!(from_nothing.cid(), empty_again.cid());
    let r1 = VersionedMap::try_apply_with_cid(None, &first_mutation(), &mut store).unwrap();
    let existing = VersionedMap::try_at_or_empty(Some(&r1), &mut store).unwrap();
    assert_eq!(existing.cid(), &r1);
}

#[test]
fn it_derives_identifiers_from_the_canonical_bytes() {
    let mut store = MemoryStore::new();
    let id = store.save(Block::Raw(vec![7]));
    // A raw block encodes as its tag byte, the little-endian length of the
    // payload, and the payload itself; its identifier is that encoding's
    // SHA-256 digest.
    let mut encoded = vec![0u8];
    encoded.extend_from_slice(&1u64.to_le_bytes());
    encoded.push(7);
    let digest = sha2::Sha256::digest(&encoded);
    assert_eq!(id.as_bytes().as_slice(), digest.as_slice());
}
