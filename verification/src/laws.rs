use vstd::prelude::*;
use crate::block::{BlockView, EntryView, LogView, RootView};
use crate::codec::block_id;
use crate::error::MapError;
use crate::map::{apply_at, apply_op_entries, load_values, replay_blocks, replay_entries,
    resolve_root, resolve_trie, spec_apply, spec_get, spec_require, value_at};
use crate::ops::OpView;
use crate::trie::{lemma_lookup_delete_other, lemma_lookup_delete_same, lemma_lookup_set_other,
    lemma_lookup_set_same, lemma_delete_unique, lemma_set_unique, lookup_entries, unique_keys};

verus! {

/// Determinism: applying the same ordered mutation against the same root,
/// over two stores with equal contents, yields the same root identifier and
/// the same store contents. The result of `spec_apply` — which
/// `try_apply_with_cid` returns exactly — is a function of the store's
/// contents, the starting root and the mutation alone.
pub proof fn lemma_apply_deterministic(
    s1: Map<Seq<u8>, BlockView>,
    s2: Map<Seq<u8>, BlockView>,
    root: Option<Seq<u8>>,
    author: Seq<u8>,
    ops: Seq<OpView>,
)
    requires
        s1 == s2,
    ensures
        spec_apply(s1, root, author, ops) == spec_apply(s2, root, author, ops),
{
}

/// Last write wins: after replaying two binds of the same key in order, the
/// key is bound to the value of the second bind.
pub proof fn lemma_last_write_wins(es: Seq<EntryView>, k: Seq<u8>, v1: Seq<u8>, v2: Seq<u8>)
    ensures
        lookup_entries(
            replay_entries(
                es,
                seq![OpView::Add { key: k, value: v1 }, OpView::Add { key: k, value: v2 }],
            ),
            k,
        ) == Some(block_id(BlockView::Raw(v2))),
{
    let ops = seq![OpView::Add { key: k, value: v1 }, OpView::Add { key: k, value: v2 }];
    let es1 = apply_op_entries(es, ops[0]);
    let es2 = apply_op_entries(es1, ops[1]);
    assert(ops.drop_first()[0] == ops[1]);
    assert(ops.drop_first().drop_first() =~= Seq::<OpView>::empty());
    assert(replay_entries(es, ops) == replay_entries(es1, ops.drop_first()));
    assert(replay_entries(es1, ops.drop_first()) == replay_entries(
        es2,
        ops.drop_first().drop_first(),
    ));
    assert(replay_entries(es2, ops.drop_first().drop_first()) == es2);
    lemma_lookup_set_same(es1, k, block_id(BlockView::Raw(v2)));
}

/// Remove then absent: after replaying a bind of `k` followed by a removal
/// of `k`, the key is unbound.
pub proof fn lemma_remove_then_absent(es: Seq<EntryView>, k: Seq<u8>, v: Seq<u8>)
    requires
        unique_keys(es),
    ensures
        lookup_entries(
            replay_entries(es, seq![OpView::Add { key: k, value: v }, OpView::Remove { key: k }]),
            k,
        ) is None,
{
    let ops = seq![OpView::Add { key: k, value: v }, OpView::Remove { key: k }];
    let es1 = apply_op_entries(es, ops[0]);
    let es2 = apply_op_entries(es1, ops[1]);
    assert(ops.drop_first()[0] == ops[1]);
    assert(ops.drop_first().drop_first() =~= Seq::<OpView>::empty());
    assert(replay_entries(es, ops) == replay_entries(es1, ops.drop_first()));
    assert(replay_entries(es1, ops.drop_first()) == replay_entries(
        es2,
        ops.drop_first().drop_first(),
    ));
    assert(replay_entries(es2, ops.drop_first().drop_first()) == es2);
    lemma_set_unique(es, k, block_id(BlockView::Raw(v)));
    lemma_lookup_delete_same(es1, k);
}

/// A key that the trie binds to a stored value block reads as that value:
/// what `get` and `require` return follows from the binding alone.
pub proof fn lemma_bound_key_reads(
    store: Map<Seq<u8>, BlockView>,
    root: Seq<u8>,
    k: Seq<u8>,
    vid: Seq<u8>,
    v: Seq<u8>,
)
    requires
        resolve_trie(store, root) matches Ok(es) && lookup_entries(es, k) == Some(vid),
        value_at(store, vid) == Ok::<Seq<u8>, MapError>(v),
    ensures
        spec_get(store, root, k) == Ok::<Option<Seq<u8>>, MapError>(Some(v)),
        spec_require(store, root, k) == Ok::<Seq<u8>, MapError>(v),
{
}

/// A key that the trie does not bind reads as absent: `get` reports nothing
/// and `require` reports `KeyNotFound`.
pub proof fn lemma_absent_key_reads(store: Map<Seq<u8>, BlockView>, root: Seq<u8>, k: Seq<u8>)
    requires
        resolve_trie(store, root) matches Ok(es) && lookup_entries(es, k) is None,
    ensures
        spec_get(store, root, k) == Ok::<Option<Seq<u8>>, MapError>(None),
        spec_require(store, root, k) == Err::<Seq<u8>, MapError>(MapError::KeyNotFound),
{
}

/// An empty map binds nothing: every key reads as absent, and a full
/// traversal yields no entries.
pub proof fn lemma_empty_map_reads(store: Map<Seq<u8>, BlockView>, k: Seq<u8>)
    ensures
        lookup_entries(Seq::<EntryView>::empty(), k) is None,
        load_values(Seq::empty(), store, Seq::<EntryView>::empty()) == Ok::<
            Seq<(Seq<u8>, Seq<u8>)>,
            MapError,
        >(Seq::<(Seq<u8>, Seq<u8>)>::empty()),
{
}

/// Structural sharing at the level of bindings: replaying operations that
/// never touch `k` leaves `k`'s binding — the identifier of its value block
/// — exactly as it was, so the untouched value block is never rewritten.
pub proof fn lemma_untouched_key(es: Seq<EntryView>, ops: Seq<OpView>, k: Seq<u8>)
    requires
        forall|j: int| 0 <= j < ops.len() ==> (#[trigger] ops[j]).op_key() != k,
    ensures
        lookup_entries(replay_entries(es, ops), k) == lookup_entries(es, k),
    decreases ops.len(),
{
    if ops.len() != 0 {
        let es1 = apply_op_entries(es, ops[0]);
        match ops[0] {
            OpView::Add { key, value } => {
                lemma_lookup_set_other(es, key, block_id(BlockView::Raw(value)), k);
            },
            OpView::Remove { key } => {
                lemma_lookup_delete_other(es, key, k);
            },
        }
        assert(forall|j: int| 0 <= j < ops.drop_first().len() ==> (#[trigger] ops.drop_first()[
            j]) == ops[j + 1]);
        lemma_untouched_key(es1, ops.drop_first(), k);
    }
}

/// The changelog is monotonic: a successful application binds the new root
/// to the trie that replaying the operations produces, and to a fresh
/// changelog entry that carries the author, records every operation, and is
/// chained to the prior version's changelog identifier.
pub proof fn lemma_apply_chains_history(
    store: Map<Seq<u8>, BlockView>,
    root: Seq<u8>,
    author: Seq<u8>,
    ops: Seq<OpView>,
)
    requires
        apply_at(store, root, author, ops) is Ok,
    ensures
        apply_at(store, root, author, ops) matches Ok(p) && resolve_root(p.1, p.0) == Ok::<
            RootView,
            MapError,
        >(
            RootView {
                hamt: block_id(
                    BlockView::Trie(replay_entries(resolve_trie(store, root)->Ok_0, ops)),
                ),
                changelog: block_id(
                    BlockView::Log(
                        LogView {
                            author,
                            operations: ops,
                            parent: Some((resolve_root(store, root)->Ok_0).changelog),
                        },
                    ),
                ),
            },
        ),
{
}

/// Persisting the value blocks of a mutation only ever adds blocks.
pub proof fn lemma_replay_blocks_grows(store: Map<Seq<u8>, BlockView>, ops: Seq<OpView>)
    ensures
        forall|id: Seq<u8>| store.dom().contains(id) ==> #[trigger] replay_blocks(
            store,
            ops,
        ).dom().contains(id),
    decreases ops.len(),
{
    if ops.len() != 0 {
        match ops[0] {
            OpView::Add { value, .. } => {
                let store2 = store.insert(block_id(BlockView::Raw(value)), BlockView::Raw(value));
                lemma_replay_blocks_grows(store2, ops.drop_first());
                assert(replay_blocks(store, ops) == replay_blocks(store2, ops.drop_first()));
                assert forall|id: Seq<u8>| store.dom().contains(id) implies #[trigger]
                    replay_blocks(store, ops).dom().contains(id) by {
                    assert(store2.dom().contains(id));
                    assert(replay_blocks(store2, ops.drop_first()).dom().contains(id));
                }
            },
            OpView::Remove { .. } => {
                lemma_replay_blocks_grows(store, ops.drop_first());
                assert(replay_blocks(store, ops) == replay_blocks(store, ops.drop_first()));
            },
        }
    }
}

/// History is append-only: a successful application never removes a block,
/// so every identifier that resolved before still resolves afterwards.
pub proof fn lemma_apply_keeps_blocks(
    store: Map<Seq<u8>, BlockView>,
    root: Seq<u8>,
    author: Seq<u8>,
    ops: Seq<OpView>,
)
    requires
        apply_at(store, root, author, ops) is Ok,
    ensures
        apply_at(store, root, author, ops) matches Ok(p) && forall|id: Seq<u8>|
            store.dom().contains(id) ==> #[trigger] p.1.dom().contains(id),
{
    lemma_replay_blocks_grows(store, ops);
}

/// Replaying a mutation preserves key uniqueness of the trie entries.
pub proof fn lemma_replay_unique(es: Seq<EntryView>, ops: Seq<OpView>)
    requires
        unique_keys(es),
    ensures
        unique_keys(replay_entries(es, ops)),
    decreases ops.len(),
{
    if ops.len() != 0 {
        let es1 = apply_op_entries(es, ops[0]);
        match ops[0] {
            OpView::Add { key, value } => {
                lemma_set_unique(es, key, block_id(BlockView::Raw(value)));
            },
            OpView::Remove { key } => {
                lemma_delete_unique(es, key);
            },
        }
        lemma_replay_unique(es1, ops.drop_first());
    }
}

} // verus!
