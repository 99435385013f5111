use vstd::prelude::*;
use crate::block::{dup_entries, Block, BlockView, ChangelogEntry, EntryView, LogView, RootNode,
    RootView, TrieEntry};
use crate::codec::block_id;
use crate::error::MapError;
use crate::ids::{dup_bytes, Id};
use crate::ops::{dup_ops, MapOperation, Mutation, OpView};
use crate::store::{bump, MemoryStore};
use crate::trie::{delete_entries, lookup_entries, set_entries, Trie};

verus! {

/// The root node a store binds to `id`: absent identifiers report
/// `NotFound`, blocks of another shape report `DecodeError`.
pub open spec fn resolve_root(store: Map<Seq<u8>, BlockView>, id: Seq<u8>) -> Result<
    RootView,
    MapError,
> {
    if !store.dom().contains(id) {
        Err(MapError::NotFound)
    } else {
        match store[id] {
            BlockView::Root(r) => Ok(r),
            _ => Err(MapError::DecodeError),
        }
    }
}

/// The trie entries of the version rooted at `id`.
pub open spec fn resolve_trie(store: Map<Seq<u8>, BlockView>, id: Seq<u8>) -> Result<
    Seq<EntryView>,
    MapError,
> {
    match resolve_root(store, id) {
        Err(e) => Err(e),
        Ok(root) => if !store.dom().contains(root.hamt) {
            Err(MapError::NotFound)
        } else {
            match store[root.hamt] {
                BlockView::Trie(es) => Ok(es),
                _ => Err(MapError::DecodeError),
            }
        },
    }
}

/// The newest changelog entry of the version rooted at `id`.
pub open spec fn resolve_log(store: Map<Seq<u8>, BlockView>, id: Seq<u8>) -> Result<
    LogView,
    MapError,
> {
    match resolve_root(store, id) {
        Err(e) => Err(e),
        Ok(root) => if !store.dom().contains(root.changelog) {
            Err(MapError::NotFound)
        } else {
            match store[root.changelog] {
                BlockView::Log(l) => Ok(l),
                _ => Err(MapError::DecodeError),
            }
        },
    }
}

/// The value bytes stored under `vid`.
pub open spec fn value_at(store: Map<Seq<u8>, BlockView>, vid: Seq<u8>) -> Result<
    Seq<u8>,
    MapError,
> {
    if !store.dom().contains(vid) {
        Err(MapError::NotFound)
    } else {
        match store[vid] {
            BlockView::Raw(v) => Ok(v),
            _ => Err(MapError::DecodeError),
        }
    }
}

/// What `get` returns for `k` under the version rooted at `root`.
pub open spec fn spec_get(store: Map<Seq<u8>, BlockView>, root: Seq<u8>, k: Seq<u8>) -> Result<
    Option<Seq<u8>>,
    MapError,
> {
    match resolve_trie(store, root) {
        Err(e) => Err(e),
        Ok(es) => match lookup_entries(es, k) {
            None => Ok(None),
            Some(vid) => match value_at(store, vid) {
                Ok(v) => Ok(Some(v)),
                Err(e) => Err(e),
            },
        },
    }
}

/// What `require` returns for `k`: as `get`, but an absent key is the error
/// `KeyNotFound`.
pub open spec fn spec_require(store: Map<Seq<u8>, BlockView>, root: Seq<u8>, k: Seq<u8>) -> Result<
    Seq<u8>,
    MapError,
> {
    match spec_get(store, root, k) {
        Ok(None) => Err(MapError::KeyNotFound),
        Ok(Some(v)) => Ok(v),
        Err(e) => Err(e),
    }
}

/// Fetch the value of each entry of `rest` in order, appending `(key, value)`
/// pairs to `acc`; the first failing fetch aborts the traversal.
pub open spec fn load_values(
    acc: Seq<(Seq<u8>, Seq<u8>)>,
    store: Map<Seq<u8>, BlockView>,
    rest: Seq<EntryView>,
) -> Result<Seq<(Seq<u8>, Seq<u8>)>, MapError>
    decreases rest.len(),
{
    if rest.len() == 0 {
        Ok(acc)
    } else {
        match value_at(store, rest[0].value_id) {
            Err(e) => Err(e),
            Ok(v) => load_values(acc.push((rest[0].key, v)), store, rest.drop_first()),
        }
    }
}

/// Every `(key, value)` pair of the version rooted at `root`, in trie order.
pub open spec fn spec_entries_list(store: Map<Seq<u8>, BlockView>, root: Seq<u8>) -> Result<
    Seq<(Seq<u8>, Seq<u8>)>,
    MapError,
> {
    match resolve_trie(store, root) {
        Err(e) => Err(e),
        Ok(es) => load_values(Seq::empty(), store, es),
    }
}

/// One operation's effect on the trie entries: `Add` binds the key to the
/// identifier of the value's block, `Remove` unbinds it.
pub open spec fn apply_op_entries(es: Seq<EntryView>, op: OpView) -> Seq<EntryView> {
    match op {
        OpView::Add { key, value } => set_entries(es, key, block_id(BlockView::Raw(value))),
        OpView::Remove { key } => delete_entries(es, key),
    }
}

/// The trie entries after replaying `ops` strictly in order.
pub open spec fn replay_entries(es: Seq<EntryView>, ops: Seq<OpView>) -> Seq<EntryView>
    decreases ops.len(),
{
    if ops.len() == 0 {
        es
    } else {
        replay_entries(apply_op_entries(es, ops[0]), ops.drop_first())
    }
}

/// The store after persisting one value block per `Add` of `ops`, in order.
pub open spec fn replay_blocks(store: Map<Seq<u8>, BlockView>, ops: Seq<OpView>) -> Map<
    Seq<u8>,
    BlockView,
>
    decreases ops.len(),
{
    if ops.len() == 0 {
        store
    } else {
        replay_blocks(
            match ops[0] {
                OpView::Add { value, .. } => store.insert(
                    block_id(BlockView::Raw(value)),
                    BlockView::Raw(value),
                ),
                OpView::Remove { .. } => store,
            },
            ops.drop_first(),
        )
    }
}

/// The trie block of a map with no bindings.
pub open spec fn empty_trie_block() -> BlockView {
    BlockView::Trie(Seq::empty())
}

/// The changelog block of a freshly created empty map.
pub open spec fn empty_log_block() -> BlockView {
    BlockView::Log(LogView { author: Seq::empty(), operations: Seq::empty(), parent: None })
}

/// The identifier of the empty trie block.
pub open spec fn empty_trie_id() -> Seq<u8> {
    block_id(empty_trie_block())
}

/// The identifier of the empty changelog block.
pub open spec fn empty_log_id() -> Seq<u8> {
    block_id(empty_log_block())
}

/// The root block of a freshly created empty map.
pub open spec fn empty_root_block() -> BlockView {
    BlockView::Root(RootView { hamt: empty_trie_id(), changelog: empty_log_id() })
}

/// The identifier of an empty map's root: what `try_empty` returns.
pub open spec fn empty_root_id() -> Seq<u8> {
    block_id(empty_root_block())
}

/// A store after the three blocks of an empty map are persisted.
pub open spec fn with_empty_blocks(store: Map<Seq<u8>, BlockView>) -> Map<Seq<u8>, BlockView> {
    store.insert(empty_trie_id(), empty_trie_block()).insert(
        empty_log_id(),
        empty_log_block(),
    ).insert(empty_root_id(), empty_root_block())
}

/// What applying a mutation against the version rooted at `root` does: the
/// new root identifier and the new store contents, or the error when the
/// existing version cannot be resolved.
pub open spec fn apply_at(
    store: Map<Seq<u8>, BlockView>,
    root: Seq<u8>,
    author: Seq<u8>,
    ops: Seq<OpView>,
) -> Result<(Seq<u8>, Map<Seq<u8>, BlockView>), MapError> {
    match resolve_root(store, root) {
        Err(e) => Err(e),
        Ok(rv) => match resolve_log(store, root) {
            Err(e) => Err(e),
            Ok(_) => match resolve_trie(store, root) {
                Err(e) => Err(e),
                Ok(es) => {
                    let new_es = replay_entries(es, ops);
                    let s1 = replay_blocks(store, ops);
                    let logv = LogView { author, operations: ops, parent: Some(rv.changelog) };
                    let lid = block_id(BlockView::Log(logv));
                    let s2 = s1.insert(lid, BlockView::Log(logv));
                    let tid = block_id(BlockView::Trie(new_es));
                    let s3 = s2.insert(tid, BlockView::Trie(new_es));
                    let rootv = RootView { hamt: tid, changelog: lid };
                    let rid = block_id(BlockView::Root(rootv));
                    Ok((rid, s3.insert(rid, BlockView::Root(rootv))))
                },
            },
        },
    }
}

/// As [`apply_at`], starting from an existing root when one is given and
/// from a freshly persisted empty map otherwise.
pub open spec fn spec_apply(
    store: Map<Seq<u8>, BlockView>,
    root: Option<Seq<u8>>,
    author: Seq<u8>,
    ops: Seq<OpView>,
) -> Result<(Seq<u8>, Map<Seq<u8>, BlockView>), MapError> {
    match root {
        Some(r) => apply_at(store, r, author, ops),
        None => apply_at(with_empty_blocks(store), empty_root_id(), author, ops),
    }
}

/// The view of an optional identifier argument.
pub open spec fn cid_view(cid: Option<&Id>) -> Option<Seq<u8>> {
    match cid {
        Some(id) => Some(id@),
        None => None,
    }
}

/// The view of a `get` result.
pub open spec fn get_result_view(r: Result<Option<Vec<u8>>, MapError>) -> Result<
    Option<Seq<u8>>,
    MapError,
> {
    match r {
        Ok(None) => Ok(None),
        Ok(Some(v)) => Ok(Some(v@)),
        Err(e) => Err(e),
    }
}

/// The view of a `require` result.
pub open spec fn bytes_result_view(r: Result<Vec<u8>, MapError>) -> Result<Seq<u8>, MapError> {
    match r {
        Ok(v) => Ok(v@),
        Err(e) => Err(e),
    }
}

/// The views of a list of `(key, value)` pairs.
pub open spec fn pairs_view(s: Seq<(Vec<u8>, Vec<u8>)>) -> Seq<(Seq<u8>, Seq<u8>)> {
    s.map_values(|p: (Vec<u8>, Vec<u8>)| (p.0@, p.1@))
}

/// The view of an enumeration result.
pub open spec fn list_result_view(r: Result<Vec<(Vec<u8>, Vec<u8>)>, MapError>) -> Result<
    Seq<(Seq<u8>, Seq<u8>)>,
    MapError,
> {
    match r {
        Ok(v) => Ok(pairs_view(v@)),
        Err(e) => Err(e),
    }
}

/// A read view over one version of the map, addressed by its root
/// identifier.
///
/// The trie and the newest changelog entry are materialized from the store
/// lazily, at most once per instance while materialization succeeds; a
/// failed materialization is not cached, so a later call may retry. A
/// versioned map never mutates the version it points at: applying a mutation
/// produces a fresh root identifier.
pub struct VersionedMap {
    /// The root identifier this view reads.
    pub cid: Id,
    /// The cached trie, once materialized.
    pub hamt: Option<Trie>,
    /// The cached newest changelog entry, once materialized.
    pub changelog: Option<ChangelogEntry>,
}

impl VersionedMap {
    /// The caches hold nothing that disagrees with `store`: whatever is
    /// materialized is exactly what the store resolves for this root.
    pub open spec fn valid(self, store: MemoryStore) -> bool {
        &&& match self.hamt {
            Some(t) => resolve_trie(store.blocks(), self.cid@) == Ok::<_, MapError>(t@),
            None => true,
        }
        &&& match self.changelog {
            Some(c) => resolve_log(store.blocks(), self.cid@) == Ok::<_, MapError>(c@),
            None => true,
        }
    }

    /// A view over the existing version rooted at `cid`. Nothing is loaded
    /// until a read needs it.
    pub fn at(cid: &Id) -> (r: VersionedMap)
        ensures
            r.cid@ == cid@,
            r.hamt is None,
            r.changelog is None,
    {
        VersionedMap { cid: cid.duplicate(), hamt: None, changelog: None }
    }

    /// The root identifier of this version.
    pub fn cid(&self) -> (r: &Id)
        ensures
            r@ == self.cid@,
    {
        &self.cid
    }

    /// Persist the three blocks of an empty map and return a view over it.
    pub fn try_empty(store: &mut MemoryStore) -> (r: Result<VersionedMap, MapError>)
        ensures
            r matches Ok(m) && m.cid@ == empty_root_id() && m.hamt is None && m.changelog is None,
            final(store).blocks() == with_empty_blocks(old(store).blocks()),
            final(store).load_count() == old(store).load_count(),
            final(store).save_count() == bump(bump(bump(old(store).save_count()))),
    {
        let trie_block = Block::Trie(Vec::new());
        proof {
            assert(trie_block@ == empty_trie_block()) by {
                assert(crate::block::entries_view(Seq::<TrieEntry>::empty()) =~= Seq::<
                    EntryView,
                >::empty());
            }
        }
        let tid = store.save(trie_block);
        let log_block = Block::Log(
            ChangelogEntry { author: Vec::new(), operations: Vec::new(), parent: None },
        );
        proof {
            assert(log_block@ == empty_log_block()) by {
                assert(crate::ops::ops_view(Seq::<MapOperation>::empty()) =~= Seq::<
                    OpView,
                >::empty());
            }
        }
        let lid = store.save(log_block);
        let rid = store.save(Block::Root(RootNode { hamt: tid, changelog: lid }));
        Ok(VersionedMap { cid: rid, hamt: None, changelog: None })
    }

    /// A view over `cid` when one is given, over a freshly persisted empty
    /// map otherwise.
    pub fn try_at_or_empty(cid: Option<&Id>, store: &mut MemoryStore) -> (r: Result<
        VersionedMap,
        MapError,
    >)
        ensures
            r matches Ok(m) && m.hamt is None && m.changelog is None && m.cid@ == (match cid {
                Some(id) => id@,
                None => empty_root_id(),
            }),
            final(store).blocks() == (match cid {
                Some(_) => old(store).blocks(),
                None => with_empty_blocks(old(store).blocks()),
            }),
            final(store).load_count() == old(store).load_count(),
            cid is Some ==> final(store).save_count() == old(store).save_count(),
            cid is None ==> final(store).save_count() == bump(
                bump(bump(old(store).save_count())),
            ),
    {
        match cid {
            Some(id) => Ok(VersionedMap::at(id)),
            None => VersionedMap::try_empty(store),
        }
    }

    /// Materialize the trie cache, loading it from the store when this
    /// instance has not materialized it yet.
    fn materialize_trie(&mut self, store: &mut MemoryStore) -> (r: Result<(), MapError>)
        requires
            old(self).valid(*old(store)),
        ensures
            final(self).valid(*final(store)),
            final(self).cid == old(self).cid,
            final(self).changelog == old(self).changelog,
            final(store).blocks() == old(store).blocks(),
            final(store).save_count() == old(store).save_count(),
            old(self).hamt is Some ==> *final(self) == *old(self) && *final(store) == *old(
                store,
            ) && r is Ok,
            r is Ok ==> (final(self).hamt matches Some(t) && resolve_trie(
                old(store).blocks(),
                old(self).cid@,
            ) == Ok::<_, MapError>(t@)),
            r matches Err(e) ==> resolve_trie(old(store).blocks(), old(self).cid@) == Err::<
                Seq<EntryView>,
                _,
            >(e) && *final(self) == *old(self),
            old(self).hamt is None ==> (final(store).load_count() == bump(
                old(store).load_count(),
            ) || final(store).load_count() == bump(bump(old(store).load_count()))),
    {
        if self.hamt.is_some() {
            return Ok(());
        }
        let root = match store.load(&self.cid) {
            Ok(Block::Root(rn)) => rn,
            Ok(_) => {
                return Err(MapError::DecodeError);
            },
            Err(e) => {
                return Err(e);
            },
        };
        let entries = match store.load(&root.hamt) {
            Ok(Block::Trie(es)) => es,
            Ok(_) => {
                return Err(MapError::DecodeError);
            },
            Err(e) => {
                return Err(e);
            },
        };
        self.hamt = Some(Trie::from_entries(entries));
        Ok(())
    }

    /// Materialize the changelog cache, loading it from the store when this
    /// instance has not materialized it yet.
    fn materialize_log(&mut self, store: &mut MemoryStore) -> (r: Result<(), MapError>)
        requires
            old(self).valid(*old(store)),
        ensures
            final(self).valid(*final(store)),
            final(self).cid == old(self).cid,
            final(self).hamt == old(self).hamt,
            final(store).blocks() == old(store).blocks(),
            final(store).save_count() == old(store).save_count(),
            old(self).changelog is Some ==> *final(self) == *old(self) && *final(store) == *old(
                store,
            ) && r is Ok,
            r is Ok ==> (final(self).changelog matches Some(c) && resolve_log(
                old(store).blocks(),
                old(self).cid@,
            ) == Ok::<_, MapError>(c@)),
            r matches Err(e) ==> resolve_log(old(store).blocks(), old(self).cid@) == Err::<
                LogView,
                _,
            >(e) && *final(self) == *old(self),
            old(self).changelog is None ==> (final(store).load_count() == bump(
                old(store).load_count(),
            ) || final(store).load_count() == bump(bump(old(store).load_count()))),
    {
        if self.changelog.is_some() {
            return Ok(());
        }
        let root = match store.load(&self.cid) {
            Ok(Block::Root(rn)) => rn,
            Ok(_) => {
                return Err(MapError::DecodeError);
            },
            Err(e) => {
                return Err(e);
            },
        };
        let entry = match store.load(&root.changelog) {
            Ok(Block::Log(l)) => l,
            Ok(_) => {
                return Err(MapError::DecodeError);
            },
            Err(e) => {
                return Err(e);
            },
        };
        self.changelog = Some(entry);
        Ok(())
    }

    /// The materialized trie of this version, loading it on the first call;
    /// a cached trie is returned without touching the store.
    pub fn try_get_hamt(&mut self, store: &mut MemoryStore) -> (r: Result<Trie, MapError>)
        requires
            old(self).valid(*old(store)),
        ensures
            final(self).valid(*final(store)),
            final(self).cid == old(self).cid,
            final(store).blocks() == old(store).blocks(),
            final(store).save_count() == old(store).save_count(),
            old(self).hamt is Some ==> final(store).load_count() == old(store).load_count(),
            match r {
                Ok(t) => resolve_trie(old(store).blocks(), old(self).cid@) == Ok::<_, MapError>(
                    t@,
                ),
                Err(e) => resolve_trie(old(store).blocks(), old(self).cid@) == Err::<
                    Seq<EntryView>,
                    _,
                >(e),
            },
    {
        match self.materialize_trie(store) {
            Err(e) => Err(e),
            Ok(()) => {
                let t = self.hamt.as_ref().unwrap();
                Ok(t.duplicate())
            },
        }
    }

    /// The materialized newest changelog entry of this version, loading it
    /// on the first call; a cached entry is returned without touching the
    /// store.
    pub fn try_get_changelog(&mut self, store: &mut MemoryStore) -> (r: Result<
        ChangelogEntry,
        MapError,
    >)
        requires
            old(self).valid(*old(store)),
        ensures
            final(self).valid(*final(store)),
            final(self).cid == old(self).cid,
            final(store).blocks() == old(store).blocks(),
            final(store).save_count() == old(store).save_count(),
            old(self).changelog is Some ==> final(store).load_count() == old(store).load_count(),
            match r {
                Ok(c) => resolve_log(old(store).blocks(), old(self).cid@) == Ok::<_, MapError>(
                    c@,
                ),
                Err(e) => resolve_log(old(store).blocks(), old(self).cid@) == Err::<LogView, _>(
                    e,
                ),
            },
    {
        match self.materialize_log(store) {
            Err(e) => Err(e),
            Ok(()) => {
                let c = self.changelog.as_ref().unwrap();
                Ok(c.duplicate())
            },
        }
    }

    /// Read the value bound to `key`, or nothing when `key` is absent.
    pub fn get(&mut self, key: &Vec<u8>, store: &mut MemoryStore) -> (r: Result<
        Option<Vec<u8>>,
        MapError,
    >)
        requires
            old(self).valid(*old(store)),
        ensures
            final(self).valid(*final(store)),
            final(self).cid == old(self).cid,
            final(store).blocks() == old(store).blocks(),
            final(store).save_count() == old(store).save_count(),
            old(self).hamt is Some ==> final(store).load_count() == old(store).load_count(),
            get_result_view(r) == spec_get(old(store).blocks(), old(self).cid@, key@),
    {
        match self.materialize_trie(store) {
            Err(e) => {
                return Err(e);
            },
            Ok(()) => {},
        }
        let t = self.hamt.as_ref().unwrap();
        match t.get(key) {
            None => Ok(None),
            Some(vid) => match store.lookup(vid) {
                Err(e) => Err(e),
                Ok(b) => match b {
                    Block::Raw(v) => Ok(Some(dup_bytes(v))),
                    _ => Err(MapError::DecodeError),
                },
            },
        }
    }

    /// Read the value bound to `key`, reporting `KeyNotFound` when `key` is
    /// absent.
    pub fn require(&mut self, key: &Vec<u8>, store: &mut MemoryStore) -> (r: Result<
        Vec<u8>,
        MapError,
    >)
        requires
            old(self).valid(*old(store)),
        ensures
            final(self).valid(*final(store)),
            final(self).cid == old(self).cid,
            final(store).blocks() == old(store).blocks(),
            final(store).save_count() == old(store).save_count(),
            old(self).hamt is Some ==> final(store).load_count() == old(store).load_count(),
            bytes_result_view(r) == spec_require(old(store).blocks(), old(self).cid@, key@),
    {
        match self.get(key, store) {
            Ok(Some(v)) => Ok(v),
            Ok(None) => Err(MapError::KeyNotFound),
            Err(e) => Err(e),
        }
    }

    /// Every `(key, value)` pair of this version, in trie order.
    pub fn for_each(&mut self, store: &mut MemoryStore) -> (r: Result<
        Vec<(Vec<u8>, Vec<u8>)>,
        MapError,
    >)
        requires
            old(self).valid(*old(store)),
        ensures
            final(self).valid(*final(store)),
            final(self).cid == old(self).cid,
            final(store).blocks() == old(store).blocks(),
            final(store).save_count() == old(store).save_count(),
            old(self).hamt is Some ==> final(store).load_count() == old(store).load_count(),
            list_result_view(r) == spec_entries_list(old(store).blocks(), old(self).cid@),
    {
        match self.materialize_trie(store) {
            Err(e) => {
                return Err(e);
            },
            Ok(()) => {},
        }
        let ghost snap = *self;
        let t = self.hamt.as_ref().unwrap();
        let es = t.entries();
        let ghost tv = t@;
        let ghost blocks = store.blocks();
        let mut acc: Vec<(Vec<u8>, Vec<u8>)> = Vec::new();
        let n: usize = es.len();
        let mut i: usize = 0;
        proof {
            assert(tv.skip(0) =~= tv);
            assert(pairs_view(acc@) =~= Seq::<(Seq<u8>, Seq<u8>)>::empty());
        }
        while i < n
            invariant
                n == es@.len(),
                tv == crate::block::entries_view(es@),
                blocks == store.blocks(),
                blocks == old(store).blocks(),
                *self == snap,
                self.valid(*store),
                self.cid == old(self).cid,
                self.hamt matches Some(ct) && ct@ == tv,
                resolve_trie(old(store).blocks(), old(self).cid@) == Ok::<_, MapError>(tv),
                store.save_count() == old(store).save_count(),
                old(self).hamt is Some ==> store.load_count() == old(store).load_count(),
                i <= n,
                load_values(pairs_view(acc@), blocks, tv.skip(i as int)) == load_values(
                    Seq::empty(),
                    blocks,
                    tv,
                ),
            decreases n - i,
        {
            let entry = &es[i];
            proof {
                assert(tv.skip(i as int).len() != 0);
                assert(tv.skip(i as int)[0] == tv[i as int]);
                assert(tv.skip(i as int).drop_first() =~= tv.skip(i + 1 as int));
                assert(tv[i as int] == es@[i as int]@);
            }
            match store.lookup(&entry.value_id) {
                Err(e) => {
                    return Err(e);
                },
                Ok(b) => match b {
                    Block::Raw(v) => {
                        let ghost accv = pairs_view(acc@);
                        acc.push((dup_bytes(&entry.key), dup_bytes(v)));
                        proof {
                            assert(pairs_view(acc@) =~= accv.push((tv[i as int].key, v@)));
                        }
                    },
                    _ => {
                        return Err(MapError::DecodeError);
                    },
                },
            }
            i = i + 1;
        }
        proof {
            assert(tv.skip(n as int) =~= Seq::<EntryView>::empty());
        }
        Ok(acc)
    }

    /// As [`VersionedMap::for_each`]: one finite pass over the entries,
    /// restarted from the beginning on every call.
    pub fn stream(&mut self, store: &mut MemoryStore) -> (r: Result<
        Vec<(Vec<u8>, Vec<u8>)>,
        MapError,
    >)
        requires
            old(self).valid(*old(store)),
        ensures
            final(self).valid(*final(store)),
            final(self).cid == old(self).cid,
            final(store).blocks() == old(store).blocks(),
            final(store).save_count() == old(store).save_count(),
            old(self).hamt is Some ==> final(store).load_count() == old(store).load_count(),
            list_result_view(r) == spec_entries_list(old(store).blocks(), old(self).cid@),
    {
        self.for_each(store)
    }

    /// As [`VersionedMap::for_each`], consuming the view.
    pub fn into_stream(self, store: &mut MemoryStore) -> (r: Result<
        Vec<(Vec<u8>, Vec<u8>)>,
        MapError,
    >)
        requires
            self.valid(*old(store)),
        ensures
            final(store).blocks() == old(store).blocks(),
            final(store).save_count() == old(store).save_count(),
            list_result_view(r) == spec_entries_list(old(store).blocks(), self.cid@),
    {
        let mut m = self;
        m.for_each(store)
    }

    /// Apply `mutation` against the version rooted at `cid` (an empty map
    /// when no root is given) and return the new version's root identifier.
    ///
    /// The operations are replayed strictly in order, so the last operation
    /// on a key wins; every operation is recorded in the new changelog
    /// entry, including removals of absent keys, and a mutation with no
    /// operations still appends an entry and yields a distinct root. On
    /// failure no new root is produced and the prior root remains valid;
    /// blocks already persisted for an abandoned attempt are harmless
    /// orphans.
    pub fn try_apply_with_cid(
        cid: Option<&Id>,
        mutation: &Mutation,
        store: &mut MemoryStore,
    ) -> (r: Result<Id, MapError>)
        ensures
            r matches Ok(id) ==> spec_apply(
                old(store).blocks(),
                cid_view(cid),
                mutation.author_view(),
                mutation.ops(),
            ) == Ok::<_, MapError>((id@, final(store).blocks())),
            r matches Err(e) ==> spec_apply(
                old(store).blocks(),
                cid_view(cid),
                mutation.author_view(),
                mutation.ops(),
            ) == Err::<(Seq<u8>, Map<Seq<u8>, BlockView>), _>(e) && final(store).blocks() == (
            match cid {
                Some(_) => old(store).blocks(),
                None => with_empty_blocks(old(store).blocks()),
            }),
            final(store).load_count() == old(store).load_count(),
            old(store).save_count() <= final(store).save_count(),
    {
        let map = match VersionedMap::try_at_or_empty(cid, store) {
            Ok(m) => m,
            Err(e) => {
                return Err(e);
            },
        };
        let root_cid = map.cid;
        let ghost s0 = store.blocks();
        let root = match store.lookup(&root_cid) {
            Ok(b) => match b {
                Block::Root(rn) => rn.duplicate(),
                _ => {
                    return Err(MapError::DecodeError);
                },
            },
            Err(e) => {
                return Err(e);
            },
        };
        match store.lookup(&root.changelog) {
            Ok(b) => match b {
                Block::Log(_) => {},
                _ => {
                    return Err(MapError::DecodeError);
                },
            },
            Err(e) => {
                return Err(e);
            },
        }
        let mut trie = match store.lookup(&root.hamt) {
            Ok(b) => match b {
                Block::Trie(es) => Trie::from_entries(dup_entries(es)),
                _ => {
                    return Err(MapError::DecodeError);
                },
            },
            Err(e) => {
                return Err(e);
            },
        };
        let ghost es0 = trie@;
        let ghost opsv = mutation.ops();
        proof {
            assert(opsv.skip(0) =~= opsv);
        }
        let ops = mutation.changes();
        let n: usize = ops.len();
        let mut i: usize = 0;
        while i < n
            invariant
                n == ops@.len(),
                opsv == crate::ops::ops_view(ops@),
                i <= n,
                replay_entries(es0, opsv) == replay_entries(trie@, opsv.skip(i as int)),
                replay_blocks(s0, opsv) == replay_blocks(store.blocks(), opsv.skip(i as int)),
                store.load_count() == old(store).load_count(),
                old(store).save_count() <= store.save_count(),
            decreases n - i,

        {
            proof {
                assert(opsv.skip(i as int).len() != 0);
                assert(opsv.skip(i as int)[0] == opsv[i as int]);
                assert(opsv.skip(i as int).drop_first() =~= opsv.skip(i + 1 as int));
                assert(opsv[i as int] == ops@[i as int]@);
            }
            match &ops[i] {
                MapOperation::Add { key, value } => {
                    let vid = store.save(Block::Raw(dup_bytes(value)));
                    trie.set(dup_bytes(key), vid);
                },
                MapOperation::Remove { key } => {
                    trie.delete(key);
                },
            }
            i = i + 1;
        }
        proof {
            assert(opsv.skip(n as int) =~= Seq::<OpView>::empty());
        }
        let log_entry = ChangelogEntry {
            author: dup_bytes(mutation.did()),
            operations: dup_ops(mutation.changes()),
            parent: Some(root.changelog),
        };
        let lid = store.save(Block::Log(log_entry));
        let tid = store.save(Block::Trie(trie.into_entries()));
        let rid = store.save(Block::Root(RootNode { hamt: tid, changelog: lid }));
        Ok(rid)
    }
}

} // verus!
