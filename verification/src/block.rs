use vstd::prelude::*;
use crate::ids::{dup_bytes, Id};
use crate::ops::{dup_ops, ops_view, MapOperation, OpView};

verus! {

/// One key/value binding inside a trie block: the key is held inline, the
/// value by the identifier of its own block.
pub struct TrieEntry {
    pub key: Vec<u8>,
    pub value_id: Id,
}

/// The mathematical form of a [`TrieEntry`].
pub ghost struct EntryView {
    pub key: Seq<u8>,
    pub value_id: Seq<u8>,
}

impl View for TrieEntry {
    type V = EntryView;

    open spec fn view(&self) -> EntryView {
        EntryView { key: self.key@, value_id: self.value_id@ }
    }
}

/// The views of a sequence of trie entries.
pub open spec fn entries_view(s: Seq<TrieEntry>) -> Seq<EntryView> {
    s.map_values(|e: TrieEntry| e@)
}

impl TrieEntry {
    /// An owned copy of this entry.
    pub fn duplicate(&self) -> (r: TrieEntry)
        ensures
            r@ == self@,
    {
        TrieEntry { key: dup_bytes(&self.key), value_id: self.value_id.duplicate() }
    }
}

/// Copy a sequence of trie entries.
pub fn dup_entries(entries: &Vec<TrieEntry>) -> (r: Vec<TrieEntry>)
    ensures
        entries_view(r@) == entries_view(entries@),
{
    let mut r: Vec<TrieEntry> = Vec::new();
    let n: usize = entries.len();
    let mut i: usize = 0;
    while i < n
        invariant
            n == entries@.len(),
            i <= n,
            r@.len() == i,
            forall|j: int| 0 <= j < i ==> r@[j]@ == entries@[j]@,
        decreases n - i,
    {
        r.push(entries[i].duplicate());
        i = i + 1;
    }
    assert(entries_view(r@) =~= entries_view(entries@));
    r
}

/// The top-level record of one map version: it binds the identifier of the
/// trie block to the identifier of the newest changelog entry.
pub struct RootNode {
    pub hamt: Id,
    pub changelog: Id,
}

/// The mathematical form of a [`RootNode`].
pub ghost struct RootView {
    pub hamt: Seq<u8>,
    pub changelog: Seq<u8>,
}

impl View for RootNode {
    type V = RootView;

    open spec fn view(&self) -> RootView {
        RootView { hamt: self.hamt@, changelog: self.changelog@ }
    }
}

impl RootNode {
    /// An owned copy of this root node.
    pub fn duplicate(&self) -> (r: RootNode)
        ensures
            r@ == self@,
    {
        RootNode { hamt: self.hamt.duplicate(), changelog: self.changelog.duplicate() }
    }
}

/// One author-tagged record of the operations applied by a single mutation,
/// chained to the prior changelog entry.
pub struct ChangelogEntry {
    pub author: Vec<u8>,
    pub operations: Vec<MapOperation>,
    pub parent: Option<Id>,
}

/// The mathematical form of a [`ChangelogEntry`].
pub ghost struct LogView {
    pub author: Seq<u8>,
    pub operations: Seq<OpView>,
    pub parent: Option<Seq<u8>>,
}

impl View for ChangelogEntry {
    type V = LogView;

    open spec fn view(&self) -> LogView {
        LogView {
            author: self.author@,
            operations: ops_view(self.operations@),
            parent: match self.parent {
                Some(id) => Some(id@),
                None => None,
            },
        }
    }
}

impl ChangelogEntry {
    /// A fresh entry for `author`, chained to `parent`, with no operations
    /// recorded yet.
    pub fn mark(author: Vec<u8>, parent: Option<Id>) -> (r: ChangelogEntry)
        ensures
            r@.author == author@,
            r@.operations == Seq::<OpView>::empty(),
            r@.parent == (match parent {
                Some(id) => Some(id@),
                None => None::<Seq<u8>>,
            }),
    {
        let r = ChangelogEntry { author, operations: Vec::new(), parent };
        proof {
            assert(r@.operations =~= Seq::<OpView>::empty());
        }
        r
    }

    /// An owned copy of this entry.
    pub fn duplicate(&self) -> (r: ChangelogEntry)
        ensures
            r@ == self@,
    {
        ChangelogEntry {
            author: dup_bytes(&self.author),
            operations: dup_ops(&self.operations),
            parent: match &self.parent {
                Some(id) => Some(id.duplicate()),
                None => None,
            },
        }
    }
}

/// A unit of storage: everything the block store holds is one of these.
pub enum Block {
    /// An opaque value payload.
    Raw(Vec<u8>),
    /// The key/value bindings of one map version.
    Trie(Vec<TrieEntry>),
    /// One changelog record.
    Log(ChangelogEntry),
    /// The top-level record of one map version.
    Root(RootNode),
}

/// The mathematical form of a [`Block`].
pub ghost enum BlockView {
    Raw(Seq<u8>),
    Trie(Seq<EntryView>),
    Log(LogView),
    Root(RootView),
}

impl View for Block {
    type V = BlockView;

    open spec fn view(&self) -> BlockView {
        match self {
            Block::Raw(bytes) => BlockView::Raw(bytes@),
            Block::Trie(entries) => BlockView::Trie(entries_view(entries@)),
            Block::Log(entry) => BlockView::Log(entry@),
            Block::Root(root) => BlockView::Root(root@),
        }
    }
}

impl Block {
    /// An owned copy of this block.
    pub fn duplicate(&self) -> (r: Block)
        ensures
            r@ == self@,
    {
        match self {
            Block::Raw(bytes) => Block::Raw(dup_bytes(bytes)),
            Block::Trie(entries) => Block::Trie(dup_entries(entries)),
            Block::Log(entry) => Block::Log(entry.duplicate()),
            Block::Root(root) => Block::Root(root.duplicate()),
        }
    }
}

} // verus!
