use vstd::prelude::*;
use crate::block::{Block, BlockView};
use crate::codec::{block_id, encode_block};
use crate::error::MapError;
use crate::ids::{bytes_eq, derive_id, Id};

verus! {

/// A counter value after one more event, saturating at the top of `u64`.
pub open spec fn bump(n: u64) -> u64 {
    if n < u64::MAX {
        (n + 1) as u64
    } else {
        n
    }
}

/// The mapping that a sequence of saved `(identifier, block)` pairs denotes:
/// a later save of the same identifier wins.
pub open spec fn store_map(s: Seq<(Id, Block)>) -> Map<Seq<u8>, BlockView>
    decreases s.len(),
{
    if s.len() == 0 {
        Map::empty()
    } else {
        store_map(s.drop_last()).insert(s.last().0@, s.last().1@)
    }
}

/// An in-memory content-addressed block store.
///
/// `save` derives each block's identifier from its canonical bytes, so saving
/// logically identical content twice yields the same identifier. The store
/// also counts `load` and `save` calls, which lets callers observe that a
/// cached view is materialized at most once and that unchanged blocks are
/// never rewritten.
pub struct MemoryStore {
    entries: Vec<(Id, Block)>,
    loads: u64,
    saves: u64,
}

impl MemoryStore {
    /// The mapping from identifier to block that this store holds.
    pub closed spec fn blocks(&self) -> Map<Seq<u8>, BlockView> {
        store_map(self.entries@)
    }

    /// How many `load` calls the store has served (saturating).
    pub closed spec fn load_count(&self) -> u64 {
        self.loads
    }

    /// How many `save` calls the store has served (saturating).
    pub closed spec fn save_count(&self) -> u64 {
        self.saves
    }

    /// An empty store.
    pub fn new() -> (r: MemoryStore)
        ensures
            r.blocks() == Map::<Seq<u8>, BlockView>::empty(),
            r.load_count() == 0,
            r.save_count() == 0,
    {
        MemoryStore { entries: Vec::new(), loads: 0, saves: 0 }
    }

    /// The number of `load` calls served so far.
    pub fn loads(&self) -> (r: u64)
        ensures
            r == self.load_count(),
    {
        self.loads
    }

    /// The number of `save` calls served so far.
    pub fn saves(&self) -> (r: u64)
        ensures
            r == self.save_count(),
    {
        self.saves
    }

    /// Persist a block and return its content-derived identifier. Saving the
    /// same content again returns the same identifier and leaves the mapping
    /// unchanged.
    pub fn save(&mut self, block: Block) -> (id: Id)
        ensures
            id@ == block_id(block@),
            final(self).blocks() == old(self).blocks().insert(id@, block@),
            final(self).load_count() == old(self).load_count(),
            final(self).save_count() == bump(old(self).save_count()),
    {
        let bytes = encode_block(&block);
        let id = derive_id(&bytes);
        let ghost pre = self.entries@;
        self.entries.push((id.duplicate(), block));
        if self.saves < u64::MAX {
            self.saves = self.saves + 1;
        }
        proof {
            assert(self.entries@.drop_last() =~= pre);
            assert(self.blocks() =~= old(self).blocks().insert(id@, block@));
        }
        id
    }

    /// Read the block stored under `id`, without counting the access.
    pub fn lookup(&self, id: &Id) -> (r: Result<&Block, MapError>)
        ensures
            match r {
                Ok(b) => self.blocks().dom().contains(id@) && b@ == self.blocks()[id@],
                Err(e) => e == MapError::NotFound && !self.blocks().dom().contains(id@),
            },
    {
        let n: usize = self.entries.len();
        let mut i: usize = n;
        proof {
            assert(self.entries@.take(n as int) =~= self.entries@);
        }
        while i > 0
            invariant
                i <= n,
                n == self.entries@.len(),
                store_map(self.entries@).dom().contains(id@) == store_map(
                    self.entries@.take(i as int),
                ).dom().contains(id@),
                store_map(self.entries@).dom().contains(id@) ==> store_map(self.entries@)[id@]
                    == store_map(self.entries@.take(i as int))[id@],
            decreases i,
        {
            let ghost pre = self.entries@.take(i as int);
            proof {
                assert(pre.len() == i);
                assert(pre.drop_last() =~= self.entries@.take(i - 1));
                assert(pre.last() == self.entries@[i - 1]);
                assert(store_map(pre) == store_map(self.entries@.take(i - 1)).insert(
                    self.entries@[i - 1].0@,
                    self.entries@[i - 1].1@,
                ));
            }
            if bytes_eq(self.entries[i - 1].0.as_bytes(), id.as_bytes()) {
                return Ok(&self.entries[i - 1].1);
            }
            i = i - 1;
        }
        proof {
            assert(self.entries@.take(0) =~= Seq::<(Id, Block)>::empty());
        }
        Err(MapError::NotFound)
    }

    /// Read the block stored under `id` as an owned copy, counting the
    /// access.
    pub fn load(&mut self, id: &Id) -> (r: Result<Block, MapError>)
        ensures
            final(self).blocks() == old(self).blocks(),
            final(self).save_count() == old(self).save_count(),
            final(self).load_count() == bump(old(self).load_count()),
            match r {
                Ok(b) => old(self).blocks().dom().contains(id@) && b@ == old(self).blocks()[id@],
                Err(e) => e == MapError::NotFound && !old(self).blocks().dom().contains(id@),
            },
    {
        let r = match self.lookup(id) {
            Ok(b) => Ok(b.duplicate()),
            Err(e) => Err(e),
        };
        if self.loads < u64::MAX {
            self.loads = self.loads + 1;
        }
        r
    }
}

} // verus!
