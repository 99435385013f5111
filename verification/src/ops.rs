use vstd::prelude::*;
use crate::ids::dup_bytes;

verus! {

/// A single operation inside a mutation.
pub enum MapOperation {
    /// Bind `key` to `value`, overwriting any previous binding.
    Add { key: Vec<u8>, value: Vec<u8> },
    /// Unbind `key`; a no-op when the key is absent.
    Remove { key: Vec<u8> },
}

/// The mathematical form of a [`MapOperation`].
pub ghost enum OpView {
    Add { key: Seq<u8>, value: Seq<u8> },
    Remove { key: Seq<u8> },
}

impl OpView {
    /// The key an operation touches.
    pub open spec fn op_key(self) -> Seq<u8> {
        match self {
            OpView::Add { key, .. } => key,
            OpView::Remove { key } => key,
        }
    }
}

impl View for MapOperation {
    type V = OpView;

    open spec fn view(&self) -> OpView {
        match self {
            MapOperation::Add { key, value } => OpView::Add { key: key@, value: value@ },
            MapOperation::Remove { key } => OpView::Remove { key: key@ },
        }
    }
}

/// The views of a sequence of operations.
pub open spec fn ops_view(s: Seq<MapOperation>) -> Seq<OpView> {
    s.map_values(|op: MapOperation| op@)
}

impl MapOperation {
    /// An owned copy of this operation.
    pub fn duplicate(&self) -> (r: MapOperation)
        ensures
            r@ == self@,
    {
        match self {
            MapOperation::Add { key, value } => MapOperation::Add {
                key: dup_bytes(key),
                value: dup_bytes(value),
            },
            MapOperation::Remove { key } => MapOperation::Remove { key: dup_bytes(key) },
        }
    }
}

/// Copy a sequence of operations.
pub fn dup_ops(ops: &Vec<MapOperation>) -> (r: Vec<MapOperation>)
    ensures
        ops_view(r@) == ops_view(ops@),
{
    let mut r: Vec<MapOperation> = Vec::new();
    let n: usize = ops.len();
    let mut i: usize = 0;
    while i < n
        invariant
            n == ops@.len(),
            i <= n,
            r@.len() == i,
            forall|j: int| 0 <= j < i ==> r@[j]@ == ops@[j]@,
        decreases n - i,
    {
        r.push(ops[i].duplicate());
        i = i + 1;
    }
    assert(ops_view(r@) =~= ops_view(ops@));
    r
}

/// An ordered batch of operations plus the author that issued them.
///
/// A mutation is built by a caller and applied atomically: replaying its
/// operations strictly in order against a map version produces the next
/// version.
pub struct Mutation {
    pub author: Vec<u8>,
    pub operations: Vec<MapOperation>,
}

impl Mutation {
    /// The author's identity, as supplied to [`Mutation::new`].
    pub open spec fn author_view(self) -> Seq<u8> {
        self.author@
    }

    /// The views of the batched operations, in order.
    pub open spec fn ops(self) -> Seq<OpView> {
        ops_view(self.operations@)
    }

    /// A fresh mutation with no operations, authored by `author`.
    pub fn new(author: Vec<u8>) -> (r: Mutation)
        ensures
            r.author_view() == author@,
            r.ops() == Seq::<OpView>::empty(),
    {
        let r = Mutation { author, operations: Vec::new() };
        proof {
            assert(r.ops() =~= Seq::<OpView>::empty());
        }
        r
    }

    /// Append an operation binding `key` to `value`.
    pub fn add(&mut self, key: Vec<u8>, value: Vec<u8>)
        ensures
            final(self).author_view() == old(self).author_view(),
            final(self).ops() == old(self).ops().push(
                OpView::Add { key: key@, value: value@ },
            ),
    {
        self.operations.push(MapOperation::Add { key, value });
        proof {
            assert(self.ops() =~= old(self).ops().push(
                OpView::Add { key: key@, value: value@ },
            ));
        }
    }

    /// Append an operation unbinding `key`.
    pub fn remove(&mut self, key: Vec<u8>)
        ensures
            final(self).author_view() == old(self).author_view(),
            final(self).ops() == old(self).ops().push(OpView::Remove { key: key@ }),
    {
        self.operations.push(MapOperation::Remove { key });
        proof {
            assert(self.ops() =~= old(self).ops().push(OpView::Remove { key: key@ }));
        }
    }

    /// The author's identity.
    pub fn did(&self) -> (r: &Vec<u8>)
        ensures
            r@ == self.author_view(),
    {
        &self.author
    }

    /// The batched operations, in order.
    pub fn changes(&self) -> (r: &Vec<MapOperation>)
        ensures
            ops_view(r@) == self.ops(),
    {
        &self.operations
    }
}

} // verus!
