use vstd::prelude::*;
use crate::block::{entries_view, Block, BlockView, EntryView, LogView, TrieEntry};
use crate::ids::content_id_of;
use crate::ops::{ops_view, MapOperation, OpView};

verus! {

/// Byte `k` (counting from the least significant) of `n` in little-endian
/// order.
pub open spec fn le_byte(n: u64, k: u64) -> u8 {
    ((n >> (8 * k)) & 0xff) as u8
}

/// The eight little-endian bytes of `n`.
pub open spec fn u64_le(n: u64) -> Seq<u8> {
    seq![
        le_byte(n, 0),
        le_byte(n, 1),
        le_byte(n, 2),
        le_byte(n, 3),
        le_byte(n, 4),
        le_byte(n, 5),
        le_byte(n, 6),
        le_byte(n, 7),
    ]
}

/// A length-prefixed byte string.
pub open spec fn enc_bytes(b: Seq<u8>) -> Seq<u8> {
    u64_le(b.len() as u64) + b
}

/// One encoded operation: a tag byte, then its length-prefixed fields.
pub open spec fn enc_op(op: OpView) -> Seq<u8> {
    match op {
        OpView::Add { key, value } => seq![0u8] + enc_bytes(key) + enc_bytes(value),
        OpView::Remove { key } => seq![1u8] + enc_bytes(key),
    }
}

/// The concatenation of the encodings of `s`, in order.
pub open spec fn enc_ops(s: Seq<OpView>) -> Seq<u8>
    decreases s.len(),
{
    if s.len() == 0 {
        Seq::empty()
    } else {
        enc_op(s[0]) + enc_ops(s.drop_first())
    }
}

/// One encoded trie entry: the key, then the value identifier.
pub open spec fn enc_entry(e: EntryView) -> Seq<u8> {
    enc_bytes(e.key) + enc_bytes(e.value_id)
}

/// The concatenation of the encodings of `s`, in order.
pub open spec fn enc_entries(s: Seq<EntryView>) -> Seq<u8>
    decreases s.len(),
{
    if s.len() == 0 {
        Seq::empty()
    } else {
        enc_entry(s[0]) + enc_entries(s.drop_first())
    }
}

/// An optional identifier: a presence byte, then the identifier when present.
pub open spec fn enc_opt_id(o: Option<Seq<u8>>) -> Seq<u8> {
    match o {
        None => seq![0u8],
        Some(id) => seq![1u8] + enc_bytes(id),
    }
}

/// The canonical bytes of a block: a tag byte, then the block's fields. Two
/// blocks with equal views always encode to equal bytes.
pub open spec fn enc_block(b: BlockView) -> Seq<u8> {
    match b {
        BlockView::Raw(x) => seq![0u8] + enc_bytes(x),
        BlockView::Trie(es) => seq![1u8] + u64_le(es.len() as u64) + enc_entries(es),
        BlockView::Log(l) => seq![2u8] + enc_bytes(l.author) + enc_opt_id(l.parent) + u64_le(
            l.operations.len() as u64,
        ) + enc_ops(l.operations),
        BlockView::Root(r) => seq![3u8] + enc_bytes(r.hamt) + enc_bytes(r.changelog),
    }
}

/// The identifier of a block: the digest of its canonical bytes.
pub open spec fn block_id(b: BlockView) -> Seq<u8> {
    content_id_of(enc_block(b))
}

/// Append the eight little-endian bytes of `n`.
fn push_u64(buf: &mut Vec<u8>, n: u64)
    ensures
        final(buf)@ == old(buf)@ + u64_le(n),
{
    buf.push(((n >> (8 * 0)) & 0xff) as u8);
    buf.push(((n >> (8 * 1)) & 0xff) as u8);
    buf.push(((n >> (8 * 2)) & 0xff) as u8);
    buf.push(((n >> (8 * 3)) & 0xff) as u8);
    buf.push(((n >> (8 * 4)) & 0xff) as u8);
    buf.push(((n >> (8 * 5)) & 0xff) as u8);
    buf.push(((n >> (8 * 6)) & 0xff) as u8);
    buf.push(((n >> (8 * 7)) & 0xff) as u8);
    assert(buf@ =~= old(buf)@ + u64_le(n));
}

/// Append the length-prefixed bytes of `b`.
fn push_bytes(buf: &mut Vec<u8>, b: &Vec<u8>)
    ensures
        final(buf)@ == old(buf)@ + enc_bytes(b@),
{
    push_u64(buf, b.len() as u64);
    let n: usize = b.len();
    let mut i: usize = 0;
    while i < n
        invariant
            n == b@.len(),
            i <= n,
            buf@ == old(buf)@ + u64_le(b@.len() as u64) + b@.take(i as int),
        decreases n - i,
    {
        buf.push(b[i]);
        proof {
            assert(b@.take(i + 1 as int) =~= b@.take(i as int).push(b@[i as int]));
            assert(buf@ =~= old(buf)@ + u64_le(b@.len() as u64) + b@.take(i + 1 as int));
        }
        i = i + 1;
    }
    assert(b@.take(n as int) =~= b@);
    assert(buf@ =~= old(buf)@ + enc_bytes(b@));
}

/// Append the tagged encoding of one operation.
fn push_op(buf: &mut Vec<u8>, op: &MapOperation)
    ensures
        final(buf)@ == old(buf)@ + enc_op(op@),
{
    match op {
        MapOperation::Add { key, value } => {
            buf.push(0u8);
            push_bytes(buf, key);
            push_bytes(buf, value);
            assert(buf@ =~= old(buf)@ + enc_op(op@));
        },
        MapOperation::Remove { key } => {
            buf.push(1u8);
            push_bytes(buf, key);
            assert(buf@ =~= old(buf)@ + enc_op(op@));
        },
    }
}

/// Append the encodings of all operations, in order.
fn push_ops(buf: &mut Vec<u8>, ops: &Vec<MapOperation>)
    ensures
        final(buf)@ == old(buf)@ + enc_ops(ops_view(ops@)),
{
    let ghost ov = ops_view(ops@);
    proof {
        assert(ov.skip(0) =~= ov);
    }
    let n: usize = ops.len();
    let mut i: usize = 0;
    while i < n
        invariant
            n == ops@.len(),
            ov == ops_view(ops@),
            i <= n,
            buf@ + enc_ops(ov.skip(i as int)) == old(buf)@ + enc_ops(ov),
        decreases n - i,
    {
        push_op(buf, &ops[i]);
        proof {
            assert(ov.skip(i as int).len() != 0);
            assert(ov.skip(i as int)[0] == ov[i as int]);
            assert(ov.skip(i as int).drop_first() =~= ov.skip(i + 1 as int));
            assert(enc_ops(ov.skip(i as int)) == enc_op(ov[i as int]) + enc_ops(
                ov.skip(i + 1 as int),
            ));
            assert(buf@ + enc_ops(ov.skip(i + 1 as int)) =~= old(buf)@ + enc_ops(ov));
        }
        i = i + 1;
    }
    proof {
        assert(ov.skip(n as int) =~= Seq::<OpView>::empty());
        assert(buf@ =~= buf@ + enc_ops(ov.skip(n as int)));
    }
}

/// Append the encodings of all trie entries, in order.
fn push_entries(buf: &mut Vec<u8>, entries: &Vec<TrieEntry>)
    ensures
        final(buf)@ == old(buf)@ + enc_entries(entries_view(entries@)),
{
    let ghost ev = entries_view(entries@);
    proof {
        assert(ev.skip(0) =~= ev);
    }
    let n: usize = entries.len();
    let mut i: usize = 0;
    while i < n
        invariant
            n == entries@.len(),
            ev == entries_view(entries@),
            i <= n,
            buf@ + enc_entries(ev.skip(i as int)) == old(buf)@ + enc_entries(ev),
        decreases n - i,
    {
        push_bytes(buf, &entries[i].key);
        push_bytes(buf, entries[i].value_id.as_bytes());
        proof {
            assert(ev.skip(i as int).len() != 0);
            assert(ev.skip(i as int)[0] == ev[i as int]);
            assert(ev.skip(i as int).drop_first() =~= ev.skip(i + 1 as int));
            assert(enc_entries(ev.skip(i as int)) == enc_entry(ev[i as int]) + enc_entries(
                ev.skip(i + 1 as int),
            ));
            assert(buf@ + enc_entries(ev.skip(i + 1 as int)) =~= old(buf)@ + enc_entries(ev));
        }
        i = i + 1;
    }
    proof {
        assert(ev.skip(n as int) =~= Seq::<EntryView>::empty());
        assert(buf@ =~= buf@ + enc_entries(ev.skip(n as int)));
    }
}

/// The canonical bytes of `b`, as [`enc_block`] describes them.
pub fn encode_block(b: &Block) -> (r: Vec<u8>)
    ensures
        r@ == enc_block(b@),
{
    let mut buf: Vec<u8> = Vec::new();
    match b {
        Block::Raw(x) => {
            buf.push(0u8);
            push_bytes(&mut buf, x);
            assert(buf@ =~= enc_block(b@));
        },
        Block::Trie(entries) => {
            buf.push(1u8);
            push_u64(&mut buf, entries.len() as u64);
            push_entries(&mut buf, entries);
            assert(entries_view(entries@).len() == entries@.len());
            assert(buf@ =~= enc_block(b@));
        },
        Block::Log(entry) => {
            buf.push(2u8);
            push_bytes(&mut buf, &entry.author);
            match &entry.parent {
                None => {
                    buf.push(0u8);
                },
                Some(id) => {
                    buf.push(1u8);
                    push_bytes(&mut buf, id.as_bytes());
                },
            }
            push_u64(&mut buf, entry.operations.len() as u64);
            push_ops(&mut buf, &entry.operations);
            assert(ops_view(entry.operations@).len() == entry.operations@.len());
            assert(buf@ =~= enc_block(b@));
        },
        Block::Root(root) => {
            buf.push(3u8);
            push_bytes(&mut buf, root.hamt.as_bytes());
            push_bytes(&mut buf, root.changelog.as_bytes());
            assert(buf@ =~= enc_block(b@));
        },
    }
    buf
}

} // verus!
