use vstd::prelude::*;
use crate::block::{dup_entries, entries_view, EntryView, TrieEntry};
use crate::ids::{bytes_eq, Id};

verus! {

/// The value identifier bound to `k` in `s`, searching front to back.
pub open spec fn lookup_entries(s: Seq<EntryView>, k: Seq<u8>) -> Option<Seq<u8>>
    decreases s.len(),
{
    if s.len() == 0 {
        None
    } else if s[0].key == k {
        Some(s[0].value_id)
    } else {
        lookup_entries(s.drop_first(), k)
    }
}

/// `s` with `k` bound to `vid`: the existing entry for `k` is rewritten in
/// place, or a new entry is appended when `k` is absent.
pub open spec fn set_entries(s: Seq<EntryView>, k: Seq<u8>, vid: Seq<u8>) -> Seq<EntryView>
    decreases s.len(),
{
    if s.len() == 0 {
        seq![EntryView { key: k, value_id: vid }]
    } else if s[0].key == k {
        seq![EntryView { key: k, value_id: vid }] + s.drop_first()
    } else {
        seq![s[0]] + set_entries(s.drop_first(), k, vid)
    }
}

/// `s` with the first entry for `k` removed; `s` itself when `k` is absent.
pub open spec fn delete_entries(s: Seq<EntryView>, k: Seq<u8>) -> Seq<EntryView>
    decreases s.len(),
{
    if s.len() == 0 {
        s
    } else if s[0].key == k {
        s.drop_first()
    } else {
        seq![s[0]] + delete_entries(s.drop_first(), k)
    }
}

/// No two entries bind the same key.
pub open spec fn unique_keys(s: Seq<EntryView>) -> bool {
    forall|i: int, j: int| 0 <= i < j < s.len() ==> s[i].key != s[j].key
}

/// The in-memory working form of one version's key/value bindings: each key
/// is bound to the identifier of its value block. This is the persistent
/// associative container that a map version's trie block materializes into.
pub struct Trie {
    pub entries: Vec<TrieEntry>,
}

impl View for Trie {
    type V = Seq<EntryView>;

    open spec fn view(&self) -> Seq<EntryView> {
        entries_view(self.entries@)
    }
}

impl Trie {
    /// A trie with no bindings.
    pub fn new() -> (r: Trie)
        ensures
            r@ == Seq::<EntryView>::empty(),
    {
        let r = Trie { entries: Vec::new() };
        proof {
            assert(r@ =~= Seq::<EntryView>::empty());
        }
        r
    }

    /// A trie over the given entries.
    pub fn from_entries(entries: Vec<TrieEntry>) -> (r: Trie)
        ensures
            r@ == entries_view(entries@),
    {
        Trie { entries }
    }

    /// The bindings, in trie order.
    pub fn entries(&self) -> (r: &Vec<TrieEntry>)
        ensures
            entries_view(r@) == self@,
    {
        &self.entries
    }

    /// The bindings, in trie order, consuming the trie.
    pub fn into_entries(self) -> (r: Vec<TrieEntry>)
        ensures
            entries_view(r@) == self@,
    {
        self.entries
    }

    /// The position of the first entry for `key`, when one exists.
    fn position_of(&self, key: &Vec<u8>) -> (r: Option<usize>)
        ensures
            match r {
                Some(i) => i < self@.len() && self@[i as int].key == key@ && forall|j: int|
                    0 <= j < i ==> self@[j].key != key@,
                None => forall|j: int| 0 <= j < self@.len() ==> self@[j].key != key@,
            },
    {
        let n: usize = self.entries.len();
        let mut i: usize = 0;
        while i < n
            invariant
                n == self.entries@.len(),
                i <= n,
                forall|j: int| 0 <= j < i ==> self@[j].key != key@,
            decreases n - i,
        {
            if bytes_eq(&self.entries[i].key, key) {
                return Some(i);
            }
            i = i + 1;
        }
        None
    }

    /// The value identifier bound to `key`, when one exists.
    pub fn get(&self, key: &Vec<u8>) -> (r: Option<&Id>)
        ensures
            match r {
                Some(id) => lookup_entries(self@, key@) == Some(id@),
                None => lookup_entries(self@, key@) is None,
            },
    {
        match self.position_of(key) {
            Some(i) => {
                proof {
                    lemma_lookup_at(self@, key@, i as int);
                }
                Some(&self.entries[i].value_id)
            },
            None => {
                proof {
                    lemma_lookup_absent(self@, key@);
                }
                None
            },
        }
    }

    /// Bind `key` to `value_id`, overwriting any existing binding.
    pub fn set(&mut self, key: Vec<u8>, value_id: Id)
        ensures
            final(self)@ == set_entries(old(self)@, key@, value_id@),
            unique_keys(old(self)@) ==> unique_keys(final(self)@),
    {
        let ghost pre = self@;
        match self.position_of(&key) {
            Some(i) => {
                proof {
                    lemma_set_at(pre, key@, value_id@, i as int);
                }
                self.entries.set(i, TrieEntry { key, value_id });
                proof {
                    assert(self@ =~= pre.update(
                        i as int,
                        EntryView { key: key@, value_id: value_id@ },
                    ));
                    assert(unique_keys(pre) ==> unique_keys(self@)) by {
                        if unique_keys(pre) {
                            assert(forall|a: int, b: int|
                                0 <= a < b < self@.len() ==> self@[a].key != self@[b].key) by {
                                assert(forall|a: int| 0 <= a < self@.len() && a != i ==> self@[a]
                                    == pre[a]);
                                assert(self@[i as int].key == pre[i as int].key);
                            }
                        }
                    }
                }
            },
            None => {
                proof {
                    lemma_set_absent(pre, key@, value_id@);
                }
                self.entries.push(TrieEntry { key, value_id });
                proof {
                    assert(self@ =~= pre.push(EntryView { key: key@, value_id: value_id@ }));
                }
            },
        }
    }

    /// Unbind `key`; a no-op when `key` is absent.
    pub fn delete(&mut self, key: &Vec<u8>)
        ensures
            final(self)@ == delete_entries(old(self)@, key@),
            unique_keys(old(self)@) ==> unique_keys(final(self)@),
    {
        let ghost pre = self@;
        match self.position_of(key) {
            Some(i) => {
                proof {
                    lemma_delete_at(pre, key@, i as int);
                }
                self.entries.remove(i);
                proof {
                    assert(self@ =~= pre.remove(i as int));
                    assert(unique_keys(pre) ==> unique_keys(self@)) by {
                        if unique_keys(pre) {
                            assert(forall|a: int, b: int|
                                0 <= a < b < self@.len() ==> self@[a].key != self@[b].key) by {
                                assert(forall|a: int| 0 <= a < self@.len() ==> self@[a] == (
                                if a < i {
                                    pre[a]
                                } else {
                                    pre[a + 1]
                                }));
                            }
                        }
                    }
                }
            },
            None => {
                proof {
                    lemma_delete_absent(pre, key@);
                }
            },
        }
    }

    /// An owned copy of this trie.
    pub fn duplicate(&self) -> (r: Trie)
        ensures
            r@ == self@,
    {
        Trie { entries: dup_entries(&self.entries) }
    }
}

/// When the first entry for `k` stands at position `i`, lookup returns its
/// value identifier.
pub proof fn lemma_lookup_at(s: Seq<EntryView>, k: Seq<u8>, i: int)
    requires
        0 <= i < s.len(),
        s[i].key == k,
        forall|j: int| 0 <= j < i ==> s[j].key != k,
    ensures
        lookup_entries(s, k) == Some(s[i].value_id),
    decreases i,
{
    if i > 0 {
        lemma_lookup_at(s.drop_first(), k, i - 1);
    }
}

/// When no entry binds `k`, lookup returns nothing.
pub proof fn lemma_lookup_absent(s: Seq<EntryView>, k: Seq<u8>)
    requires
        forall|j: int| 0 <= j < s.len() ==> s[j].key != k,
    ensures
        lookup_entries(s, k) is None,
    decreases s.len(),
{
    if s.len() > 0 {
        lemma_lookup_absent(s.drop_first(), k);
    }
}

/// When the first entry for `k` stands at position `i`, `set_entries`
/// rewrites exactly that position.
pub proof fn lemma_set_at(s: Seq<EntryView>, k: Seq<u8>, vid: Seq<u8>, i: int)
    requires
        0 <= i < s.len(),
        s[i].key == k,
        forall|j: int| 0 <= j < i ==> s[j].key != k,
    ensures
        set_entries(s, k, vid) == s.update(i, EntryView { key: k, value_id: vid }),
    decreases i,
{
    if i == 0 {
        assert(set_entries(s, k, vid) =~= s.update(0, EntryView { key: k, value_id: vid }));
    } else {
        lemma_set_at(s.drop_first(), k, vid, i - 1);
        assert(set_entries(s, k, vid) =~= s.update(i, EntryView { key: k, value_id: vid }));
    }
}

/// When no entry binds `k`, `set_entries` appends a fresh entry.
pub proof fn lemma_set_absent(s: Seq<EntryView>, k: Seq<u8>, vid: Seq<u8>)
    requires
        forall|j: int| 0 <= j < s.len() ==> s[j].key != k,
    ensures
        set_entries(s, k, vid) == s.push(EntryView { key: k, value_id: vid }),
    decreases s.len(),
{
    if s.len() == 0 {
        assert(set_entries(s, k, vid) =~= s.push(EntryView { key: k, value_id: vid }));
    } else {
        lemma_set_absent(s.drop_first(), k, vid);
        assert(set_entries(s, k, vid) =~= s.push(EntryView { key: k, value_id: vid }));
    }
}

/// When the first entry for `k` stands at position `i`, `delete_entries`
/// removes exactly that position.
pub proof fn lemma_delete_at(s: Seq<EntryView>, k: Seq<u8>, i: int)
    requires
        0 <= i < s.len(),
        s[i].key == k,
        forall|j: int| 0 <= j < i ==> s[j].key != k,
    ensures
        delete_entries(s, k) == s.remove(i),
    decreases i,
{
    if i == 0 {
        assert(delete_entries(s, k) =~= s.remove(0));
    } else {
        lemma_delete_at(s.drop_first(), k, i - 1);
        assert(delete_entries(s, k) =~= s.remove(i));
    }
}

/// When no entry binds `k`, `delete_entries` changes nothing.
pub proof fn lemma_delete_absent(s: Seq<EntryView>, k: Seq<u8>)
    requires
        forall|j: int| 0 <= j < s.len() ==> s[j].key != k,
    ensures
        delete_entries(s, k) == s,
    decreases s.len(),
{
    if s.len() > 0 {
        lemma_delete_absent(s.drop_first(), k);
        assert(delete_entries(s, k) =~= s);
    }
}

/// After binding `k`, looking `k` up yields the new value identifier.
pub proof fn lemma_lookup_set_same(s: Seq<EntryView>, k: Seq<u8>, vid: Seq<u8>)
    ensures
        lookup_entries(set_entries(s, k, vid), k) == Some(vid),
    decreases s.len(),
{
    if s.len() != 0 && s[0].key != k {
        lemma_lookup_set_same(s.drop_first(), k, vid);
        assert((seq![s[0]] + set_entries(s.drop_first(), k, vid)).drop_first() =~= set_entries(
            s.drop_first(),
            k,
            vid,
        ));
    } else if s.len() != 0 {
        assert((seq![EntryView { key: k, value_id: vid }] + s.drop_first())[0] == EntryView {
            key: k,
            value_id: vid,
        });
    }
}

/// Binding `k` leaves every other key's binding unchanged.
pub proof fn lemma_lookup_set_other(s: Seq<EntryView>, k: Seq<u8>, vid: Seq<u8>, k2: Seq<u8>)
    requires
        k2 != k,
    ensures
        lookup_entries(set_entries(s, k, vid), k2) == lookup_entries(s, k2),
    decreases s.len(),
{
    if s.len() == 0 {
        let t = set_entries(s, k, vid);
        assert(t.len() == 1 && t[0].key == k);
        assert(t.drop_first().len() == 0);
        assert(lookup_entries(t.drop_first(), k2) is None);
    } else if s[0].key == k {
        let t = seq![EntryView { key: k, value_id: vid }] + s.drop_first();
        assert(t.drop_first() =~= s.drop_first());
    } else {
        lemma_lookup_set_other(s.drop_first(), k, vid, k2);
        let t = seq![s[0]] + set_entries(s.drop_first(), k, vid);
        assert(t.drop_first() =~= set_entries(s.drop_first(), k, vid));
    }
}

/// After unbinding `k` from a trie with unique keys, `k` is absent.
pub proof fn lemma_lookup_delete_same(s: Seq<EntryView>, k: Seq<u8>)
    requires
        unique_keys(s),
    ensures
        lookup_entries(delete_entries(s, k), k) is None,
    decreases s.len(),
{
    if s.len() != 0 {
        if s[0].key == k {
            assert(forall|j: int|
                0 <= j < s.drop_first().len() ==> s.drop_first()[j] == s[j + 1]);
            lemma_lookup_absent(s.drop_first(), k);
        } else {
            assert(unique_keys(s.drop_first())) by {
                assert(forall|j: int|
                    0 <= j < s.drop_first().len() ==> s.drop_first()[j] == s[j + 1]);
            }
            lemma_lookup_delete_same(s.drop_first(), k);
            let t = seq![s[0]] + delete_entries(s.drop_first(), k);
            assert(t.drop_first() =~= delete_entries(s.drop_first(), k));
        }
    }
}

/// Unbinding `k` leaves every other key's binding unchanged.
pub proof fn lemma_lookup_delete_other(s: Seq<EntryView>, k: Seq<u8>, k2: Seq<u8>)
    requires
        k2 != k,
    ensures
        lookup_entries(delete_entries(s, k), k2) == lookup_entries(s, k2),
    decreases s.len(),
{
    if s.len() != 0 {
        if s[0].key == k {
            assert(delete_entries(s, k) == s.drop_first());
        } else {
            lemma_lookup_delete_other(s.drop_first(), k, k2);
            let t = seq![s[0]] + delete_entries(s.drop_first(), k);
            assert(t.drop_first() =~= delete_entries(s.drop_first(), k));
        }
    }
}

/// Some entry of `s` binds `k`.
pub open spec fn has_key(s: Seq<EntryView>, k: Seq<u8>) -> bool {
    exists|m: int| 0 <= m < s.len() && (#[trigger] s[m]).key == k
}

/// Every key of `set_entries(s, k, vid)` is `k` or a key of `s`.
pub proof fn lemma_set_keys(s: Seq<EntryView>, k: Seq<u8>, vid: Seq<u8>)
    ensures
        forall|j: int| 0 <= j < set_entries(s, k, vid).len() ==> ((#[trigger] set_entries(
            s,
            k,
            vid,
        )[j]).key == k || has_key(s, set_entries(s, k, vid)[j].key)),
    decreases s.len(),
{
    let t = set_entries(s, k, vid);
    if s.len() == 0 {
    } else if s[0].key == k {
        assert forall|j: int| 0 <= j < t.len() implies ((#[trigger] t[j]).key == k || has_key(
            s,
            t[j].key,
        )) by {
            if j >= 1 {
                assert(t[j] == s[j]);
            }
        }
    } else {
        lemma_set_keys(s.drop_first(), k, vid);
        let tt = set_entries(s.drop_first(), k, vid);
        assert forall|j: int| 0 <= j < t.len() implies ((#[trigger] t[j]).key == k || has_key(
            s,
            t[j].key,
        )) by {
            if j == 0 {
                assert(t[0] == s[0]);
                assert(s[0].key == t[0].key);
            } else {
                assert(t[j] == tt[j - 1]);
                if tt[j - 1].key != k {
                    let m = choose|m: int|
                        0 <= m < s.drop_first().len() && (#[trigger] s.drop_first()[m]).key == tt[j - 1].key;
                    assert(s[m + 1] == s.drop_first()[m]);
                }
            }
        }
    }
}

/// `set_entries` preserves key uniqueness.
pub proof fn lemma_set_unique(s: Seq<EntryView>, k: Seq<u8>, vid: Seq<u8>)
    requires
        unique_keys(s),
    ensures
        unique_keys(set_entries(s, k, vid)),
    decreases s.len(),
{
    let t = set_entries(s, k, vid);
    if s.len() == 0 {
    } else if s[0].key == k {
        assert(forall|j: int| 1 <= j < t.len() ==> t[j] == s[j]);
        assert(t[0].key == k);
        assert forall|a: int, b: int| 0 <= a < b < t.len() implies t[a].key != t[b].key by {
            if a >= 1 {
                assert(t[a] == s[a] && t[b] == s[b]);
            } else {
                assert(t[b] == s[b]);
            }
        }
    } else {
        assert(unique_keys(s.drop_first())) by {
            assert(forall|j: int| 0 <= j < s.drop_first().len() ==> s.drop_first()[j] == s[j + 1]);
        }
        lemma_set_unique(s.drop_first(), k, vid);
        lemma_set_keys(s.drop_first(), k, vid);
        let tt = set_entries(s.drop_first(), k, vid);
        assert forall|a: int, b: int| 0 <= a < b < t.len() implies t[a].key != t[b].key by {
            if a >= 1 {
                assert(t[a] == tt[a - 1] && t[b] == tt[b - 1]);
            } else {
                assert(t[0] == s[0]);
                assert(t[b] == tt[b - 1]);
                if tt[b - 1].key == k {
                } else {
                    assert(has_key(s.drop_first(), tt[b - 1].key));
                    let m = choose|m: int|
                        0 <= m < s.drop_first().len() && (#[trigger] s.drop_first()[m]).key == tt[b - 1].key;
                    assert(s.drop_first()[m] == s[m + 1]);
                    assert(s[0].key != s[m + 1].key);
                }
            }
        }
    }
}

/// Every key of `delete_entries(s, k)` is a key of `s`.
pub proof fn lemma_delete_keys(s: Seq<EntryView>, k: Seq<u8>)
    ensures
        forall|j: int| 0 <= j < delete_entries(s, k).len() ==> has_key(
            s,
            (#[trigger] delete_entries(s, k)[j]).key,
        ),
    decreases s.len(),
{
    let t = delete_entries(s, k);
    if s.len() == 0 {
    } else if s[0].key == k {
        assert forall|j: int| 0 <= j < t.len() implies has_key(s, (#[trigger] t[j]).key) by {
            assert(t[j] == s[j + 1]);
        }
    } else {
        lemma_delete_keys(s.drop_first(), k);
        let tt = delete_entries(s.drop_first(), k);
        assert forall|j: int| 0 <= j < t.len() implies has_key(s, (#[trigger] t[j]).key) by {
            if j == 0 {
                assert(t[0] == s[0]);
            } else {
                assert(t[j] == tt[j - 1]);
                let m = choose|m: int|
                    0 <= m < s.drop_first().len() && (#[trigger] s.drop_first()[m]).key == tt[j - 1].key;
                assert(s[m + 1] == s.drop_first()[m]);
            }
        }
    }
}

/// `delete_entries` preserves key uniqueness.
pub proof fn lemma_delete_unique(s: Seq<EntryView>, k: Seq<u8>)
    requires
        unique_keys(s),
    ensures
        unique_keys(delete_entries(s, k)),
    decreases s.len(),
{
    let t = delete_entries(s, k);
    if s.len() != 0 {
        assert(forall|j: int| 0 <= j < s.drop_first().len() ==> s.drop_first()[j] == s[j + 1]);
        assert(unique_keys(s.drop_first()));
        if s[0].key == k {
            assert forall|a: int, b: int| 0 <= a < b < t.len() implies t[a].key != t[b].key by {
                assert(t[a] == s[a + 1] && t[b] == s[b + 1]);
            }
        } else {
            lemma_delete_unique(s.drop_first(), k);
            lemma_delete_keys(s.drop_first(), k);
            let tt = delete_entries(s.drop_first(), k);
            assert forall|a: int, b: int| 0 <= a < b < t.len() implies t[a].key != t[b].key by {
                if a >= 1 {
                    assert(t[a] == tt[a - 1] && t[b] == tt[b - 1]);
                } else {
                    assert(t[0] == s[0]);
                    assert(t[b] == tt[b - 1]);
                    assert(has_key(s.drop_first(), tt[b - 1].key));
                    let m = choose|m: int|
                        0 <= m < s.drop_first().len() && (#[trigger] s.drop_first()[m]).key == tt[b - 1].key;
                    assert(s.drop_first()[m] == s[m + 1]);
                    assert(s[0].key != s[m + 1].key);
                }
            }
        }
    }
}

} // verus!
