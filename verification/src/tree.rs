//! An in-memory model of a directory tree: a finite map from relative paths
//! (byte strings) to file contents (byte strings).
//!
//! The update stages are verified against this model; the unverified shell
//! mirrors each verified mutation onto the real filesystem.

use vstd::prelude::*;

verus! {

/// One file of the tree: a relative path and its contents.
struct TreeEntry {
    path: Vec<u8>,
    data: Vec<u8>,
}

/// A file tree, viewed as a `Map` from relative paths to contents.
pub struct Tree {
    entries: Vec<TreeEntry>,
}

/// The contents stored beside the entry whose path is `k`, scanning from the
/// end of the entry list.
spec fn tree_lookup(s: Seq<TreeEntry>, k: Seq<u8>) -> Option<Seq<u8>>
    decreases s.len(),
{
    if s.len() == 0 {
        None
    } else if s.last().path@ == k {
        Some(s.last().data@)
    } else {
        tree_lookup(s.drop_last(), k)
    }
}

/// No two entries of `s` share a path.
spec fn entries_distinct(s: Seq<TreeEntry>) -> bool {
    forall|a: int, b: int| 0 <= a < b < s.len() ==> s[a].path@ != s[b].path@
}

/// With distinct paths, the lookup finds exactly the entry at index `i`.
proof fn lemma_lookup_found(s: Seq<TreeEntry>, k: Seq<u8>, i: int)
    requires
        entries_distinct(s),
        0 <= i < s.len(),
        s[i].path@ == k,
    ensures
        tree_lookup(s, k) == Some(s[i].data@),
    decreases s.len(),
{
    if s.last().path@ == k {
        if i < s.len() - 1 {
            assert(s[i].path@ == s[s.len() - 1].path@);
            assert(false);
        }
    } else {
        assert(i < s.len() - 1);
        assert(entries_distinct(s.drop_last())) by {
            assert forall|a: int, b: int|
                0 <= a < b < s.drop_last().len() implies s.drop_last()[a].path@
                != s.drop_last()[b].path@ by {
                assert(s.drop_last()[a] == s[a]);
                assert(s.drop_last()[b] == s[b]);
            }
        }
        assert(s.drop_last()[i] == s[i]);
        lemma_lookup_found(s.drop_last(), k, i);
    }
}

/// When no entry of `s` has path `k`, the lookup misses.
proof fn lemma_lookup_none(s: Seq<TreeEntry>, k: Seq<u8>)
    requires
        forall|i: int| 0 <= i < s.len() ==> s[i].path@ != k,
    ensures
        tree_lookup(s, k) is None,
    decreases s.len(),
{
    if s.len() > 0 {
        assert(s[s.len() - 1].path@ != k);
        assert forall|i: int|
            0 <= i < s.drop_last().len() implies s.drop_last()[i].path@ != k by {
            assert(s.drop_last()[i] == s[i]);
        }
        lemma_lookup_none(s.drop_last(), k);
    }
}

/// A successful lookup names some entry of `s`.
proof fn lemma_lookup_witness(s: Seq<TreeEntry>, k: Seq<u8>)
    requires
        tree_lookup(s, k) is Some,
    ensures
        exists|i: int| 0 <= i < s.len() && s[i].path@ == k,
    decreases s.len(),
{
    if s.last().path@ == k {
        assert(s[s.len() - 1].path@ == k);
    } else {
        lemma_lookup_witness(s.drop_last(), k);
        let i = choose|i: int| 0 <= i < s.drop_last().len() && s.drop_last()[i].path@ == k;
        assert(s[i].path@ == k);
    }
}

impl View for Tree {
    type V = Map<Seq<u8>, Seq<u8>>;

    closed spec fn view(&self) -> Map<Seq<u8>, Seq<u8>> {
        Map::new(
            |k: Seq<u8>| tree_lookup(self.entries@, k) is Some,
            |k: Seq<u8>| tree_lookup(self.entries@, k).unwrap(),
        )
    }
}

impl Tree {
    /// The paths of the entries, in insertion order.
    pub closed spec fn keys(&self) -> Seq<Seq<u8>> {
        self.entries@.map_values(|e: TreeEntry| e.path@)
    }

    /// Well-formed: no two entries share a path.
    pub closed spec fn wf(&self) -> bool {
        forall|i: int, j: int|
            0 <= i < j < self.keys().len() ==> self.keys()[i] != self.keys()[j]
    }

    /// The view is the `Map::new` over the lookup, spelled out so that the
    /// map axioms apply.
    proof fn lemma_view_char(&self, k: Seq<u8>)
        ensures
            self@.contains_key(k) <==> (tree_lookup(self.entries@, k) is Some),
            (tree_lookup(self.entries@, k) is Some) ==> self@[k] == tree_lookup(
                self.entries@,
                k,
            ).unwrap(),
    {
        assert(self@ == Map::new(
            |k2: Seq<u8>| tree_lookup(self.entries@, k2) is Some,
            |k2: Seq<u8>| tree_lookup(self.entries@, k2).unwrap(),
        ));
        if tree_lookup(self.entries@, k) is Some {
            assert(Map::new(
                |k2: Seq<u8>| tree_lookup(self.entries@, k2) is Some,
                |k2: Seq<u8>| tree_lookup(self.entries@, k2).unwrap(),
            )[k] == tree_lookup(self.entries@, k).unwrap());
        }
    }

    /// `wf` says the same of the entries as of the keys.
    proof fn lemma_wf_distinct(&self)
        requires
            self.wf(),
        ensures
            entries_distinct(self.entries@),
    {
        assert forall|a: int, b: int|
            0 <= a < b < self.entries@.len() implies self.entries@[a].path@
            != self.entries@[b].path@ by {
            assert(self.keys()[a] == self.entries@[a].path@);
            assert(self.keys()[b] == self.entries@[b].path@);
        }
    }

    /// The entry at index `i` is in the map, with its own contents.
    proof fn lemma_entry_in_view(&self, i: int)
        requires
            self.wf(),
            0 <= i < self.entries@.len(),
        ensures
            self@.contains_key(self.entries@[i].path@),
            self@[self.entries@[i].path@] == self.entries@[i].data@,
    {
        let k = self.entries@[i].path@;
        self.lemma_wf_distinct();
        lemma_lookup_found(self.entries@, k, i);
        self.lemma_view_char(k);
    }

    /// A path occurring nowhere in `keys()` is not in the map.
    proof fn lemma_absent_from_view(&self, k: Seq<u8>)
        requires
            forall|i: int| 0 <= i < self.keys().len() ==> self.keys()[i] != k,
        ensures
            !self@.contains_key(k),
    {
        assert forall|i: int|
            0 <= i < self.entries@.len() implies self.entries@[i].path@ != k by {
            assert(self.keys()[i] == self.entries@[i].path@);
        }
        lemma_lookup_none(self.entries@, k);
        self.lemma_view_char(k);
    }

    /// A path is in the map exactly when it occurs among `keys()`.
    pub proof fn lemma_keys_complete(&self)
        requires
            self.wf(),
        ensures
            forall|k: Seq<u8>| #[trigger] self@.contains_key(k) <==> self.keys().contains(k),
            forall|i: int|
                0 <= i < self.keys().len() ==> #[trigger] self@.contains_key(self.keys()[i]),
    {
        assert forall|i: int| 0 <= i < self.keys().len() implies #[trigger] self@.contains_key(
            self.keys()[i],
        ) by {
            self.lemma_entry_in_view(i);
        }
        assert forall|k: Seq<u8>| #[trigger] self@.contains_key(k) <==> self.keys().contains(
            k,
        ) by {
            if self.keys().contains(k) {
                let i = choose|i: int| 0 <= i < self.keys().len() && self.keys()[i] == k;
                assert(self.keys()[i] == self.entries@[i].path@);
                self.lemma_entry_in_view(i);
            }
            if self@.contains_key(k) {
                self.lemma_view_char(k);
                lemma_lookup_witness(self.entries@, k);
                let i = choose|i: int|
                    0 <= i < self.entries@.len() && self.entries@[i].path@ == k;
                assert(self.keys()[i] == k);
                assert(self.keys().contains(k));
            }
        }
    }

    /// An empty tree.
    pub fn new() -> (t: Tree)
        ensures
            t.wf(),
            t@ == Map::<Seq<u8>, Seq<u8>>::empty(),
            t.keys() == Seq::<Seq<u8>>::empty(),
    {
        let t = Tree { entries: Vec::new() };
        proof {
            assert(t.keys() =~= Seq::<Seq<u8>>::empty());
            assert forall|k: Seq<u8>| !(#[trigger] t@.contains_key(k)) by {
                t.lemma_absent_from_view(k);
            }
            assert(t@ =~= Map::<Seq<u8>, Seq<u8>>::empty());
        }
        t
    }

    /// The number of files in the tree.
    pub fn len(&self) -> (n: usize)
        ensures
            n == self.keys().len(),
    {
        self.entries.len()
    }

    /// The index of the entry with the given path, if any.
    fn find(&self, path: &[u8]) -> (r: Option<usize>)
        ensures
            match r {
                Some(i) => i < self.entries@.len() && self.entries@[i as int].path@ == path@
                    && self.keys()[i as int] == path@,
                None => forall|i: int| 0 <= i < self.keys().len() ==> self.keys()[i] != path@,
            },
    {
        let mut i: usize = 0;
        while i < self.entries.len()
            invariant
                i <= self.entries.len(),
                forall|j: int| 0 <= j < i ==> self.keys()[j] != path@,
            decreases self.entries.len() - i,
        {
            proof {
                assert(self.keys()[i as int] == self.entries@[i as int].path@);
            }
            if crate::bytes::bytes_eq(self.entries[i].path.as_slice(), path) {
                return Some(i);
            }
            i = i + 1;
        }
        None
    }

    /// Whether a file exists at `path`.
    pub fn contains(&self, path: &[u8]) -> (r: bool)
        requires
            self.wf(),
        ensures
            r == self@.contains_key(path@),
    {
        let r = self.find(path);
        proof {
            match r {
                Some(i) => self.lemma_entry_in_view(i as int),
                None => self.lemma_absent_from_view(path@),
            }
        }
        r.is_some()
    }

    /// The contents of the file at `path`, if it exists.
    pub fn get(&self, path: &[u8]) -> (r: Option<&Vec<u8>>)
        requires
            self.wf(),
        ensures
            match r {
                Some(d) => self@.contains_key(path@) && d@ == self@[path@],
                None => !self@.contains_key(path@),
            },
    {
        match self.find(path) {
            Some(i) => {
                proof {
                    self.lemma_entry_in_view(i as int);
                }
                Some(&self.entries[i].data)
            },
            None => {
                proof {
                    self.lemma_absent_from_view(path@);
                }
                None
            },
        }
    }

    /// The path of the entry at index `i`; with `data_at`, this enumerates the tree.
    pub fn path_at(&self, i: usize) -> (r: &Vec<u8>)
        requires
            i < self.keys().len(),
        ensures
            r@ == self.keys()[i as int],
    {
        proof {
            assert(self.keys()[i as int] == self.entries@[i as int].path@);
        }
        &self.entries[i].path
    }

    /// The contents of the entry at index `i`.
    pub fn data_at(&self, i: usize) -> (r: &Vec<u8>)
        requires
            self.wf(),
            i < self.keys().len(),
        ensures
            self@.contains_key(self.keys()[i as int]),
            r@ == self@[self.keys()[i as int]],
    {
        proof {
            self.lemma_entry_in_view(i as int);
        }
        &self.entries[i].data
    }

    /// Creates or overwrites the file at `path` with `data`.
    pub fn insert(&mut self, path: Vec<u8>, data: Vec<u8>)
        requires
            old(self).wf(),
        ensures
            final(self).wf(),
            final(self)@ == old(self)@.insert(path@, data@),
    {
        match self.find(path.as_slice()) {
            Some(i) => {
                let ghost pre = *self;
                self.entries[i] = TreeEntry { path, data };
                proof {
                    let n = self.entries@.len() as int;
                    assert(self.keys() =~= pre.keys()) by {
                        assert forall|j: int|
                            0 <= j < n implies self.keys()[j] == pre.keys()[j] by {
                            if j != i {
                                assert(self.entries@[j] == pre.entries@[j]);
                            } else {
                                assert(self.entries@[j].path@ == path@);
                                assert(pre.entries@[j].path@ == path@);
                            }
                        }
                    }
                    assert(self.wf());
                    self.lemma_insert_view(pre, i as int, path@, data@);
                }
            },
            None => {
                let ghost pre = *self;
                self.entries.push(TreeEntry { path, data });
                proof {
                    let n = pre.entries@.len() as int;
                    assert(forall|j: int|
                        0 <= j < n ==> self.entries@[j] == pre.entries@[j]);
                    assert(self.entries@[n].path@ == path@);
                    assert(self.wf()) by {
                        assert forall|a: int, b: int|
                            0 <= a < b < self.keys().len() implies self.keys()[a]
                            != self.keys()[b] by {
                            assert(self.keys()[a] == self.entries@[a].path@);
                            assert(self.keys()[b] == self.entries@[b].path@);
                            if b < n {
                                assert(pre.keys()[a] == pre.entries@[a].path@);
                                assert(pre.keys()[b] == pre.entries@[b].path@);
                                assert(pre.keys()[a] != pre.keys()[b]);
                            } else {
                                assert(pre.keys()[a] == pre.entries@[a].path@);
                                assert(pre.keys()[a] != path@);
                            }
                        }
                    }
                    self.lemma_insert_view(pre, n, path@, data@);
                }
            },
        }
    }

    /// After an in-place update or a push at index `i` carrying `(p, d)`, the
    /// view is the old view with `p` bound to `d`.
    proof fn lemma_insert_view(&self, pre: Tree, i: int, p: Seq<u8>, d: Seq<u8>)
        requires
            pre.wf(),
            self.wf(),
            0 <= i < self.entries@.len(),
            self.entries@[i].path@ == p,
            self.entries@[i].data@ == d,
            pre.entries@.len() <= self.entries@.len() <= pre.entries@.len() + 1,
            i < pre.entries@.len() ==> self.entries@.len() == pre.entries@.len()
                && pre.entries@[i].path@ == p,
            i == pre.entries@.len() ==> self.entries@.len() == pre.entries@.len() + 1,
            forall|j: int|
                0 <= j < self.entries@.len() && j != i ==> #[trigger] self.entries@[j]
                    == pre.entries@[j],
        ensures
            self@ == pre@.insert(p, d),
    {
        let m0 = pre@;
        let m1 = self@;
        assert forall|k: Seq<u8>| #[trigger] m1.contains_key(k) implies m0.insert(
            p,
            d,
        ).contains_key(k) by {
            if k != p {
                self.lemma_view_char(k);
                lemma_lookup_witness(self.entries@, k);
                let j = choose|i: int|
                    0 <= i < self.entries@.len() && self.entries@[i].path@ == k;
                assert(j != i);
                assert(pre.entries@[j].path@ == k);
                pre.lemma_entry_in_view(j);
            }
        }
        assert forall|k: Seq<u8>| #[trigger] m0.insert(p, d).contains_key(k) implies m1
            .contains_key(k) by {
            if k == p {
                self.lemma_entry_in_view(i);
            } else {
                assert(m0.contains_key(k));
                pre.lemma_view_char(k);
                lemma_lookup_witness(pre.entries@, k);
                let j = choose|i: int|
                    0 <= i < pre.entries@.len() && pre.entries@[i].path@ == k;
                assert(j != i);
                assert(self.entries@[j].path@ == k);
                self.lemma_entry_in_view(j);
            }
        }
        assert forall|k: Seq<u8>| m1.contains_key(k) implies m1[k] == m0.insert(p, d)[k] by {
            if k == p {
                self.lemma_entry_in_view(i);
            } else {
                self.lemma_view_char(k);
                lemma_lookup_witness(self.entries@, k);
                let j = choose|i: int|
                    0 <= i < self.entries@.len() && self.entries@[i].path@ == k;
                assert(j != i);
                assert(pre.entries@[j].path@ == k);
                self.lemma_entry_in_view(j);
                pre.lemma_entry_in_view(j);
            }
        }
        assert(m1 =~= m0.insert(p, d));
    }

    /// Removes the file at `path`; removing an absent path leaves the tree unchanged.
    pub fn remove(&mut self, path: &[u8])
        requires
            old(self).wf(),
        ensures
            final(self).wf(),
            final(self)@ == old(self)@.remove(path@),
    {
        match self.find(path) {
            Some(i) => {
                let ghost pre = *self;
                self.entries.remove(i);
                proof {
                    let n = pre.entries@.len() as int;
                    assert(self.entries@ == pre.entries@.remove(i as int));
                    assert forall|j: int|
                        0 <= j < self.entries@.len() implies #[trigger] self.entries@[j]
                        == pre.entries@[if j < i { j } else { j + 1 }] by {
                        if j < i {
                            assert(pre.entries@.remove(i as int)[j]
                                == pre.entries@.subrange(0, i as int)[j]);
                        }
                    }
                    assert(self.wf()) by {
                        assert forall|a: int, b: int|
                            0 <= a < b < self.keys().len() implies self.keys()[a]
                            != self.keys()[b] by {
                            let a0: int = if a < i { a } else { a + 1 };
                            let b0: int = if b < i { b } else { b + 1 };
                            assert(self.keys()[a] == self.entries@[a].path@);
                            assert(self.keys()[b] == self.entries@[b].path@);
                            assert(pre.keys()[a0] == pre.entries@[a0].path@);
                            assert(pre.keys()[b0] == pre.entries@[b0].path@);
                            assert(pre.keys()[a0] != pre.keys()[b0]);
                        }
                    }
                    let m0 = pre@;
                    let m1 = self@;
                    assert forall|k: Seq<u8>| #[trigger] m1.contains_key(k) implies m0.remove(
                        path@,
                    ).contains_key(k) by {
                        self.lemma_view_char(k);
                        lemma_lookup_witness(self.entries@, k);
                        let j = choose|i: int|
                            0 <= i < self.entries@.len() && self.entries@[i].path@ == k;
                        let j0: int = if j < i { j } else { j + 1 };
                        assert(pre.entries@[j0].path@ == k);
                        pre.lemma_entry_in_view(j0);
                        assert(j0 != i);
                        assert(pre.keys()[j0] == pre.entries@[j0].path@);
                        assert(pre.keys()[i as int] == pre.entries@[i as int].path@);
                        assert(pre.keys()[j0] != pre.keys()[i as int]);
                        assert(k != path@);
                    }
                    assert forall|k: Seq<u8>| #[trigger] m0.remove(path@).contains_key(
                        k,
                    ) implies m1.contains_key(k) by {
                        assert(m0.contains_key(k) && k != path@);
                        pre.lemma_view_char(k);
                        lemma_lookup_witness(pre.entries@, k);
                        let j0 = choose|i: int|
                            0 <= i < pre.entries@.len() && pre.entries@[i].path@ == k;
                        assert(pre.entries@[i as int].path@ == path@);
                        assert(j0 != i);
                        let j: int = if j0 < i { j0 } else { j0 - 1 };
                        assert(self.entries@[j] == pre.entries@[j0]);
                        self.lemma_entry_in_view(j);
                    }
                    assert forall|k: Seq<u8>|
                        m1.contains_key(k) implies m1[k] == m0.remove(path@)[k] by {
                        self.lemma_view_char(k);
                        lemma_lookup_witness(self.entries@, k);
                        let j = choose|i: int|
                            0 <= i < self.entries@.len() && self.entries@[i].path@ == k;
                        let j0: int = if j < i { j } else { j + 1 };
                        assert(pre.entries@[j0].path@ == k);
                        self.lemma_entry_in_view(j);
                        pre.lemma_entry_in_view(j0);
                        assert(j0 != i);
                        assert(pre.keys()[j0] == pre.entries@[j0].path@);
                        assert(pre.keys()[i as int] == pre.entries@[i as int].path@);
                        assert(pre.keys()[j0] != pre.keys()[i as int]);
                        assert(k != path@);
                    }
                    assert(m1 =~= m0.remove(path@));
                }
            },
            None => {
                proof {
                    self.lemma_absent_from_view(path@);
                    assert(!self@.contains_key(path@));
                    assert(self@ =~= self@.remove(path@));
                }
            },
        }
    }

    /// Empties the tree.
    pub fn clear(&mut self)
        ensures
            final(self).wf(),
            final(self)@ == Map::<Seq<u8>, Seq<u8>>::empty(),
            final(self).keys() == Seq::<Seq<u8>>::empty(),
    {
        self.entries.clear();
        proof {
            assert(self.keys() =~= Seq::<Seq<u8>>::empty());
            assert forall|k: Seq<u8>| !(#[trigger] self@.contains_key(k)) by {
                self.lemma_absent_from_view(k);
            }
            assert(self@ =~= Map::<Seq<u8>, Seq<u8>>::empty());
        }
    }
}

} // verus!
