//! Node identities and per-node side tables.
//!
//! A pass that annotates the AST without mutating it keys its annotations by
//! a small integer assigned to each node during a fixed traversal order, and
//! stores them in a `NodeInfo` table whose model is a map from identity to
//! annotation.

use vstd::prelude::*;

verus! {

/// The identity of an AST node: its index in the traversal order of the
/// pass that assigned it.
#[derive(Debug, Clone, Copy, PartialEq, Eq, Structural)]
pub struct NodeId(pub usize);

/// A side table from node identities to annotations.  Later insertions win.
pub struct NodeInfo<T> {
    entries: Vec<(NodeId, T)>,
}

/// The map held by a sequence of entries, later entries winning.
pub open spec fn entries_map<T>(s: Seq<(NodeId, T)>) -> Map<nat, T>
    decreases s.len(),
{
    if s.len() == 0 {
        Map::empty()
    } else {
        entries_map(s.drop_last()).insert(s.last().0.0 as nat, s.last().1)
    }
}

impl<T> NodeInfo<T> {
    /// The map this table holds.
    pub closed spec fn model(&self) -> Map<nat, T> {
        entries_map(self.entries@)
    }

    /// An empty table.
    pub fn new() -> (r: Self)
        ensures
            r@ == Map::<nat, T>::empty(),
    {
        let r = NodeInfo { entries: Vec::new() };
        proof {
            assert(r@ =~= Map::<nat, T>::empty());
        }
        r
    }

    /// Records annotation `v` for node `k`.
    pub fn insert(&mut self, k: NodeId, v: T)
        ensures
            final(self)@ == old(self)@.insert(k.0 as nat, v),
    {
        self.entries.push((k, v));
        proof {
            assert(self.entries@.drop_last() =~= old(self).entries@);
        }
    }

    /// Looks the annotation of node `k` up.
    pub fn get(&self, k: NodeId) -> (r: Option<&T>)
        ensures
            match r {
                Some(v) => self@.dom().contains(k.0 as nat) && *v == self@[k.0 as nat],
                None => !self@.dom().contains(k.0 as nat),
            },
    {
        let mut i: usize = self.entries.len();
        while i > 0
            invariant
                0 <= i <= self.entries@.len(),
                forall|j: int|
                    i <= j < self.entries@.len() ==> (#[trigger] self.entries@[j]).0.0 != k.0,
            decreases i,
        {
            if self.entries[i - 1].0.0 == k.0 {
                proof {
                    lemma_entries_map_found(self.entries@, i - 1, k.0 as nat);
                }
                return Some(&self.entries[i - 1].1);
            }
            i = i - 1;
        }
        proof {
            lemma_entries_map_absent(self.entries@, k.0 as nat);
        }
        None
    }

    /// Does the table hold an annotation for node `k`?
    pub fn contains(&self, k: NodeId) -> (r: bool)
        ensures
            r == self@.dom().contains(k.0 as nat),
    {
        match self.get(k) {
            Some(_) => true,
            None => false,
        }
    }
}

impl<T> View for NodeInfo<T> {
    type V = Map<nat, T>;

    open spec fn view(&self) -> Map<nat, T> {
        self.model()
    }
}

/// The last entry with a given identity decides its annotation.
proof fn lemma_entries_map_found<T>(s: Seq<(NodeId, T)>, i: int, k: nat)
    requires
        0 <= i < s.len(),
        s[i].0.0 as nat == k,
        forall|j: int| i < j < s.len() ==> (#[trigger] s[j]).0.0 as nat != k,
    ensures
        entries_map(s).dom().contains(k),
        entries_map(s)[k] == s[i].1,
    decreases s.len(),
{
    if i == s.len() - 1 {
    } else {
        assert(s.drop_last()[i] == s[i]);
        lemma_entries_map_found(s.drop_last(), i, k);
        assert(s.last().0.0 as nat != k);
    }
}

/// An identity no entry carries is not in the map.
proof fn lemma_entries_map_absent<T>(s: Seq<(NodeId, T)>, k: nat)
    requires
        forall|j: int| 0 <= j < s.len() ==> (#[trigger] s[j]).0.0 as nat != k,
    ensures
        !entries_map(s).dom().contains(k),
    decreases s.len(),
{
    if s.len() > 0 {
        assert(forall|j: int| 0 <= j < s.len() - 1 ==> s.drop_last()[j] == #[trigger] s[j]);
        lemma_entries_map_absent(s.drop_last(), k);
    }
}

} // verus!
