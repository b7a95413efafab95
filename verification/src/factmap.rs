//! Per-node fact tables: at most one fact per node, in insertion order.
use vstd::prelude::*;
use crate::ir::NodeId;

verus! {

/// The map an association list denotes (a later entry for a key wins).
pub open spec fn assoc_map<T>(s: Seq<(NodeId, T)>) -> Map<NodeId, T>
    decreases s.len(),
{
    if s.len() == 0 {
        Map::empty()
    } else {
        assoc_map(s.drop_last()).insert(s.last().0, s.last().1)
    }
}

pub open spec fn distinct_keys<T>(s: Seq<(NodeId, T)>) -> bool {
    forall|i: int, j: int| 0 <= i < j < s.len() ==> s[i].0 != s[j].0
}

pub proof fn lemma_assoc_dom<T>(s: Seq<(NodeId, T)>, k: NodeId)
    ensures
        assoc_map(s).dom().contains(k) <==> exists|i: int| 0 <= i < s.len() && s[i].0 == k,
        assoc_map(s).dom().finite(),
        assoc_map(s).dom().len() <= s.len(),
    decreases s.len(),
{
    if s.len() > 0 {
        lemma_assoc_dom(s.drop_last(), k);
        lemma_assoc_dom(s.drop_last(), s.last().0);
        if exists|i: int| 0 <= i < s.len() && s[i].0 == k {
            let i = choose|i: int| 0 <= i < s.len() && s[i].0 == k;
            if i < s.len() - 1 {
                assert(s.drop_last()[i].0 == k);
            }
        }
        if exists|i: int| 0 <= i < s.drop_last().len() && s.drop_last()[i].0 == k {
            let i = choose|i: int| 0 <= i < s.drop_last().len() && s.drop_last()[i].0 == k;
            assert(s[i].0 == k);
        }
    }
}

pub proof fn lemma_assoc_at<T>(s: Seq<(NodeId, T)>, i: int)
    requires
        distinct_keys(s),
        0 <= i < s.len(),
    ensures
        assoc_map(s).dom().contains(s[i].0),
        assoc_map(s)[s[i].0] == s[i].1,
    decreases s.len(),
{
    if i < s.len() - 1 {
        lemma_assoc_at(s.drop_last(), i);
    }
}

pub proof fn lemma_assoc_update<T>(s: Seq<(NodeId, T)>, i: int, v: T)
    requires
        distinct_keys(s),
        0 <= i < s.len(),
    ensures
        assoc_map(s.update(i, (s[i].0, v))) == assoc_map(s).insert(s[i].0, v),
    decreases s.len(),
{
    let t = s.update(i, (s[i].0, v));
    if i == s.len() - 1 {
        assert(t.drop_last() =~= s.drop_last());
    } else {
        assert(t.drop_last() =~= s.drop_last().update(i, (s[i].0, v)));
        lemma_assoc_update(s.drop_last(), i, v);
        assert(s.last().0 != s[i].0);
        assert(assoc_map(t) =~= assoc_map(s).insert(s[i].0, v));
    }
}

/// Facts of type `T`, at most one per node.
pub struct FactMap<T> {
    entries: Vec<(NodeId, T)>,
}

impl<T> View for FactMap<T> {
    type V = Map<NodeId, T>;

    closed spec fn view(&self) -> Map<NodeId, T> {
        assoc_map(self.entries@)
    }
}

impl<T> FactMap<T> {
    /// Well-formedness: at most one entry per node.
    pub closed spec fn wf(&self) -> bool {
        distinct_keys(self.entries@)
    }

    /// An empty table.
    pub fn new() -> (m: Self)
        ensures
            m.wf(),
            m@ == Map::<NodeId, T>::empty(),
    {
        FactMap { entries: Vec::new() }
    }

    /// The fact of node `id`, if there is one.
    pub fn get(&self, id: NodeId) -> (r: Option<&T>)
        requires
            self.wf(),
        ensures
            match r {
                Some(v) => self@.dom().contains(id) && *v == self@[id],
                None => !self@.dom().contains(id),
            },
    {
        proof {
            lemma_assoc_dom(self.entries@, id);
        }
        let mut i: usize = 0;
        while i < self.entries.len()
            invariant
                i <= self.entries@.len(),
                distinct_keys(self.entries@),
                forall|k: int| 0 <= k < i ==> self.entries@[k].0 != id,
            decreases self.entries@.len() - i,
        {
            if self.entries[i].0 == id {
                proof {
                    lemma_assoc_at(self.entries@, i as int);
                }
                return Some(&self.entries[i].1);
            }
            i += 1;
        }
        None
    }

    /// Sets the fact of node `id`.
    pub fn insert(&mut self, id: NodeId, v: T)
        requires
            old(self).wf(),
        ensures
            final(self).wf(),
            final(self)@ == old(self)@.insert(id, v),
    {
        proof {
            lemma_assoc_dom(self.entries@, id);
        }
        let mut i: usize = 0;
        while i < self.entries.len()
            invariant
                i <= self.entries@.len(),
                self.entries@ == old(self).entries@,
                distinct_keys(self.entries@),
                forall|k: int| 0 <= k < i ==> self.entries@[k].0 != id,
            decreases self.entries@.len() - i,
        {
            if self.entries[i].0 == id {
                let ghost before = self.entries@;
                proof {
                    lemma_assoc_update(before, i as int, v);
                }
                self.entries.set(i, (id, v));
                assert(self.entries@ == before.update(i as int, (before[i as int].0, v)));
                assert(distinct_keys(self.entries@)) by {
                    assert forall|a: int, b: int| 0 <= a < b < self.entries@.len() implies self.entries@[a].0
                        != self.entries@[b].0 by {
                        assert(before[a].0 != before[b].0);
                    }
                }
                return;
            }
            i += 1;
        }
        let ghost before = self.entries@;
        self.entries.push((id, v));
        assert(self.entries@.drop_last() =~= before);
        assert(distinct_keys(self.entries@)) by {
            assert forall|a: int, b: int| 0 <= a < b < self.entries@.len() implies self.entries@[a].0
                != self.entries@[b].0 by {
                if b < before.len() {
                    assert(before[a].0 != before[b].0);
                }
            }
        }
    }

    /// Number of nodes with a fact.
    pub fn len(&self) -> (n: usize)
        requires
            self.wf(),
        ensures
            n == self@.dom().len(),
    {
        proof {
            lemma_assoc_card(self.entries@);
        }
        self.entries.len()
    }

    /// Whether no node has a fact.
    pub fn is_empty(&self) -> (b: bool)
        requires
            self.wf(),
        ensures
            b == (self@.dom().len() == 0),
    {
        self.len() == 0
    }
}

proof fn lemma_assoc_card<T>(s: Seq<(NodeId, T)>)
    requires
        distinct_keys(s),
    ensures
        assoc_map(s).dom().len() == s.len(),
    decreases s.len(),
{
    if s.len() > 0 {
        let d = s.drop_last();
        lemma_assoc_card(d);
        lemma_assoc_dom(d, s.last().0);
        assert(!assoc_map(d).dom().contains(s.last().0)) by {
            if assoc_map(d).dom().contains(s.last().0) {
                let i = choose|i: int| 0 <= i < d.len() && d[i].0 == s.last().0;
                assert(s[i].0 == s[s.len() - 1].0);
            }
        }
        assert(assoc_map(s).dom() == assoc_map(d).dom().insert(s.last().0));
    }
}

} // verus!
