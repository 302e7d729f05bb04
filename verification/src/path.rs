use std::collections::BTreeMap;
use std::rc::Rc;
use vstd::prelude::*;
use vstd::std_specs::cmp::OrdSpec;

use crate::key_order::{lemma_keys_in_order, lists_in_order, values_in_key_order};

verus! {

/// An identifier sequence that the ordered-map specification calls increasing is strictly
/// increasing as integers.
proof fn lemma_increasing_ids(ids: Seq<usize>)
    requires
        vstd::std_specs::btree::increasing_seq(ids),
    ensures
        forall|i: int, j: int| 0 <= i < j < ids.len() ==> ids[i] < ids[j],
{
    broadcast use vstd::std_specs::btree::group_btree_axioms;
    assert forall|i: int, j: int| 0 <= i < j < ids.len() implies ids[i] < ids[j] by {
        assert(ids[i].cmp_spec(&ids[j]) is Less);
    }
}

/// The nodes of a computation keyed by the identifier of the operation that made them,
/// with a buffer that lists them, once prepared, in the order of their identifiers.
pub struct NodePath<N> {
    nodes: BTreeMap<usize, Rc<N>>,
    buffer: Vec<Rc<N>>,
}

impl<N> Clone for NodePath<N> {
    /// A copy that holds the same nodes, by identifier, and lists the same nodes.
    fn clone(&self) -> (copy: Self)
        ensures
            copy.nodes() == self.nodes(),
            copy.listed() == self.listed(),
    {
        let nodes = self.nodes.clone();
        let mut buffer: Vec<Rc<N>> = Vec::new();
        let mut i: usize = 0;
        while i < self.buffer.len()
            invariant
                i <= self.buffer.len(),
                buffer@.len() == i,
                forall|j: int| 0 <= j < i ==> buffer@[j] == self.buffer@[j],
            decreases self.buffer.len() - i,
        {
            buffer.push(Rc::clone(&self.buffer[i]));
            i = i + 1;
        }
        assert(buffer@ =~= self.buffer@);
        NodePath { nodes, buffer }
    }
}

impl<N> NodePath<N> {
    /// The nodes of the path, by identifier.
    pub closed spec fn nodes(&self) -> Map<usize, Rc<N>> {
        self.nodes@
    }

    /// The nodes that the buffer lists, in order.
    pub closed spec fn listed(&self) -> Seq<Rc<N>> {
        self.buffer@
    }

    /// An empty path with an empty buffer.
    pub fn new() -> (path: Self)
        ensures
            path.nodes() == Map::<usize, Rc<N>>::empty(),
            path.listed() == Seq::<Rc<N>>::empty(),
    {
        NodePath { nodes: BTreeMap::new(), buffer: Vec::new() }
    }

    /// Adds `node` under `id`, replacing any node held under `id`, and empties the buffer.
    pub fn insert(&mut self, id: usize, node: Rc<N>)
        ensures
            final(self).nodes() == old(self).nodes().insert(id, node),
            final(self).listed() == Seq::<Rc<N>>::empty(),
    {
        broadcast use vstd::std_specs::btree::group_btree_axioms;
        self.nodes.insert(id, node);
        self.buffer.truncate(0);
    }

    /// The path holds finitely many nodes.
    pub proof fn lemma_finite(&self)
        ensures
            self.nodes().dom().finite(),
    {
        broadcast use vstd::std_specs::btree::group_btree_axioms;
    }

    /// The identifiers of the nodes of the path, each once.
    fn ids(&self) -> (ids: Vec<usize>)
        ensures
            ids@.no_duplicates(),
            forall|k: usize| self.nodes().contains_key(k) <==> ids@.contains(k),
    {
        broadcast use vstd::std_specs::btree::group_btree_axioms;
        let mut ids: Vec<usize> = Vec::new();
        for id in it: self.nodes.keys()
            invariant
                ids@.len() == it.index(),
                forall|j: int| 0 <= j < it.index() ==> ids@[j] == *it.seq()[j],
        {
            ids.push(*id);
        }
        proof {
            let listed = vstd::std_specs::iter::IteratorSpec::remaining(
                &vstd::std_specs::btree::spec_keys_iter(&self.nodes),
            ).unref();
            assert(ids@ =~= listed);
            assert forall|k: usize| self.nodes@.contains_key(k) <==> ids@.contains(k) by {
                assert(listed.to_set().contains(k) == listed.contains(k));
            }
        }
        ids
    }

    /// Keeps only the identifiers that both paths hold, each with the node that `other` holds
    /// under it. The buffer is left as it was.
    pub fn keep_common(&mut self, other: NodePath<N>)
        ensures
            final(self).nodes() == other.nodes().restrict(old(self).nodes().dom()),
            final(self).nodes().dom() == old(self).nodes().dom().intersect(other.nodes().dom()),
            final(self).listed() == old(self).listed(),
    {
        broadcast use vstd::std_specs::btree::group_btree_axioms;
        let ids = self.ids();
        let mut theirs = other.nodes;
        let ghost mine0 = self.nodes@;
        let ghost theirs0 = theirs@;
        let ghost mut done: Set<usize> = Set::empty();
        let mut i: usize = 0;
        while i < ids.len()
            invariant
                i <= ids.len(),
                ids@.no_duplicates(),
                forall|k: usize| mine0.contains_key(k) <==> ids@.contains(k),
                forall|k: usize| done.contains(k) <==> (exists|j: int| 0 <= j < i && ids@[j] == k),
                self.nodes@ == mine0.remove_keys(done).union_prefer_right(
                    theirs0.restrict(done),
                ),
                theirs@ == theirs0.remove_keys(done),
                self.buffer@ == old(self).buffer@,
            decreases ids.len() - i,
        {
            let id = ids[i];
            proof {
                assert(!done.contains(id)) by {
                    if done.contains(id) {
                        let j = choose|j: int| 0 <= j < i && ids@[j] == id;
                        assert(ids@[j] == ids@[i as int]);
                    }
                }
                assert(ids@.contains(id));
            }
            match theirs.remove(&id) {
                Some(node) => {
                    self.nodes.insert(id, node);
                },
                None => {
                    self.nodes.remove(&id);
                },
            }
            proof {
                let next = done.insert(id);
                assert forall|k: usize| next.contains(k) <==> (exists|j: int|
                    0 <= j < i + 1 && ids@[j] == k) by {
                    if k == id {
                        assert(ids@[i as int] == k);
                    }
                    if exists|j: int| 0 <= j < i + 1 && ids@[j] == k {
                        let j = choose|j: int| 0 <= j < i + 1 && ids@[j] == k;
                        if j < i {
                            assert(done.contains(k));
                        }
                    }
                }
                assert(self.nodes@ =~= mine0.remove_keys(next).union_prefer_right(
                    theirs0.restrict(next),
                ));
                assert(theirs@ =~= theirs0.remove_keys(next));
                done = next;
            }
            i = i + 1;
        }
        proof {
            assert forall|k: usize| done.contains(k) <==> mine0.contains_key(k) by {
                if mine0.contains_key(k) {
                    assert(ids@.contains(k));
                    let j = choose|j: int| 0 <= j < ids@.len() && ids@[j] == k;
                    assert(0 <= j < i && ids@[j] == k);
                }
                if done.contains(k) {
                    let j = choose|j: int| 0 <= j < i && ids@[j] == k;
                    assert(ids@.contains(k));
                }
            }
            assert(self.nodes@ =~= theirs0.restrict(mine0.dom()));
        }
    }

    /// The number of nodes in the path.
    pub fn len(&self) -> (n: usize)
        ensures
            n == self.nodes().len(),
    {
        broadcast use vstd::std_specs::btree::group_btree_axioms;
        self.nodes.len()
    }

    /// Whether the path holds no node.
    pub fn is_empty(&self) -> (empty: bool)
        ensures
            empty == (self.nodes().len() == 0),
    {
        broadcast use vstd::std_specs::btree::group_btree_axioms;
        self.nodes.is_empty()
    }

    /// Fills an empty buffer with the nodes of the path in the order of their identifiers;
    /// a buffer that already lists nodes is left as it is.
    pub fn prepare_buffer(&mut self)
        ensures
            final(self).nodes() == old(self).nodes(),
            old(self).listed().len() == 0 ==> final(self).listed() == values_in_key_order(
                old(self).nodes(),
            ),
            old(self).listed().len() != 0 ==> final(self).listed() == old(self).listed(),
    {
        broadcast use vstd::std_specs::btree::group_btree_axioms;
        if self.buffer.len() == 0 {
            let mut filled: Vec<Rc<N>> = Vec::new();
            let values = self.nodes.values();
            let ghost m = self.nodes@;
            let ghost key_seq: Seq<usize> = choose|key_seq: Seq<usize>|
                {
                    &&& vstd::std_specs::btree::increasing_seq(key_seq)
                    &&& key_seq.to_set() == m.dom()
                    &&& key_seq.no_duplicates()
                    &&& vstd::std_specs::iter::IteratorSpec::remaining(&values) == key_seq.map(
                        |i: int, k: usize| &m[k],
                    )
                };
            for node in it: values
                invariant
                    filled@.len() == it.index(),
                    forall|i: int| 0 <= i < it.index() ==> filled@[i] == *it.seq()[i],
            {
                filled.push(Rc::clone(node));
            }
            proof {
                lemma_increasing_ids(key_seq);
                assert(lists_in_order(m.dom(), key_seq)) by {
                    assert forall|k: usize| m.dom().contains(k) <==> key_seq.contains(k) by {
                        assert(key_seq.to_set().contains(k) == key_seq.contains(k));
                    }
                }
                lemma_keys_in_order(m, key_seq);
                assert(filled@ =~= values_in_key_order(m));
            }
            self.buffer = filled;
        }
    }

    /// The nodes that the buffer lists.
    pub fn buffer(&self) -> (listed: &[Rc<N>])
        ensures
            listed@ == self.listed(),
    {
        self.buffer.as_slice()
    }
}

} // verus!
