use std::collections::HashMap;
use std::rc::Rc;
use vstd::prelude::*;
use vstd::std_specs::cmp::PartialEqSpec;

use crate::key_order::values_in_key_order;
use crate::path::NodePath;

verus! {

/// A node that can change between evaluations, together with the identifier of the
/// operation that made it. Two changeables are equal when their identifiers are.
pub struct Changeable<E> {
    id: usize,
    node: Rc<E>,
}

impl<E> Changeable<E> {
    /// The identifier of the operation that made the node.
    pub closed spec fn id(&self) -> usize {
        self.id
    }

    /// The node itself.
    pub closed spec fn node(&self) -> Rc<E> {
        self.node
    }

    /// Wraps `node`, made by the operation `id`.
    pub fn new(id: usize, node: Rc<E>) -> (changeable: Self)
        ensures
            changeable.id() == id,
            changeable.node() == node,
    {
        Changeable { id, node }
    }
}

impl<E> Clone for Changeable<E> {
    /// A copy with the same identifier, sharing the same node.
    fn clone(&self) -> (copy: Self)
        ensures
            copy.id() == self.id(),
            copy.node() == self.node(),
    {
        Changeable { id: self.id, node: Rc::clone(&self.node) }
    }
}

impl<E> PartialEq for Changeable<E> {
    fn eq(&self, other: &Self) -> (equal: bool)
        ensures
            equal == (self.id() == other.id()),
    {
        self.id == other.id
    }
}

impl<E> Eq for Changeable<E> {
}

impl<E> vstd::std_specs::cmp::PartialEqSpecImpl for Changeable<E> {
    open spec fn obeys_eq_spec() -> bool {
        true
    }

    open spec fn eq_spec(&self, other: &Self) -> bool {
        self.id() == other.id()
    }
}

/// Two changeables are equal exactly when the identifiers of the operations that made them
/// are the same, whatever their nodes.
pub proof fn law_changeable_equality<E>(a: Changeable<E>, b: Changeable<E>)
    ensures
        a.eq_spec(&b) <==> a.id() == b.id(),
        a.eq_spec(&a),
        a.eq_spec(&b) == b.eq_spec(&a),
{
}

/// The computational forward history of a variable: the forward nodes of the computation
/// up to the variable, keyed by operation identifier, the buffer that lists them for a
/// forward pass, and the changeable nodes met on the way, keyed by identifier.
pub struct VarHistory<F, E> {
    path: NodePath<F>,
    changeables: HashMap<usize, Rc<E>>,
}

impl<F, E> Clone for VarHistory<F, E> {
    /// A copy with the same path, buffer and changeables.
    fn clone(&self) -> (copy: Self)
        ensures
            copy.path() == self.path(),
            copy.listed() == self.listed(),
            copy.changeables() == self.changeables(),
    {
        VarHistory { path: self.path.clone(), changeables: self.changeables.clone() }
    }
}

impl<F, E> VarHistory<F, E> {
    /// The forward nodes of the history, by operation identifier.
    pub closed spec fn path(&self) -> Map<usize, Rc<F>> {
        self.path.nodes()
    }

    /// The forward nodes that the buffer lists, in order.
    pub closed spec fn listed(&self) -> Seq<Rc<F>> {
        self.path.listed()
    }

    /// The changeable nodes of the history, by operation identifier.
    pub closed spec fn changeables(&self) -> Map<usize, Rc<E>> {
        self.changeables@
    }

    /// The forward path holds finitely many nodes.
    pub proof fn lemma_path_finite(&self)
        ensures
            self.path().dom().finite(),
    {
        self.path.lemma_finite();
    }

    /// A new, empty history.
    pub fn new() -> (history: Self)
        ensures
            history.path() == Map::<usize, Rc<F>>::empty(),
            history.path().dom().finite(),
            history.listed() == Seq::<Rc<F>>::empty(),
            history.changeables() == Map::<usize, Rc<E>>::empty(),
    {
        VarHistory { path: NodePath::new(), changeables: HashMap::new() }
    }

    /// Merges `other` into `self` as a set intersection: the forward path keeps only the
    /// identifiers that both histories hold, each with the node that `other` holds under it.
    /// The buffer and the changeables of `self` are left as they were; those of `other` are
    /// dropped.
    pub fn merge(&mut self, other: VarHistory<F, E>)
        ensures
            final(self).path().dom().finite(),
            final(self).path() == other.path().restrict(old(self).path().dom()),
            final(self).path().dom() == old(self).path().dom().intersect(other.path().dom()),
            final(self).listed() == old(self).listed(),
            final(self).changeables() == old(self).changeables(),
    {
        self.path.keep_common(other.path);
        proof {
            self.path.lemma_finite();
        }
    }

    /// Appends the forward node `next`, made by the operation `id`, and empties the buffer.
    pub fn append_forward(&mut self, id: usize, next: Rc<F>)
        ensures
            !final(self).path().dom().is_empty(),
            final(self).path().len() == old(self).path().len() + (if old(self).path().contains_key(
                id,
            ) {
                0int
            } else {
                1int
            }),
            final(self).path().dom().finite(),
            final(self).path() == old(self).path().insert(id, next),
            final(self).listed() == Seq::<Rc<F>>::empty(),
            final(self).changeables() == old(self).changeables(),
    {
        proof {
            self.path.lemma_finite();
        }
        self.path.insert(id, next);
        proof {
            self.path.lemma_finite();
        }
        assert(self.path.nodes().dom().contains(id));
    }

    /// Adds the changeable `next`, unless one with the same identifier is already there,
    /// in which case the history is left as it was.
    pub fn append_changeable(&mut self, next: Changeable<E>)
        ensures
            final(self).path().dom().finite(),
            final(self).path() == old(self).path(),
            final(self).listed() == old(self).listed(),
            old(self).changeables().contains_key(next.id()) ==> final(self).changeables()
                == old(self).changeables(),
            !old(self).changeables().contains_key(next.id()) ==> final(self).changeables()
                == old(self).changeables().insert(next.id(), next.node()),
    {
        broadcast use vstd::std_specs::hash::group_hash_axioms;
        if !self.changeables.contains_key(&next.id) {
            self.changeables.insert(next.id, next.node);
        }
        proof {
            self.path.lemma_finite();
        }
    }

    /// The number of changeable nodes in the history.
    pub fn changeable_count(&self) -> (n: usize)
        ensures
            n == self.changeables().len(),
    {
        broadcast use vstd::std_specs::hash::group_hash_axioms;
        self.changeables.len()
    }

    /// The changeable node made by the operation `id`, if the history holds one.
    pub fn changeable(&self, id: usize) -> (node: Option<&Rc<E>>)
        ensures
            self.changeables().contains_key(id) ==> node == Some(&self.changeables()[id]),
            !self.changeables().contains_key(id) ==> node is None,
    {
        broadcast use vstd::std_specs::hash::group_hash_axioms;
        self.changeables.get(&id)
    }

    /// The number of nodes in the forward path.
    pub fn len(&self) -> (n: usize)
        ensures
            n == self.path().len(),
    {
        self.path.len()
    }

    /// Whether the forward path holds no node.
    pub fn is_empty(&self) -> (empty: bool)
        ensures
            empty == (self.path().len() == 0),
            empty == self.path().dom().is_empty(),
    {
        proof {
            self.path.lemma_finite();
        }
        self.path.is_empty()
    }

    /// Prepares the buffer for a forward pass: an empty buffer is filled with the nodes of the
    /// forward path in the order of their identifiers; a buffer that already lists nodes is
    /// left as it is.
    pub fn prepare_buffer(&mut self)
        ensures
            final(self).path().dom().finite(),
            final(self).path() == old(self).path(),
            final(self).changeables() == old(self).changeables(),
            old(self).listed().len() == 0 ==> final(self).listed() == values_in_key_order(
                old(self).path(),
            ),
            old(self).listed().len() != 0 ==> final(self).listed() == old(self).listed(),
    {
        self.path.prepare_buffer();
        proof {
            self.path.lemma_finite();
        }
    }

    /// The forward nodes that the buffer lists.
    pub fn buffer(&self) -> (listed: &[Rc<F>])
        ensures
            listed@ == self.listed(),
    {
        self.path.buffer()
    }
}

} // verus!
