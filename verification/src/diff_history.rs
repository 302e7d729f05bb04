use std::rc::Rc;
use vstd::prelude::*;
use vstd::std_specs::cmp::PartialEqSpec;

use crate::key_order::values_in_key_order;
use crate::path::NodePath;

verus! {

/// What identifies a differentiable parameter: the addresses of its data and of its
/// gradient, and its shape.
pub type ParamKey = (usize, usize, Seq<usize>);

/// A handle on the data and the gradient of a differentiable variable: their addresses and
/// their shape. Two handles are equal when all three are.
#[derive(Debug, Hash)]
pub struct RawParam {
    data: usize,
    grad: usize,
    shape: Vec<usize>,
}

impl View for RawParam {
    type V = ParamKey;

    closed spec fn view(&self) -> ParamKey {
        (self.data, self.grad, self.shape@)
    }
}

impl RawParam {
    /// A handle on the data at address `data` and the gradient at address `grad`, both of
    /// shape `shape`.
    pub fn new(data: usize, grad: usize, shape: Vec<usize>) -> (param: Self)
        ensures
            param@ == (data, grad, shape@),
    {
        RawParam { data, grad, shape }
    }

    /// The address of the data.
    pub fn data(&self) -> (data: usize)
        ensures
            data == self@.0,
    {
        self.data
    }

    /// The address of the gradient.
    pub fn grad(&self) -> (grad: usize)
        ensures
            grad == self@.1,
    {
        self.grad
    }

    /// The shape of the data and of the gradient.
    pub fn shape(&self) -> (shape: &[usize])
        ensures
            shape@ == self@.2,
    {
        self.shape.as_slice()
    }
}

impl Clone for RawParam {
    fn clone(&self) -> (copy: Self)
        ensures
            copy@ == self@,
    {
        let shape = self.shape.clone();
        assert(shape@ =~= self.shape@);
        RawParam { data: self.data, grad: self.grad, shape }
    }
}

impl PartialEq for RawParam {
    fn eq(&self, other: &Self) -> (equal: bool)
        ensures
            equal == (self@.0 == other@.0 && self@.1 == other@.1 && self@.2 == other@.2),
    {
        if self.data != other.data || self.grad != other.grad || self.shape.len()
            != other.shape.len() {
            return false;
        }
        let mut i: usize = 0;
        while i < self.shape.len()
            invariant
                self.shape.len() == other.shape.len(),
                i <= self.shape.len(),
                forall|j: int| 0 <= j < i ==> self.shape@[j] == other.shape@[j],
            decreases self.shape.len() - i,
        {
            if self.shape[i] != other.shape[i] {
                return false;
            }
            i = i + 1;
        }
        assert(self.shape@ =~= other.shape@);
        true
    }
}

impl Eq for RawParam {
}

impl vstd::std_specs::cmp::PartialEqSpecImpl for RawParam {
    open spec fn obeys_eq_spec() -> bool {
        true
    }

    open spec fn eq_spec(&self, other: &Self) -> bool {
        self@ == other@
    }
}

/// Two parameter handles are equal exactly when their data addresses, their gradient
/// addresses and their shapes are all the same.
pub proof fn law_raw_param_equality(p: RawParam, q: RawParam)
    ensures
        p.eq_spec(&q) <==> (p@.0 == q@.0 && p@.1 == q@.1 && p@.2 == q@.2),
        p@.0 != q@.0 ==> !p.eq_spec(&q),
        p@.1 != q@.1 ==> !p.eq_spec(&q),
        p@.2 != q@.2 ==> !p.eq_spec(&q),
        p.eq_spec(&p),
{
}

/// No two handles of `params` are equal.
pub open spec fn distinct_params(params: Seq<RawParam>) -> bool {
    forall|i: int, j: int| 0 <= i < j < params.len() ==> params[i]@ != params[j]@
}

/// The set of what identifies the handles of `params`.
pub open spec fn param_set(params: Seq<RawParam>) -> Set<ParamKey> {
    params.map_values(|p: RawParam| p@).to_set()
}

/// Pushing a key onto a sequence adds it to the set of the sequence's keys.
proof fn lemma_push_to_set(keys: Seq<ParamKey>, key: ParamKey)
    ensures
        keys.push(key).to_set() == keys.to_set().insert(key),
{
    let pushed = keys.push(key);
    assert forall|k: ParamKey| pushed.contains(k) <==> keys.contains(k) || k == key by {
        if pushed.contains(k) {
            let i = choose|i: int| 0 <= i < pushed.len() && pushed[i] == k;
            if i < keys.len() {
                assert(keys[i] == k);
            }
        }
        if keys.contains(k) {
            let i = choose|i: int| 0 <= i < keys.len() && keys[i] == k;
            assert(pushed[i] == k);
        }
        if k == key {
            assert(pushed[keys.len() as int] == k);
        }
    }
    assert(pushed.to_set() =~= keys.to_set().insert(key));
}

/// Whether `params` holds a handle equal to `param`.
fn holds_param(params: &Vec<RawParam>, param: &RawParam) -> (held: bool)
    ensures
        held == param_set(params@).contains(param@),
{
    let mut i: usize = 0;
    while i < params.len()
        invariant
            i <= params.len(),
            forall|j: int| 0 <= j < i ==> params@[j]@ != param@,
        decreases params.len() - i,
    {
        if params[i] == *param {
            assert(params@.map_values(|p: RawParam| p@)[i as int] == param@);
            return true;
        }
        i = i + 1;
    }
    assert(!params@.map_values(|p: RawParam| p@).contains(param@));
    false
}

/// Adds `param` to `params` unless an equal handle is already there.
fn add_param(params: &mut Vec<RawParam>, param: RawParam)
    requires
        distinct_params(old(params)@),
    ensures
        distinct_params(final(params)@),
        param_set(final(params)@) == param_set(old(params)@).insert(param@),
{
    if !holds_param(params, &param) {
        let ghost before = params@;
        let ghost key = param@;
        params.push(param);
        proof {
            assert(params@.map_values(|p: RawParam| p@) =~= before.map_values(|p: RawParam| p@).push(key));
            assert forall|j: int| 0 <= j < before.len() implies before[j]@ != key by {
                assert(before.map_values(|p: RawParam| p@)[j] == before[j]@);
            }
            lemma_push_to_set(before.map_values(|p: RawParam| p@), key);
        }
    } else {
        assert(param_set(params@) =~= param_set(params@).insert(param@));
    }
}

/// A set of parameter handles, none held twice.
pub struct ParamSet {
    items: Vec<RawParam>,
}

impl ParamSet {
    #[verifier::type_invariant]
    closed spec fn items_distinct(self) -> bool {
        distinct_params(self.items@)
    }

    /// What identifies the handles of the set.
    pub closed spec fn keys(&self) -> Set<ParamKey> {
        param_set(self.items@)
    }

    /// Adds each handle of `incoming` to `held`, skipping those equal to one already held.
    fn gather(held: &mut Vec<RawParam>, incoming: Vec<RawParam>)
        requires
            distinct_params(old(held)@),
        ensures
            distinct_params(final(held)@),
            param_set(final(held)@) == param_set(old(held)@) + param_set(incoming@),
    {
        let ghost target = param_set(held@) + param_set(incoming@);
        let mut incoming = incoming;
        while incoming.len() > 0
            invariant
                distinct_params(held@),
                param_set(held@) + param_set(incoming@) == target,
            decreases incoming.len(),
        {
            let ghost before = incoming@;
            let p = incoming.pop().unwrap();
            proof {
                assert(before =~= incoming@.push(p));
                assert(before.map_values(|q: RawParam| q@) =~= incoming@.map_values(
                    |q: RawParam| q@,
                ).push(p@));
                lemma_push_to_set(incoming@.map_values(|q: RawParam| q@), p@);
            }
            add_param(held, p);
            assert(param_set(held@) + param_set(incoming@) =~= target);
        }
        assert(param_set(incoming@) =~= Set::<ParamKey>::empty());
        assert(param_set(held@) =~= target);
    }

    /// The set of the handles of `params`, each once.
    pub fn from_vec(params: Vec<RawParam>) -> (set: Self)
        ensures
            set.keys() == param_set(params@),
    {
        let mut held: Vec<RawParam> = Vec::new();
        Self::gather(&mut held, params);
        assert(param_set(Seq::<RawParam>::empty()) =~= Set::<ParamKey>::empty());
        assert(param_set(held@) =~= param_set(params@));
        ParamSet { items: held }
    }

    /// The handles of the set, each once.
    pub fn as_slice(&self) -> (items: &[RawParam])
        ensures
            param_set(items@) == self.keys(),
            distinct_params(items@),
    {
        proof {
            use_type_invariant(self);
        }
        self.items.as_slice()
    }

    /// Keeps only the handles that `other` holds too.
    pub fn keep_common(&mut self, other: ParamSet)
        ensures
            final(self).keys() == old(self).keys().intersect(other.keys()),
    {
        proof {
            use_type_invariant(&*self);
        }
        let mut mine: Vec<RawParam> = Vec::new();
        std::mem::swap(&mut mine, &mut self.items);
        let theirs = other.items;
        let mut kept: Vec<RawParam> = Vec::new();
        let mut i: usize = 0;
        while i < mine.len()
            invariant
                i <= mine.len(),
                distinct_params(kept@),
                param_set(kept@) == param_set(mine@.take(i as int)).intersect(param_set(theirs@)),
            decreases mine.len() - i,
        {
            proof {
                assert(mine@.take(i + 1) =~= mine@.take(i as int).push(mine@[i as int]));
                assert(mine@.take(i + 1).map_values(|p: RawParam| p@) =~= mine@.take(
                    i as int,
                ).map_values(|p: RawParam| p@).push(mine@[i as int]@));
                lemma_push_to_set(
                    mine@.take(i as int).map_values(|p: RawParam| p@),
                    mine@[i as int]@,
                );
            }
            if holds_param(&theirs, &mine[i]) {
                let copy = mine[i].clone();
                add_param(&mut kept, copy);
            }
            assert(param_set(kept@) =~= param_set(mine@.take(i + 1)).intersect(
                param_set(theirs@),
            ));
            i = i + 1;
        }
        assert(mine@.take(mine.len() as int) =~= mine@);
        self.items = kept;
    }
}

impl Clone for ParamSet {
    fn clone(&self) -> (copy: Self)
        ensures
            copy.keys() == self.keys(),
    {
        proof {
            use_type_invariant(self);
        }
        let mut items: Vec<RawParam> = Vec::new();
        let mut i: usize = 0;
        while i < self.items.len()
            invariant
                i <= self.items.len(),
                items@.len() == i,
                distinct_params(self.items@),
                forall|j: int| 0 <= j < i ==> items@[j]@ == self.items@[j]@,
            decreases self.items.len() - i,
        {
            items.push(self.items[i].clone());
            i = i + 1;
        }
        assert(items@.map_values(|p: RawParam| p@) =~= self.items@.map_values(|p: RawParam| p@));
        ParamSet { items }
    }
}

/// The computational backward history of a variable: the backward nodes of the computation
/// up to the variable, keyed by operation identifier, the buffer that lists them for a
/// backward pass, and the parameters that the computation depends on, none twice.
pub struct VarDiffHistory<B> {
    path: NodePath<B>,
    parameters: ParamSet,
}

impl<B> Clone for VarDiffHistory<B> {
    /// A copy with the same path, buffer and parameters.
    fn clone(&self) -> (copy: Self)
        ensures
            copy.path() == self.path(),
            copy.listed() == self.listed(),
            copy.parameter_keys() == self.parameter_keys(),
    {
        VarDiffHistory { path: self.path.clone(), parameters: self.parameters.clone() }
    }
}

impl<B> VarDiffHistory<B> {
    /// The backward nodes of the history, by operation identifier.
    pub closed spec fn path(&self) -> Map<usize, Rc<B>> {
        self.path.nodes()
    }

    /// The backward nodes that the buffer lists, in order.
    pub closed spec fn listed(&self) -> Seq<Rc<B>> {
        self.path.listed()
    }

    /// The parameters of the history, by what identifies them.
    pub closed spec fn parameter_keys(&self) -> Set<ParamKey> {
        self.parameters.keys()
    }

    /// The parameters of the history, each once.
    pub fn parameters(&self) -> (params: &[RawParam])
        ensures
            param_set(params@) == self.parameter_keys(),
            distinct_params(params@),
    {
        self.parameters.as_slice()
    }

    /// The backward path holds finitely many nodes.
    pub proof fn lemma_path_finite(&self)
        ensures
            self.path().dom().finite(),
    {
        self.path.lemma_finite();
    }

    /// A new history with an empty backward path that holds `parameters`, each once.
    pub fn new(parameters: Vec<RawParam>) -> (history: Self)
        ensures
            history.path() == Map::<usize, Rc<B>>::empty(),
            history.path().dom().finite(),
            history.listed() == Seq::<Rc<B>>::empty(),
            history.parameter_keys() == param_set(parameters@),
    {
        VarDiffHistory { path: NodePath::new(), parameters: ParamSet::from_vec(parameters) }
    }

    /// Merges `other` into `self` as a set intersection: the backward path keeps only the
    /// identifiers that both histories hold, each with the node that `other` holds under it,
    /// and the parameters only those that both hold. The buffer of `self` is left as it was.
    pub fn merge(&mut self, other: VarDiffHistory<B>)
        ensures
            final(self).path().dom().finite(),
            final(self).path() == other.path().restrict(old(self).path().dom()),
            final(self).path().dom() == old(self).path().dom().intersect(other.path().dom()),
            final(self).listed() == old(self).listed(),
            final(self).parameter_keys() == old(self).parameter_keys().intersect(
                other.parameter_keys(),
            ),
    {
        self.path.keep_common(other.path);
        self.parameters.keep_common(other.parameters);
        proof {
            self.path.lemma_finite();
        }
    }

    /// Appends the backward node `next`, made by the operation `id`, and empties the buffer.
    pub fn append_backward(&mut self, id: usize, next: Rc<B>)
        ensures
            !final(self).path().dom().is_empty(),
            final(self).path().len() == old(self).path().len() + (if old(self).path().contains_key(
                id,
            ) {
                0int
            } else {
                1int
            }),
            final(self).path().dom().finite(),
            final(self).path() == old(self).path().insert(id, next),
            final(self).listed() == Seq::<Rc<B>>::empty(),
            final(self).parameter_keys() == old(self).parameter_keys(),
    {
        proof {
            self.path.lemma_finite();
        }
        self.path.insert(id, next);
        proof {
            self.path.lemma_finite();
        }
        assert(self.path.nodes().dom().contains(id));
    }

    /// The number of nodes in the backward path.
    pub fn len(&self) -> (n: usize)
        ensures
            n == self.path().len(),
    {
        self.path.len()
    }

    /// Whether the backward path holds no node.
    pub fn is_empty(&self) -> (empty: bool)
        ensures
            empty == (self.path().len() == 0),
            empty == self.path().dom().is_empty(),
    {
        proof {
            self.path.lemma_finite();
        }
        self.path.is_empty()
    }

    /// Prepares the buffer for a backward pass: an empty buffer is filled with the nodes of
    /// the backward path in the order of their identifiers; a buffer that already lists nodes
    /// is left as it is.
    pub fn prepare_buffer(&mut self)
        ensures
            final(self).path().dom().finite(),
            final(self).path() == old(self).path(),
            final(self).parameter_keys() == old(self).parameter_keys(),
            old(self).listed().len() == 0 ==> final(self).listed() == values_in_key_order(
                old(self).path(),
            ),
            old(self).listed().len() != 0 ==> final(self).listed() == old(self).listed(),
    {
        self.path.prepare_buffer();
        proof {
            self.path.lemma_finite();
        }
    }

    /// The backward nodes that the buffer lists.
    pub fn buffer(&self) -> (listed: &[Rc<B>])
        ensures
            listed@ == self.listed(),
    {
        self.path.buffer()
    }
}

} // verus!
