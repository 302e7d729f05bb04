use vstd::prelude::*;

verus! {

/// Keeps track of each operation. It also provides an identifier to computational nodes.
pub struct OperationsCounter {
    count: usize,
}

impl View for OperationsCounter {
    type V = nat;

    /// The number of identifiers handed out so far.
    closed spec fn view(&self) -> nat {
        self.count as nat
    }
}

impl OperationsCounter {
    /// A counter that has not handed out any identifier yet.
    pub fn new() -> (counter: Self)
        ensures
            counter@ == 0,
    {
        OperationsCounter { count: 0 }
    }

    /// The last identifier handed out, 0 when none was.
    pub fn count(&self) -> (count: usize)
        ensures
            count == self@,
    {
        self.count
    }

    /// Hands out the next identifier: one more than the last one handed out, the first being 1.
    pub fn next(&mut self) -> (id: usize)
        requires
            old(self)@ < usize::MAX,
        ensures
            id == old(self)@ + 1,
            final(self)@ == id,
    {
        self.count += 1;
        self.count
    }
}

} // verus!
