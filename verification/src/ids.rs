//! The source of fresh variable ids.

use vstd::prelude::*;

verus! {

/// Hands out variable ids in increasing order, starting from 1; id 0 is
/// reserved for variables written by the user.
#[derive(Debug)]
pub struct VariableIdCounter {
    next: usize,
}

impl VariableIdCounter {
    /// Ids handed out are never 0: that id marks the variables a user writes.
    #[verifier::type_invariant]
    spec fn well_formed(self) -> bool {
        self.next >= 1
    }
}

impl View for VariableIdCounter {
    type V = nat;

    /// The id that the next request hands out.
    closed spec fn view(&self) -> nat {
        self.next as nat
    }
}

impl VariableIdCounter {
    /// A counter that has handed out no id yet.
    pub fn new() -> (r: Self)
        ensures
            r@ == 1,
    {
        VariableIdCounter { next: 1 }
    }

    /// How many more ids the counter can hand out.
    pub fn remaining(&self) -> (r: usize)
        ensures
            r == usize::MAX - self@,
    {
        usize::MAX - self.next
    }

    /// Returns the next unique variable id and advances the counter.
    pub fn next_variable_id(&mut self) -> (id: usize)
        requires
            old(self)@ < usize::MAX,
        ensures
            id == old(self)@,
            id >= 1,
            final(self)@ == old(self)@ + 1,
    {
        proof {
            use_type_invariant(&*self);
        }
        let id = self.next;
        self.next = self.next + 1;
        id
    }
}

} // verus!
