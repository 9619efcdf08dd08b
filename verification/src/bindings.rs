//! Variable bindings that a match produces.

use vstd::prelude::*;
use crate::atom::{Atom, AtomView, VariableAtom};

verus! {

/// A set of variable bindings: each variable with the atom bound to it.
#[derive(Debug)]
pub struct Bindings {
    pairs: Vec<(VariableAtom, Atom)>,
}

impl View for Bindings {
    type V = Seq<((Seq<char>, nat), AtomView)>;

    closed spec fn view(&self) -> Seq<((Seq<char>, nat), AtomView)> {
        self.pairs@.map_values(|p: (VariableAtom, Atom)| (p.0@, p.1@))
    }
}

impl Bindings {
    /// No binding at all.
    pub fn new() -> (r: Self)
        ensures
            r@.len() == 0,
    {
        Bindings { pairs: Vec::new() }
    }

    /// Whether no variable is bound.
    pub fn is_empty(&self) -> (r: bool)
        ensures
            r == (self@.len() == 0),
    {
        self.pairs.len() == 0
    }
}

} // verus!
