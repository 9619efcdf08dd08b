//! Atoms: the building blocks of an atomspace.
//!
//! An atom is a symbol, a variable, a grounded value or an expression built
//! from other atoms. The library states what each operation does over the
//! mathematical view of an atom (`AtomView`) and proves it.

pub mod atom;
pub mod bindings;
pub mod grounded;
pub mod ids;
pub mod rename;

pub use atom::{Atom, AtomView, ExpressionAtom, GroundedAtom, GroundedKind, SymbolAtom, VariableAtom};
pub use bindings::Bindings;
pub use grounded::{
    AutoGroundedType, AutoGroundedTypeToAtom, CustomGroundedType, CustomGroundedTypeToAtom, ExecError,
    Grounded, Wrap, execute_not_executable, match_by_equality,
};
pub use ids::VariableIdCounter;
pub use rename::{make_variables_unique, variables};
