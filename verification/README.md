# hyperon atoms, verified

The atom tree of an atomspace — symbols, variables, grounded values and
expressions — as a Verus library. Each operation states over the view of an
atom (`AtomView`) what it does, and Verus proves it.

- `src/atom.rs`: the atom types, their views, constructors, equality, copying
  and the text of an atom.
- `src/rename.rs`: the occurrences of variables, renaming, listing the
  variables of an atom and `make_variables_unique`, with the laws of renaming.
- `src/grounded.rs`: grounded values — how a Rust value enters an atom, the
  `Grounded` trait for values with their own behaviour, matching by equality
  and the error of a value that is not executable.
- `src/ids.rs`: the counter that hands out fresh variable ids.
- `src/bindings.rs`: the variable bindings a match produces.
- `app/lib.rs`: a process-wide id counter, the Rust type names of grounded
  values, `Display` for atoms and the `expr!`/`sym!` macros (the plain values
  that `expr!` wraps carry their Rust type name).

A grounded atom holds what the atom logic reads of its value: the value's
`TypeId`, its `Debug` text (which stands for the value in comparisons),
whether the value is equal to itself (a NaN is not, and so an atom that holds
one equals nothing), the text it is shown with and its type where it is
known: the type a value with its own behaviour declares, or the one given to
`Atom::value_of_type` (app/ gives the Rust type name there).
