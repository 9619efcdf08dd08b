//! Grounded atoms: Rust values placed in the atom tree.

use vstd::prelude::*;
use vstd::std_specs::cmp::PartialEqSpec;
use std::fmt::Write;
use crate::atom::{Atom, AtomView, GroundedAtom, GroundedKind};
use crate::bindings::Bindings;

verus! {

/// `std::any::TypeId`: the identity of a Rust type, used here only to tell
/// grounded values of different types apart.
#[verifier::external_type_specification]
#[verifier::external_body]
pub struct ExTypeId(std::any::TypeId);

/// Calls `std::any::TypeId::of::<T>()`. Nothing is stated of the result: it
/// identifies `T`, which no contract here can name.
#[verifier::external_body]
fn type_id_of<T: ?Sized + 'static>() -> std::any::TypeId {
    std::any::TypeId::of::<T>()
}

/// Tells whether two type identities are the same (`TypeId`'s `==`, which
/// compares the identities and nothing else).
#[verifier::external_body]
pub(crate) fn same_type(a: &std::any::TypeId, b: &std::any::TypeId) -> (r: bool)
    ensures
        r == (*a == *b),
{
    a == b
}

/// Writes `v` with its `Debug` impl into a new `String` (`write!`, which
/// unlike `format!` does not panic when the impl reports an error; the text
/// written up to the error is kept). Nothing is stated of the text: it is
/// whatever that impl writes.
#[verifier::external_body]
fn debug_text<T: std::fmt::Debug>(v: &T) -> String {
    let mut s = String::new();
    let _ = write!(s, "{:?}", v);
    s
}

/// Writes `v` with its `Display` impl into a new `String` (`write!`, which
/// does not panic when the impl reports an error; the text written up to the
/// error is kept). Nothing is stated of the text: it is whatever that impl
/// writes.
#[verifier::external_body]
fn display_text<T: std::fmt::Display>(v: &T) -> String {
    let mut s = String::new();
    let _ = write!(s, "{}", v);
    s
}

/// Grounded function execution error.
#[derive(Debug, Clone)]
pub enum ExecError {
    /// Unexpected runtime error thrown by code: the interpreter stops and
    /// returns an error expression.
    Runtime(String),
    /// The expression is to be returned as it is, without reducing.
    NoReduce,
}

impl PartialEq for ExecError {
    fn eq(&self, other: &Self) -> (r: bool) {
        match (self, other) {
            (ExecError::Runtime(a), ExecError::Runtime(b)) => *a == *b,
            (ExecError::NoReduce, ExecError::NoReduce) => true,
            _ => false,
        }
    }
}

impl Eq for ExecError {}

impl vstd::std_specs::cmp::PartialEqSpecImpl for ExecError {
    /// Two errors are equal when they are of the same kind with the same
    /// message.
    open spec fn obeys_eq_spec() -> bool {
        true
    }

    open spec fn eq_spec(&self, other: &Self) -> bool {
        match (self, other) {
            (ExecError::Runtime(a), ExecError::Runtime(b)) => a@ == b@,
            (ExecError::NoReduce, ExecError::NoReduce) => true,
            _ => false,
        }
    }
}

impl From<String> for ExecError {
    fn from(msg: String) -> (r: Self) {
        ExecError::Runtime(msg)
    }
}

impl vstd::std_specs::convert::FromSpecImpl<String> for ExecError {
    /// A message becomes a runtime error with that message.
    open spec fn obeys_from_spec() -> bool {
        true
    }

    open spec fn from_spec(msg: String) -> Self {
        ExecError::Runtime(msg)
    }
}

impl From<&str> for ExecError {
    /// A runtime error with the message `msg`.
    fn from(msg: &str) -> (r: Self)
        ensures
            r matches ExecError::Runtime(m) && m@ == msg@,
    {
        ExecError::runtime(msg)
    }
}

impl vstd::std_specs::convert::FromSpecImpl<&str> for ExecError {
    /// A message becomes a runtime error with that text. No spec value
    /// stands for "the `String` with this text", so this spec claims
    /// nothing; the `from` of this impl states the text of the message.
    open spec fn obeys_from_spec() -> bool {
        false
    }

    open spec fn from_spec(msg: &str) -> Self {
        arbitrary()
    }
}

impl ExecError {
    /// A runtime error with the message `msg`.
    pub fn runtime(msg: &str) -> (r: Self)
        ensures
            r matches ExecError::Runtime(m) && m@ == msg@,
    {
        ExecError::Runtime(String::from_str(msg))
    }
}

/// The message of the error that a grounded atom which is not executable
/// returns, for a value with the `Debug` text `debug`.
pub open spec fn not_executable_message(debug: Seq<char>) -> Seq<char> {
    "Grounded atom is not executable: "@ + debug
}

/// The runtime error that a value with the `Debug` text `debug` returns
/// when it is executed but is not executable.
pub fn not_executable_error(debug: String) -> (r: ExecError)
    ensures
        r matches ExecError::Runtime(m) && m@ == not_executable_message(debug@),
{
    let mut m = String::from_str("Grounded atom is not executable: ");
    m.append(debug.as_str());
    ExecError::Runtime(m)
}

/// Returns a runtime error saying that `this` is not executable. This is
/// the default behaviour of `execute()` for values wrapped automatically.
pub fn execute_not_executable<T: std::fmt::Debug>(this: &T) -> (r: Result<Vec<Atom>, ExecError>)
    ensures
        r matches Err(ExecError::Runtime(m)) && exists|d: Seq<char>| m@ == not_executable_message(d),
{
    let e = not_executable_error(debug_text(this));
    Err(e)
}

/// Whether `other` is a grounded atom that holds a value equal to a value
/// of the type `type_id` with the `Debug` text `debug`, which is equal to
/// itself or not (`reflexive`): a value that is not equal to itself (a NaN)
/// equals nothing.
pub open spec fn holds_value(other: AtomView, type_id: std::any::TypeId, debug: Seq<char>, reflexive: bool) -> bool {
    &&& reflexive
    &&& other matches AtomView::Grounded(g) && g.type_id == type_id && g.debug == debug && g.reflexive
}

/// One empty set of bindings if `other` holds a value equal to a value of
/// the type `type_id` with the `Debug` text `debug` that is equal to itself
/// or not (`reflexive`), and none otherwise.
pub fn match_value(type_id: &std::any::TypeId, debug: &String, reflexive: bool, other: &Atom) -> (r: Vec<Bindings>)
    ensures
        r@.len() == if holds_value(other@, *type_id, debug@, reflexive) { 1int } else { 0int },
        forall|i: int| 0 <= i < r@.len() ==> r@[i]@.len() == 0,
{
    let mut r: Vec<Bindings> = Vec::new();
    if let Atom::Grounded(g) = other {
        if reflexive && g.is_reflexive() && same_type(&g.type_id(), type_id) && *g.debug_text() == *debug {
            r.push(Bindings::new());
        }
    }
    r
}

impl GroundedAtom {
    /// Executes a plain value, which is not executable: the error names the
    /// value as `AutoGroundedAtom(..)` around its `Debug` text. A value with
    /// its own behaviour is executed by its [Grounded] impl, which the atom
    /// does not keep: `None`.
    pub fn execute(&self, _args: &mut Vec<Atom>) -> (r: Option<Result<Vec<Atom>, ExecError>>)
        ensures
            match self@.kind {
                GroundedKind::Auto => r matches Some(Err(ExecError::Runtime(m)))
                    && m@ == not_executable_message("AutoGroundedAtom("@ + self@.debug + ")"@),
                GroundedKind::Custom => r is None,
            },
            final(_args)@ == old(_args)@,
    {
        match self.kind() {
            GroundedKind::Auto => {
                let mut d = String::from_str("AutoGroundedAtom(");
                d.append(self.debug_text().as_str());
                d.append(")");
                Some(Err(not_executable_error(d)))
            },
            GroundedKind::Custom => None,
        }
    }

    /// Matches a plain value against `other` by equality, as
    /// [match_by_equality] does. A value with its own behaviour is matched
    /// by its [Grounded] impl, which the atom does not keep: `None`.
    pub fn match_(&self, other: &Atom) -> (r: Option<Vec<Bindings>>)
        ensures
            match self@.kind {
                GroundedKind::Auto => r matches Some(v)
                    && v@.len() == (if holds_value(other@, self@.type_id, self@.debug, self@.reflexive) {
                        1int
                    } else {
                        0int
                    })
                    && forall|i: int| 0 <= i < v@.len() ==> v@[i]@.len() == 0,
                GroundedKind::Custom => r is None,
            },
    {
        match self.kind() {
            GroundedKind::Auto => Some(match_value(&self.type_id(), self.debug_text(), self.is_reflexive(), other)),
            GroundedKind::Custom => None,
        }
    }
}

/// Returns one empty set of bindings if `other` holds a value equal to
/// `this`, and none otherwise. This is the default behaviour of `match_()`
/// for values wrapped automatically. Whether a binding comes back rests on
/// the `TypeId` of `T` and the `Debug` text of `this`, which come from the
/// calls above and which no contract here can name; [match_value] states
/// the result for each type and text. A value that is not equal to itself
/// matches nothing.
pub fn match_by_equality<T: AutoGroundedType>(this: &T, other: &Atom) -> (r: Vec<Bindings>)
    ensures
        r@.len() <= 1,
        r@.len() == 1 ==> (other@ matches AtomView::Grounded(g) && g.reflexive),
        T::obeys_eq_spec() && !this.eq_spec(this) ==> r@.len() == 0,
        forall|i: int| 0 <= i < r@.len() ==> r@[i]@.len() == 0,
{
    let reflexive = *this == *this;
    let t = type_id_of::<T>();
    let d = debug_text(this);
    match_value(&t, &d, reflexive, other)
}

/// The Rust types that can be wrapped into a grounded atom as they are.
pub trait AutoGroundedType: 'static + PartialEq + Clone + std::fmt::Debug + Sync {}

impl<T> AutoGroundedType for T where T: 'static + PartialEq + Clone + std::fmt::Debug + Sync {}

/// A grounded value with its own behaviour: its type, how it executes, how
/// it matches other atoms.
pub trait Grounded {
    /// The type of the grounded atom; the same each time it is called.
    fn type_(&self) -> (r: Atom);

    /// Executes the grounded function on `args` and returns its results.
    fn execute(&self, args: &mut Vec<Atom>) -> (r: Result<Vec<Atom>, ExecError>);

    /// The bindings of the variables of `other` under which it matches.
    fn match_(&self, other: &Atom) -> (r: Vec<Bindings>);
}

/// The Rust types that can be wrapped into a grounded atom with their own
/// behaviour.
pub trait CustomGroundedType: AutoGroundedType + std::fmt::Display + Grounded {}

impl<T> CustomGroundedType for T where T: AutoGroundedType + std::fmt::Display + Grounded {}

impl Atom {
    /// A grounded atom that wraps `value` with the default behaviour: it is
    /// shown by its `Debug` text, and its type, the Rust type of the value,
    /// is not known here (`GroundedAtom::type_` gives `None`).
    pub fn value<T: AutoGroundedType>(value: T) -> (r: Atom)
        ensures
            r@ matches AtomView::Grounded(g) && g.kind == GroundedKind::Auto && g.display == g.debug
                && (T::obeys_eq_spec() ==> g.reflexive == value.eq_spec(&value))
                && g.typ is None,
    {
        let reflexive = value == value;
        let d = debug_text(&value);
        let shown = d.clone();
        Atom::Grounded(GroundedAtom::new(GroundedKind::Auto, type_id_of::<T>(), d, reflexive, shown, None))
    }

    /// A grounded atom that wraps `value` with the default behaviour, as
    /// [Atom::value] does, and has the type `typ`: the atom that stands for
    /// the Rust type of the value.
    pub fn value_of_type<T: AutoGroundedType>(value: T, typ: Atom) -> (r: Atom)
        ensures
            r@ matches AtomView::Grounded(g) && g.kind == GroundedKind::Auto && g.display == g.debug
                && (T::obeys_eq_spec() ==> g.reflexive == value.eq_spec(&value))
                && g.typ == Some(Box::new(typ@)),
    {
        let reflexive = value == value;
        let d = debug_text(&value);
        let shown = d.clone();
        Atom::Grounded(GroundedAtom::new(GroundedKind::Auto, type_id_of::<T>(), d, reflexive, shown, Some(typ)))
    }

    /// A grounded atom that wraps `gnd` with its own behaviour: it is shown
    /// by its `Display` text and has the type that `gnd` declares.
    pub fn gnd<T: CustomGroundedType>(gnd: T) -> (r: Atom)
        ensures
            r@ matches AtomView::Grounded(g) && g.kind == GroundedKind::Custom
                && (T::obeys_eq_spec() ==> g.reflexive == gnd.eq_spec(&gnd))
                && exists|t: Atom| #[trigger] call_ensures(T::type_, (&gnd,), t) && g.typ == Some(Box::new(t@)),
    {
        let t = gnd.type_();
        let reflexive = gnd == gnd;
        Atom::Grounded(
            GroundedAtom::new(
                GroundedKind::Custom,
                type_id_of::<T>(),
                debug_text(&gnd),
                reflexive,
                display_text(&gnd),
                Some(t),
            ),
        )
    }
}

/// Holds a value for the [AutoGroundedTypeToAtom] and
/// [CustomGroundedTypeToAtom] conversions, which pick the wrapping by the
/// traits the value has.
pub struct Wrap<T>(pub T);

/// Converts a value into a grounded atom with the default behaviour.
pub trait AutoGroundedTypeToAtom {
    fn to_atom(&self) -> (r: Atom);
}

impl<T: AutoGroundedType> AutoGroundedTypeToAtom for Wrap<T> {
    /// Wraps a copy of the value, as [Atom::value] does.
    fn to_atom(&self) -> (r: Atom)
        ensures
            r@ matches AtomView::Grounded(g) && g.kind == GroundedKind::Auto && g.display == g.debug
                && g.typ is None
                && (T::obeys_eq_spec() ==> exists|c: T| #[trigger] cloned::<T>(self.0, c) && g.reflexive == c.eq_spec(&c)),
    {
        let c = self.0.clone();
        proof {
            assert(cloned::<T>(self.0, c));
        }
        Atom::value(c)
    }
}

/// Converts a value into a grounded atom with its own behaviour.
pub trait CustomGroundedTypeToAtom {
    fn to_atom(&self) -> (r: Atom);
}

impl<'a, T: CustomGroundedType> CustomGroundedTypeToAtom for &'a Wrap<T> {
    /// Wraps a copy of the value, as [Atom::gnd] does.
    fn to_atom(&self) -> (r: Atom)
        ensures
            r@ matches AtomView::Grounded(g) && g.kind == GroundedKind::Custom
                && (T::obeys_eq_spec() ==> exists|c: T| #[trigger] cloned::<T>(self.0, c) && g.reflexive == c.eq_spec(&c))
                && exists|c: T, t: Atom| #[trigger] cloned::<T>(self.0, c) && #[trigger] call_ensures(T::type_, (&c,), t)
                    && g.typ == Some(Box::new(t@)),
    {
        let c = self.0.clone();
        proof {
            assert(cloned::<T>(self.0, c));
        }
        Atom::gnd(c)
    }
}

} // verus!
