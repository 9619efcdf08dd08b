//! The atom tree: symbols, variables, grounded values and expressions.

use vstd::prelude::*;
use crate::grounded::same_type;

verus! {

/// Which constructor made a grounded atom: [Atom::value] wraps a plain Rust
/// value, [Atom::gnd] a value with its own grounded behaviour.
#[derive(Debug, Clone, Copy, PartialEq, Eq, Structural)]
pub enum GroundedKind {
    Auto,
    Custom,
}

/// A symbol atom: a named concept. Two symbols with the same name are equal.
#[derive(Debug, Hash)]
pub struct SymbolAtom {
    name: String,
}

/// An expression atom: an ordered list of sub-atoms.
#[derive(Debug)]
pub struct ExpressionAtom {
    children: Vec<Atom>,
}

/// A variable atom: a name and an id; id 0 marks a variable written by the
/// user, other ids come from [crate::VariableIdCounter].
#[derive(Debug, Hash)]
pub struct VariableAtom {
    name: String,
    id: usize,
}

/// A grounded atom, held by what the atom logic reads of the wrapped Rust
/// value: the constructor that made it, the value's type, its `Debug` text
/// (which stands for the value in comparisons), whether the value is equal
/// to itself (a NaN is not), the text the atom is shown with, and the type
/// of the atom where it is known.
#[derive(Debug)]
pub struct GroundedAtom {
    kind: GroundedKind,
    type_id: std::any::TypeId,
    debug: String,
    reflexive: bool,
    display: String,
    typ: Option<Box<Atom>>,
}

/// An atom.
#[derive(Debug)]
pub enum Atom {
    Symbol(SymbolAtom),
    Expression(ExpressionAtom),
    Variable(VariableAtom),
    Grounded(GroundedAtom),
}

/// What a grounded atom is, as a mathematical value.
pub struct GroundedView {
    pub kind: GroundedKind,
    pub type_id: std::any::TypeId,
    pub debug: Seq<char>,
    pub reflexive: bool,
    pub display: Seq<char>,
    pub typ: Option<Box<AtomView>>,
}

/// What an atom is, as a mathematical value.
pub enum AtomView {
    Symbol(Seq<char>),
    Expression(Seq<AtomView>),
    Variable(Seq<char>, nat),
    Grounded(GroundedView),
}

/// The view of an atom: its kind and the views of its parts.
pub open spec fn atom_view(a: Atom) -> AtomView
    decreases a,
{
    match a {
        Atom::Symbol(s) => AtomView::Symbol(symbol_name(s)),
        Atom::Expression(e) => AtomView::Expression(expression_children(e)),
        Atom::Variable(v) => AtomView::Variable(variable_name(v), variable_id(v)),
        Atom::Grounded(g) => AtomView::Grounded(grounded_view(g)),
    }
}

/// The views of a sequence of atoms, one for one.
pub open spec fn views(s: Seq<Atom>) -> Seq<AtomView>
    decreases s,
{
    if s.len() == 0 {
        Seq::empty()
    } else {
        views(s.drop_last()).push(atom_view(s.last()))
    }
}

/// The name of a symbol.
pub closed spec fn symbol_name(s: SymbolAtom) -> Seq<char> {
    s.name@
}

/// The views of the sub-atoms of an expression.
pub closed spec fn expression_children(e: ExpressionAtom) -> Seq<AtomView>
    decreases e,
{
    views(e.children@)
}

/// The name of a variable.
pub closed spec fn variable_name(v: VariableAtom) -> Seq<char> {
    v.name@
}

/// The id of a variable.
pub closed spec fn variable_id(v: VariableAtom) -> nat {
    v.id as nat
}

/// What a grounded atom holds.
pub closed spec fn grounded_view(g: GroundedAtom) -> GroundedView
    decreases g,
{
    GroundedView {
        kind: g.kind,
        type_id: g.type_id,
        debug: g.debug@,
        reflexive: g.reflexive,
        display: g.display@,
        typ: match g.typ {
            Some(t) => Some(Box::new(atom_view(*t))),
            None => None,
        },
    }
}

impl View for Atom {
    type V = AtomView;

    open spec fn view(&self) -> AtomView {
        atom_view(*self)
    }
}

impl View for SymbolAtom {
    type V = Seq<char>;

    open spec fn view(&self) -> Seq<char> {
        symbol_name(*self)
    }
}

impl View for ExpressionAtom {
    type V = Seq<AtomView>;

    open spec fn view(&self) -> Seq<AtomView> {
        expression_children(*self)
    }
}

impl View for VariableAtom {
    type V = (Seq<char>, nat);

    open spec fn view(&self) -> (Seq<char>, nat) {
        (variable_name(*self), variable_id(*self))
    }
}

impl View for GroundedAtom {
    type V = GroundedView;

    open spec fn view(&self) -> GroundedView {
        grounded_view(*self)
    }
}

/// `views` keeps the length and maps each atom to its view.
pub proof fn lemma_views(s: Seq<Atom>)
    ensures
        views(s).len() == s.len(),
        forall|i: int| 0 <= i < s.len() ==> #[trigger] views(s)[i] == atom_view(s[i]),
    decreases s.len(),
{
    if s.len() > 0 {
        lemma_views(s.drop_last());
        assert forall|i: int| 0 <= i < s.len() implies #[trigger] views(s)[i] == atom_view(s[i]) by {
            if i < s.len() - 1 {
                assert(s.drop_last()[i] == s[i]);
            }
        }
    }
}

impl SymbolAtom {
    /// A symbol named `name`.
    pub fn new(name: String) -> (r: Self)
        ensures
            r@ == name@,
    {
        SymbolAtom { name }
    }

    /// The name of the symbol.
    pub fn name(&self) -> (r: &str)
        ensures
            r@ == self@,
    {
        self.name.as_str()
    }
}

impl ExpressionAtom {
    fn new(children: Vec<Atom>) -> (r: Self)
        ensures
            r@ == views(children@),
    {
        ExpressionAtom { children }
    }

    /// The sub-atoms of the expression.
    pub fn children(&self) -> (r: &Vec<Atom>)
        ensures
            views(r@) == self@,
    {
        &self.children
    }

    /// The sub-atoms of the expression, to be changed in place.
    pub fn children_mut(&mut self) -> (r: &mut Vec<Atom>)
        ensures
            views(r@) == old(self)@,
            final(self)@ == views(final(r)@),
    {
        &mut self.children
    }
}

impl VariableAtom {
    /// A variable named `name`, as a user writes it (id 0).
    pub fn new(name: &str) -> (r: Self)
        ensures
            r@ == (name@, 0nat),
    {
        VariableAtom { name: String::from_str(name), id: 0 }
    }

    /// The name of the variable.
    pub fn name(&self) -> (r: &str)
        ensures
            r@ == self@.0,
    {
        self.name.as_str()
    }
}

impl Atom {
    /// A symbol atom named `name`.
    pub fn sym(name: &str) -> (r: Atom)
        ensures
            r@ == AtomView::Symbol(name@),
    {
        Atom::Symbol(SymbolAtom::new(String::from_str(name)))
    }

    /// An expression atom with the given sub-atoms.
    pub fn expr(children: Vec<Atom>) -> (r: Atom)
        ensures
            r@ == AtomView::Expression(views(children@)),
    {
        Atom::Expression(ExpressionAtom::new(children))
    }

    /// A variable atom named `name`, as a user writes it (id 0).
    pub fn var(name: &str) -> (r: Atom)
        ensures
            r@ == AtomView::Variable(name@, 0),
    {
        Atom::Variable(VariableAtom::new(name))
    }
}

/// Whether two grounded atoms are equal: they were made by the same
/// constructor from values of the same type with the same texts, and each
/// value is equal to itself. The type an atom declares takes no part.
pub open spec fn grounded_equal(g: GroundedView, h: GroundedView) -> bool {
    &&& g.kind == h.kind
    &&& g.type_id == h.type_id
    &&& g.debug == h.debug
    &&& g.display == h.display
    &&& g.reflexive
    &&& h.reflexive
}

/// Whether two atoms are equal: symbols by name, variables by name and id,
/// expressions sub-atom by sub-atom, grounded atoms by [grounded_equal].
pub open spec fn atoms_equal(a: AtomView, b: AtomView) -> bool
    decreases a, 0nat,
{
    match a {
        AtomView::Symbol(x) => b == AtomView::Symbol(x),
        AtomView::Variable(x, i) => b == AtomView::Variable(x, i),
        AtomView::Expression(xs) => match b {
            AtomView::Expression(ys) => xs.len() == ys.len() && prefix_equal(xs, ys, xs.len()),
            _ => false,
        },
        AtomView::Grounded(g) => match b {
            AtomView::Grounded(h) => grounded_equal(g, h),
            _ => false,
        },
    }
}

/// Whether the first `n` atoms of `xs` are equal to those of `ys`, one for
/// one (`xs` has at least `n`).
pub open spec fn prefix_equal(xs: Seq<AtomView>, ys: Seq<AtomView>, n: nat) -> bool
    decreases xs, n,
{
    if n == 0 {
        true
    } else if n > xs.len() {
        false
    } else {
        prefix_equal(xs, ys, (n - 1) as nat) && atoms_equal(xs[n - 1], ys[n - 1])
    }
}

/// The first `n` atoms are equal exactly when each of them is.
pub proof fn lemma_prefix_equal(xs: Seq<AtomView>, ys: Seq<AtomView>, n: nat)
    requires
        n <= xs.len(),
    ensures
        prefix_equal(xs, ys, n) <==> forall|k: int| 0 <= k < n ==> #[trigger] atoms_equal(xs[k], ys[k]),
    decreases n,
{
    if n > 0 {
        lemma_prefix_equal(xs, ys, (n - 1) as nat);
        if forall|k: int| 0 <= k < n - 1 ==> #[trigger] atoms_equal(xs[k], ys[k]) {
            if atoms_equal(xs[n - 1], ys[n - 1]) {
                assert forall|k: int| 0 <= k < n implies #[trigger] atoms_equal(xs[k], ys[k]) by {
                    if k < n - 1 {
                        assert(atoms_equal(xs[k], ys[k]));
                    }
                }
            }
        }
    }
}

/// Compares two atoms.
fn atom_eq(a: &Atom, b: &Atom) -> (r: bool)
    ensures
        r == atoms_equal(a@, b@),
    decreases a,
{
    match (a, b) {
        (Atom::Symbol(x), Atom::Symbol(y)) => x.name == y.name,
        (Atom::Variable(x), Atom::Variable(y)) => x.name == y.name && x.id == y.id,
        (Atom::Expression(x), Atom::Expression(y)) => {
            proof {
                assert(decreases_to!(*a => (*a)->Expression_0));
            }
            expression_eq(x, y)
        },
        (Atom::Grounded(x), Atom::Grounded(y)) => grounded_eq(x, y),
        _ => false,
    }
}

/// Compares two expressions sub-atom by sub-atom.
fn expression_eq(x: &ExpressionAtom, y: &ExpressionAtom) -> (r: bool)
    ensures
        r == atoms_equal(AtomView::Expression(x@), AtomView::Expression(y@)),
    decreases x,
{
    proof {
        lemma_views(x.children@);
        lemma_views(y.children@);
    }
    let ghost xs = views(x.children@);
    let ghost ys = views(y.children@);
    let n = x.children.len();
    if n != y.children.len() {
        return false;
    }
    let mut i: usize = 0;
    while i < n
        invariant
            n == x.children@.len(),
            n == y.children@.len(),
            xs == views(x.children@),
            ys == views(y.children@),
            xs.len() == n,
            ys.len() == n,
            forall|j: int| 0 <= j < n ==> #[trigger] xs[j] == atom_view(x.children@[j]),
            forall|j: int| 0 <= j < n ==> #[trigger] ys[j] == atom_view(y.children@[j]),
            0 <= i <= n,
            forall|j: int| 0 <= j < i ==> #[trigger] atoms_equal(xs[j], ys[j]),
        decreases n - i,
    {
        proof {
            assert(decreases_to!(*x => x.children));
            assert(decreases_to!(x.children => x.children@));
            assert(decreases_to!(x.children@ => x.children@[i as int]));
        }
        if !atom_eq(&x.children[i], &y.children[i]) {
            assert(!atoms_equal(xs[i as int], ys[i as int]));
            proof {
                lemma_prefix_equal(xs, ys, xs.len());
            }
            assert(x@ == xs && y@ == ys);
            return false;
        }
        i = i + 1;
    }
    proof {
        lemma_prefix_equal(xs, ys, xs.len());
    }
    assert(x@ == xs && y@ == ys);
    true
}

/// Compares two grounded atoms.
fn grounded_eq(x: &GroundedAtom, y: &GroundedAtom) -> (r: bool)
    ensures
        r == grounded_equal(x@, y@),
{
    x.kind == y.kind && same_type(&x.type_id, &y.type_id) && x.debug == y.debug && x.display == y.display
        && x.reflexive && y.reflexive
}

/// Copies an atom.
fn atom_clone(a: &Atom) -> (r: Atom)
    ensures
        r@ == a@,
    decreases a,
{
    match a {
        Atom::Symbol(x) => Atom::Symbol(SymbolAtom { name: x.name.clone() }),
        Atom::Variable(x) => Atom::Variable(VariableAtom { name: x.name.clone(), id: x.id }),
        Atom::Expression(x) => {
            proof {
                assert(decreases_to!(*a => (*a)->Expression_0));
            }
            Atom::Expression(expression_clone(x))
        },
        Atom::Grounded(x) => {
            proof {
                assert(decreases_to!(*a => (*a)->Grounded_0));
            }
            Atom::Grounded(grounded_clone(x))
        },
    }
}

/// Copies an expression.
fn expression_clone(x: &ExpressionAtom) -> (r: ExpressionAtom)
    ensures
        r@ == x@,
    decreases x,
{
    let n = x.children.len();
    let mut children: Vec<Atom> = Vec::new();
    let mut i: usize = 0;
    while i < n
        invariant
            n == x.children@.len(),
            0 <= i <= n,
            children@.len() == i,
            forall|j: int| 0 <= j < i ==> atom_view(#[trigger] children@[j]) == atom_view(x.children@[j]),
        decreases n - i,
    {
        proof {
            assert(decreases_to!(*x => x.children));
            assert(decreases_to!(x.children => x.children@));
            assert(decreases_to!(x.children@ => x.children@[i as int]));
        }
        let c = atom_clone(&x.children[i]);
        children.push(c);
        i = i + 1;
    }
    proof {
        lemma_views(x.children@);
        lemma_views(children@);
        assert(views(x.children@) =~= views(children@));
    }
    ExpressionAtom { children }
}

/// Copies a grounded atom.
fn grounded_clone(x: &GroundedAtom) -> (r: GroundedAtom)
    ensures
        r@ == x@,
    decreases x,
{
    let typ = match &x.typ {
        Some(t) => {
            proof {
                assert(decreases_to!(*x => x.typ));
            }
            Some(Box::new(atom_clone(t)))
        },
        None => None,
    };
    GroundedAtom {
        kind: x.kind,
        type_id: x.type_id,
        debug: x.debug.clone(),
        reflexive: x.reflexive,
        display: x.display.clone(),
        typ,
    }
}

impl Clone for Atom {
    /// A copy of the atom, with the same view.
    fn clone(&self) -> (r: Self)
        ensures
            r@ == self@,
    {
        atom_clone(self)
    }
}

impl Clone for SymbolAtom {
    /// A copy of the symbol, with the same name.
    fn clone(&self) -> (r: Self)
        ensures
            r@ == self@,
    {
        SymbolAtom { name: self.name.clone() }
    }
}

impl Clone for ExpressionAtom {
    /// A copy of the expression, with the same sub-atoms.
    fn clone(&self) -> (r: Self)
        ensures
            r@ == self@,
    {
        expression_clone(self)
    }
}

impl Clone for GroundedAtom {
    /// A copy of the grounded atom, with the same view.
    fn clone(&self) -> (r: Self)
        ensures
            r@ == self@,
    {
        grounded_clone(self)
    }
}

impl PartialEq for ExpressionAtom {
    fn eq(&self, other: &Self) -> (r: bool) {
        expression_eq(self, other)
    }
}

impl Eq for ExpressionAtom {}

impl vstd::std_specs::cmp::PartialEqSpecImpl for ExpressionAtom {
    /// Two expressions are equal when their sub-atoms are, one for one.
    open spec fn obeys_eq_spec() -> bool {
        true
    }

    open spec fn eq_spec(&self, other: &Self) -> bool {
        atoms_equal(AtomView::Expression(self@), AtomView::Expression(other@))
    }
}

impl PartialEq for GroundedAtom {
    fn eq(&self, other: &Self) -> (r: bool) {
        grounded_eq(self, other)
    }
}

impl Eq for GroundedAtom {}

impl vstd::std_specs::cmp::PartialEqSpecImpl for GroundedAtom {
    /// Two grounded atoms are equal when they were made by the same
    /// constructor from values of the same type with the same texts, each
    /// equal to itself.
    open spec fn obeys_eq_spec() -> bool {
        true
    }

    open spec fn eq_spec(&self, other: &Self) -> bool {
        grounded_equal(self@, other@)
    }
}

impl PartialEq for Atom {
    fn eq(&self, other: &Self) -> (r: bool) {
        atom_eq(self, other)
    }
}

impl Eq for Atom {}

impl vstd::std_specs::cmp::PartialEqSpecImpl for Atom {
    /// Two atoms are equal as [atoms_equal] says.
    open spec fn obeys_eq_spec() -> bool {
        true
    }

    open spec fn eq_spec(&self, other: &Self) -> bool {
        atoms_equal(self@, other@)
    }
}

/// The character of a decimal digit.
pub open spec fn digit_char(d: nat) -> char
    recommends
        d < 10,
{
    seq!['0', '1', '2', '3', '4', '5', '6', '7', '8', '9'][d as int]
}

/// The decimal digits of `n`, most significant first, with no leading zero.
pub open spec fn decimal(n: nat) -> Seq<char>
    decreases n,
{
    if n < 10 {
        seq![digit_char(n)]
    } else {
        decimal(n / 10) + seq![digit_char(n % 10)]
    }
}

/// How a variable is shown: `$name`, and `-id` after it for an id other
/// than 0.
pub open spec fn variable_text(name: Seq<char>, id: nat) -> Seq<char> {
    if id == 0 {
        seq!['$'] + name
    } else {
        seq!['$'] + name + seq!['-'] + decimal(id)
    }
}

/// How an atom is shown: a symbol by its name, a variable as in
/// [variable_text], a grounded atom by its text, and an expression as its
/// sub-atoms between parentheses, separated by single spaces.
pub open spec fn atom_text(a: AtomView) -> Seq<char>
    decreases a,
{
    match a {
        AtomView::Symbol(name) => name,
        AtomView::Variable(name, id) => variable_text(name, id),
        AtomView::Grounded(g) => g.display,
        AtomView::Expression(children) => seq!['('] + joined_text(children) + seq![')'],
    }
}

/// The texts of `children`, separated by single spaces.
pub open spec fn joined_text(children: Seq<AtomView>) -> Seq<char>
    decreases children,
{
    if children.len() == 0 {
        Seq::empty()
    } else if children.len() == 1 {
        atom_text(children[0])
    } else {
        joined_text(children.drop_last()) + seq![' '] + atom_text(children.last())
    }
}

fn digit_str(d: usize) -> (r: &'static str)
    requires
        d < 10,
    ensures
        r@ == seq![digit_char(d as nat)],
{
    proof {
        reveal_strlit("0");
        reveal_strlit("1");
        reveal_strlit("2");
        reveal_strlit("3");
        reveal_strlit("4");
        reveal_strlit("5");
        reveal_strlit("6");
        reveal_strlit("7");
        reveal_strlit("8");
        reveal_strlit("9");
    }
    match d {
        0 => "0",
        1 => "1",
        2 => "2",
        3 => "3",
        4 => "4",
        5 => "5",
        6 => "6",
        7 => "7",
        8 => "8",
        _ => "9",
    }
}

fn write_decimal(out: &mut String, n: usize)
    ensures
        final(out)@ == old(out)@ + decimal(n as nat),
    decreases n,
{
    if n >= 10 {
        write_decimal(out, n / 10);
    }
    out.append(digit_str(n % 10));
    proof {
        if n >= 10 {
            assert(final(out)@ =~= old(out)@ + decimal(n as nat));
        } else {
            assert(final(out)@ =~= old(out)@ + decimal(n as nat));
        }
    }
}

fn write_variable(v: &VariableAtom, out: &mut String)
    ensures
        final(out)@ == old(out)@ + variable_text(v@.0, v@.1),
{
    proof {
        reveal_strlit("$");
        reveal_strlit("-");
    }
    out.append("$");
    out.append(v.name.as_str());
    if v.id != 0 {
        out.append("-");
        write_decimal(out, v.id);
    }
    assert(final(out)@ =~= old(out)@ + variable_text(v@.0, v@.1));
}

proof fn lemma_joined_step(s: Seq<AtomView>, i: int)
    requires
        0 <= i < s.len(),
    ensures
        joined_text(s.take(i + 1)) == if i == 0 {
            atom_text(s[i])
        } else {
            joined_text(s.take(i)) + seq![' '] + atom_text(s[i])
        },
{
    assert(s.take(i + 1).drop_last() =~= s.take(i));
    assert(s.take(i + 1).last() == s[i]);
    if i == 0 {
        assert(s.take(i + 1)[0] == s[0]);
    }
}

fn write_atom(a: &Atom, out: &mut String)
    ensures
        final(out)@ == old(out)@ + atom_text(a@),
    decreases a,
{
    match a {
        Atom::Symbol(x) => {
            out.append(x.name.as_str());
        },
        Atom::Variable(x) => {
            write_variable(x, out);
        },
        Atom::Grounded(x) => {
            out.append(x.display.as_str());
        },
        Atom::Expression(x) => {
            proof {
                assert(decreases_to!(*a => (*a)->Expression_0));
            }
            write_expression(x, out);
        },
    }
}

fn write_expression(x: &ExpressionAtom, out: &mut String)
    ensures
        final(out)@ == old(out)@ + atom_text(AtomView::Expression(x@)),
    decreases x,
{
    proof {
        reveal_strlit("(");
        reveal_strlit(")");
        lemma_views(x.children@);
    }
    let ghost start = out@;
    let ghost cs = views(x.children@);
    out.append("(");
    let n = x.children.len();
    let mut i: usize = 0;
    while i < n
        invariant
            n == x.children@.len(),
            cs == views(x.children@),
            cs.len() == n,
            forall|j: int| 0 <= j < n ==> #[trigger] cs[j] == atom_view(x.children@[j]),
            0 <= i <= n,
            out@ == start + seq!['('] + joined_text(cs.take(i as int)),
        decreases n - i,
    {
        proof {
            assert(decreases_to!(*x => x.children));
            assert(decreases_to!(x.children => x.children@));
            assert(decreases_to!(x.children@ => x.children@[i as int]));
            lemma_joined_step(cs, i as int);
            reveal_strlit(" ");
        }
        if i > 0 {
            out.append(" ");
        }
        write_atom(&x.children[i], out);
        assert(out@ =~= start + seq!['('] + joined_text(cs.take(i + 1)));
        i = i + 1;
    }
    out.append(")");
    proof {
        assert(cs.take(n as int) =~= cs);
    }
}

impl SymbolAtom {
    /// The text of the symbol: its name.
    pub fn to_string(&self) -> (r: String)
        ensures
            r@ == self@,
    {
        self.name.clone()
    }
}

impl VariableAtom {
    /// The text of the variable: `$name`, or `$name-id` for an id other than 0.
    pub fn to_string(&self) -> (r: String)
        ensures
            r@ == variable_text(self@.0, self@.1),
    {
        let mut out = String::new();
        write_variable(self, &mut out);
        out
    }
}

impl ExpressionAtom {
    /// The text of the expression: its sub-atoms' texts between parentheses,
    /// separated by single spaces.
    pub fn to_string(&self) -> (r: String)
        ensures
            r@ == atom_text(AtomView::Expression(self@)),
    {
        let mut out = String::new();
        write_expression(self, &mut out);
        proof {
            assert(out@ =~= atom_text(AtomView::Expression(self@)));
        }
        out
    }
}

impl Atom {
    /// The text of the atom, as [atom_text] states it.
    pub fn to_string(&self) -> (r: String)
        ensures
            r@ == atom_text(self@),
    {
        let mut out = String::new();
        write_atom(self, &mut out);
        proof {
            assert(out@ =~= atom_text(self@));
        }
        out
    }
}

impl Clone for VariableAtom {
    /// A copy of the variable, with the same name and id.
    fn clone(&self) -> (r: Self)
        ensures
            r@ == self@,
    {
        VariableAtom { name: self.name.clone(), id: self.id }
    }
}

impl PartialEq for VariableAtom {
    fn eq(&self, other: &Self) -> (r: bool) {
        self.name == other.name && self.id == other.id
    }
}

impl Eq for VariableAtom {}

impl vstd::std_specs::cmp::PartialEqSpecImpl for VariableAtom {
    /// Two variables are equal when they have the same name and the same id.
    open spec fn obeys_eq_spec() -> bool {
        true
    }

    open spec fn eq_spec(&self, other: &Self) -> bool {
        self@ == other@
    }
}

impl PartialEq for SymbolAtom {
    fn eq(&self, other: &Self) -> (r: bool) {
        self.name == other.name
    }
}

impl Eq for SymbolAtom {}

impl vstd::std_specs::cmp::PartialEqSpecImpl for SymbolAtom {
    /// Two symbols are equal when they have the same name.
    open spec fn obeys_eq_spec() -> bool {
        true
    }

    open spec fn eq_spec(&self, other: &Self) -> bool {
        self@ == other@
    }
}

impl VariableAtom {
    /// A variable with the same name and a fresh id from `ids`.
    pub fn make_unique(&self, ids: &mut crate::ids::VariableIdCounter) -> (r: Self)
        requires
            old(ids)@ < usize::MAX,
        ensures
            r@ == (self@.0, old(ids)@),
            r@.1 >= 1,
            final(ids)@ == old(ids)@ + 1,
    {
        VariableAtom { name: self.name.clone(), id: ids.next_variable_id() }
    }
}

impl ExpressionAtom {
    /// Whether no sub-atom is an expression.
    pub fn is_plain(&self) -> (r: bool)
        ensures
            r == (forall|i: int| 0 <= i < self@.len() ==> !(#[trigger] self@[i] is Expression)),
    {
        proof {
            lemma_views(self.children@);
        }
        let n = self.children.len();
        let mut i: usize = 0;
        while i < n
            invariant
                n == self.children@.len(),
                views(self.children@).len() == n,
                forall|j: int| 0 <= j < n ==> #[trigger] views(self.children@)[j] == atom_view(self.children@[j]),
                0 <= i <= n,
                forall|j: int| 0 <= j < i ==> !(#[trigger] views(self.children@)[j] is Expression),
            decreases n - i,
        {
            if let Atom::Expression(_) = &self.children[i] {
                assert(views(self.children@)[i as int] is Expression);
                return false;
            }
            i = i + 1;
        }
        true
    }
}

impl GroundedAtom {
    /// A grounded atom made by the given constructor, for a value of the
    /// type `type_id` with the `Debug` text `debug` that is equal to itself
    /// or not (`reflexive`), shown as `display`, and with the type `typ`
    /// where it is known.
    pub(crate) fn new(
        kind: GroundedKind,
        type_id: std::any::TypeId,
        debug: String,
        reflexive: bool,
        display: String,
        typ: Option<Atom>,
    ) -> (r: Self)
        ensures
            r@ == (GroundedView {
                kind,
                type_id,
                debug: debug@,
                reflexive,
                display: display@,
                typ: match typ {
                    Some(t) => Some(Box::new(t@)),
                    None => None,
                },
            }),
    {
        let typ = match typ {
            Some(t) => Some(Box::new(t)),
            None => None,
        };
        GroundedAtom { kind, type_id, debug, reflexive, display, typ }
    }

    /// Which constructor made the atom.
    pub fn kind(&self) -> (r: GroundedKind)
        ensures
            r == self@.kind,
    {
        self.kind
    }

    /// The type of the atom: the one that a value with its own grounded
    /// behaviour declared, or the one given to [Atom::value_of_type]; `None`
    /// for an atom made by [Atom::value], whose type is its Rust type.
    pub fn type_(&self) -> (r: Option<Atom>)
        ensures
            match r {
                Some(t) => self@.typ == Some(Box::new(t@)),
                None => self@.typ is None,
            },
    {
        match &self.typ {
            Some(t) => Some(atom_clone(t)),
            None => None,
        }
    }

    pub(crate) fn type_id(&self) -> (r: std::any::TypeId)
        ensures
            r == self@.type_id,
    {
        self.type_id
    }

    pub(crate) fn debug_text(&self) -> (r: &String)
        ensures
            r@ == self@.debug,
    {
        &self.debug
    }

    pub(crate) fn is_reflexive(&self) -> (r: bool)
        ensures
            r == self@.reflexive,
    {
        self.reflexive
    }

    /// The text the atom is shown with.
    pub fn to_string(&self) -> (r: String)
        ensures
            r@ == self@.display,
    {
        self.display.clone()
    }
}

/// Two symbols are the same atom exactly when they have the same name, and
/// so are two variables as a user writes them ([Atom::sym], [Atom::var]).
pub proof fn law_equal_by_name(n1: Seq<char>, n2: Seq<char>)
    ensures
        (AtomView::Symbol(n1) == AtomView::Symbol(n2)) <==> n1 == n2,
        (AtomView::Variable(n1, 0) == AtomView::Variable(n2, 0)) <==> n1 == n2,
{
}

/// A grounded atom made by [Atom::value] is never equal to one made by
/// [Atom::gnd], whatever values they wrap.
pub proof fn law_plain_and_custom_values_differ(g1: GroundedView, g2: GroundedView)
    requires
        g1.kind == GroundedKind::Auto,
        g2.kind == GroundedKind::Custom,
    ensures
        !atoms_equal(AtomView::Grounded(g1), AtomView::Grounded(g2)),
        AtomView::Grounded(g1) != AtomView::Grounded(g2),
{
}

/// A unique copy of a variable (id 1 or more) is shown as `$name-id`, with
/// at least one digit, so never as the variable a user writes, `$name`.
pub proof fn law_unique_variable_text(name: Seq<char>, id: nat)
    requires
        id >= 1,
    ensures
        variable_text(name, id) == seq!['$'] + name + seq!['-'] + decimal(id),
        decimal(id).len() >= 1,
        variable_text(name, id) != variable_text(name, 0),
{
    assert(decimal(id).len() >= 1);
    assert(variable_text(name, id).len() > variable_text(name, 0).len());
}

/// Atom equality is symmetric and transitive. It is not reflexive: an atom
/// that holds a value not equal to itself (a NaN) is not equal to itself.
pub proof fn law_atom_equality_is_symmetric_and_transitive(a: AtomView, b: AtomView, c: AtomView)
    ensures
        atoms_equal(a, b) ==> atoms_equal(b, a),
        atoms_equal(a, b) && atoms_equal(b, c) ==> atoms_equal(a, c),
    decreases a,
{
    if let AtomView::Expression(xs) = a {
        if let AtomView::Expression(ys) = b {
            if atoms_equal(a, b) {
                lemma_prefix_equal(xs, ys, xs.len());
                lemma_prefix_equal(ys, xs, ys.len());
                assert forall|k: int| 0 <= k < ys.len() implies #[trigger] atoms_equal(ys[k], xs[k]) by {
                    assert(atoms_equal(xs[k], ys[k]));
                    assert(decreases_to!(a => xs[k]));
                    law_atom_equality_is_symmetric_and_transitive(xs[k], ys[k], ys[k]);
                }
                if let AtomView::Expression(zs) = c {
                    if atoms_equal(b, c) {
                        lemma_prefix_equal(ys, zs, ys.len());
                        lemma_prefix_equal(xs, zs, xs.len());
                        assert forall|k: int| 0 <= k < xs.len() implies #[trigger] atoms_equal(xs[k], zs[k]) by {
                            assert(atoms_equal(xs[k], ys[k]));
                            assert(atoms_equal(ys[k], zs[k]));
                            assert(decreases_to!(a => xs[k]));
                            law_atom_equality_is_symmetric_and_transitive(xs[k], ys[k], zs[k]);
                        }
                    }
                }
            }
        }
    }
}

/// A unique copy of a variable (id 1 or more, as `make_unique` gives) keeps
/// the name and is never equal to the variable a user writes (id 0), while
/// two variables a user writes are equal exactly when their names are.
pub proof fn law_unique_copy_differs_from_written_variable(name: Seq<char>, other: Seq<char>, id: nat)
    requires
        id >= 1,
    ensures
        !atoms_equal(AtomView::Variable(name, id), AtomView::Variable(name, 0)),
        atoms_equal(AtomView::Variable(name, 0), AtomView::Variable(other, 0)) <==> name == other,
{
}

/// The value of a string of decimal digits, most significant first.
pub open spec fn numeral_value(s: Seq<char>) -> int
    decreases s.len(),
{
    if s.len() == 0 {
        0
    } else {
        numeral_value(s.drop_last()) * 10 + (s.last() as int - '0' as int)
    }
}

/// The text of an id reads back as the id: it is made of the digits `0` to
/// `9` only, their base-10 value is `n`, and it starts with `0` only for 0.
pub proof fn law_decimal_reads_back(n: nat)
    ensures
        decimal(n).len() >= 1,
        forall|i: int| 0 <= i < decimal(n).len() ==> '0' <= #[trigger] decimal(n)[i] <= '9',
        numeral_value(decimal(n)) == n,
        n > 0 ==> decimal(n)[0] != '0',
    decreases n,
{
    let d: nat = n % 10;
    assert('0' as int <= digit_char(d) as int <= '9' as int && digit_char(d) as int - '0' as int == d) by {
        if d == 0 {} else if d == 1 {} else if d == 2 {} else if d == 3 {} else if d == 4 {}
        else if d == 5 {} else if d == 6 {} else if d == 7 {} else if d == 8 {} else {}
    }
    if n >= 10 {
        let q: nat = n / 10;
        law_decimal_reads_back(q);
        let s = decimal(n);
        assert(s == decimal(q) + seq![digit_char(d)]);
        assert(s.drop_last() =~= decimal(q));
        assert(s.last() == digit_char(d));
        assert(q * 10 + d == n);
        assert forall|i: int| 0 <= i < s.len() implies '0' <= #[trigger] s[i] <= '9' by {
            if i < decimal(q).len() {
                assert(s[i] == decimal(q)[i]);
            }
        }
        assert(s[0] == decimal(q)[0]);
        assert(numeral_value(s) == numeral_value(s.drop_last()) * 10 + (s.last() as int - '0' as int));
    } else {
        let s = decimal(n);
        assert(d == n);
        assert(s == seq![digit_char(d)]);
        assert(s.drop_last() =~= Seq::<char>::empty());
        assert(numeral_value(s.drop_last()) == 0);
        assert(numeral_value(s) == numeral_value(s.drop_last()) * 10 + (s.last() as int - '0' as int));
    }
}

/// Atoms of different kinds are never equal: equal atoms are both symbols,
/// both variables, both expressions or both grounded atoms. Symbols are
/// equal exactly when their names are, variables exactly when their names
/// and ids are, grounded atoms exactly when they were made by the same
/// constructor from values of the same type with the same texts, each equal
/// to itself.
pub proof fn law_equal_atoms_are_of_one_kind(a: AtomView, b: AtomView)
    ensures
        atoms_equal(a, b) ==> (a is Symbol && b is Symbol) || (a is Variable && b is Variable)
            || (a is Expression && b is Expression) || (a is Grounded && b is Grounded),
        match (a, b) {
            (AtomView::Symbol(x), AtomView::Symbol(y)) => atoms_equal(a, b) <==> x == y,
            (AtomView::Variable(x, i), AtomView::Variable(y, j)) => atoms_equal(a, b) <==> (x == y && i == j),
            (AtomView::Grounded(g), AtomView::Grounded(h)) => atoms_equal(a, b) <==> (g.kind == h.kind
                && g.type_id == h.type_id && g.debug == h.debug && g.display == h.display && g.reflexive
                && h.reflexive),
            (AtomView::Expression(_), AtomView::Expression(_)) => true,
            _ => !atoms_equal(a, b),
        },
{
}

/// Two expressions are equal exactly when they have as many sub-atoms and
/// the sub-atoms at every index, the first one included, are equal.
pub proof fn law_expressions_equal_child_by_child(xs: Seq<AtomView>, ys: Seq<AtomView>)
    ensures
        atoms_equal(AtomView::Expression(xs), AtomView::Expression(ys)) <==> (xs.len() == ys.len() && forall|k: int|
            0 <= k < xs.len() ==> #[trigger] atoms_equal(xs[k], ys[k])),
{
    if xs.len() == ys.len() {
        lemma_prefix_equal(xs, ys, xs.len());
    }
}

} // verus!
