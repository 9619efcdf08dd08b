#![allow(non_snake_case)]

use std::collections::HashMap;

use hyperon::{
    execute_not_executable, make_variables_unique, match_by_equality, Atom, AutoGroundedType,
    AutoGroundedTypeToAtom, Bindings, CustomGroundedType, CustomGroundedTypeToAtom, ExecError,
    ExpressionAtom, Grounded, GroundedKind, SymbolAtom, VariableAtom, VariableIdCounter, Wrap,
};
use hyperon::rename::variables;

// Expected atom constructors to make test checks

fn symbol(name: &'static str) -> Atom {
    Atom::Symbol(SymbolAtom::new(name.to_string()))
}

fn expression(children: Vec<Atom>) -> Atom {
    Atom::expr(children)
}

fn variable(name: &'static str) -> Atom {
    Atom::Variable(VariableAtom::new(name))
}

fn value<T: AutoGroundedType>(value: T) -> Atom {
    Atom::value(value)
}

fn grounded<T: CustomGroundedType>(value: T) -> Atom {
    Atom::gnd(value)
}

#[derive(PartialEq, Clone, Debug)]
struct TestInteger(i32);

impl Grounded for TestInteger {
    fn type_(&self) -> Atom {
        Atom::sym("Integer")
    }
    fn execute(&self, _args: &mut Vec<Atom>) -> Result<Vec<Atom>, ExecError> {
        execute_not_executable(self)
    }
    fn match_(&self, other: &Atom) -> Vec<Bindings> {
        match_by_equality(self, other)
    }
}

impl std::fmt::Display for TestInteger {
    fn fmt(&self, f: &mut std::fmt::Formatter) -> std::fmt::Result {
        f.write_str(&format!("{}", self.0))
    }
}

#[derive(PartialEq, Clone, Debug)]
struct TestMulX(i32);

impl Grounded for TestMulX {
    fn type_(&self) -> Atom {
        Atom::expr(vec![Atom::sym("->"), Atom::sym("i32"), Atom::sym("i32")])
    }
    fn execute(&self, args: &mut Vec<Atom>) -> Result<Vec<Atom>, ExecError> {
        // A grounded atom keeps the text of its value, not the value: the
        // argument is read back from that text.
        let arg: i32 = args.get(0).unwrap().to_string().parse().unwrap();
        Ok(vec![Atom::value(self.0 * arg)])
    }
    fn match_(&self, other: &Atom) -> Vec<Bindings> {
        match_by_equality(self, other)
    }
}

impl std::fmt::Display for TestMulX {
    fn fmt(&self, f: &mut std::fmt::Formatter) -> std::fmt::Result {
        f.write_str(&format!("x{}", self.0))
    }
}

#[test]
fn test_expr_symbol() {
    assert_eq!(Atom::sym("="), symbol("="));
    assert_eq!(Atom::sym("1"), symbol("1"));
    assert_eq!(Atom::sym("*"), symbol("*"));
    assert_eq!(Atom::sym("foo"), symbol("foo"));
}

#[test]
fn test_expr_variable() {
    assert_eq!(Atom::var("n"), variable("n"));
    assert_eq!(Atom::var("self"), variable("self"));
}

#[test]
fn test_expr_grounded() {
    assert_eq!((&&Wrap(42)).to_atom(), value(42));
    assert_eq!((&&Wrap(TestInteger(42))).to_atom(), grounded(TestInteger(42)));
    assert_eq!((&&Wrap(TestMulX(3))).to_atom(), grounded(TestMulX(3)));
}

#[test]
fn test_expr_expression() {
    assert_eq!(
        Atom::expr(vec![
            Atom::sym("="),
            Atom::expr(vec![Atom::sym("fact"), Atom::var("n")]),
            Atom::expr(vec![Atom::sym("*"), Atom::var("n"),
                Atom::expr(vec![Atom::sym("-"), Atom::var("n"), Atom::sym("1")])]),
        ]),
        expression(vec![symbol("="), expression(vec![symbol("fact"), variable("n")]),
            expression(vec![symbol("*"), variable("n"),
            expression(vec![symbol("-"), variable("n"), symbol("1") ]) ]) ]));
    assert_eq!(Atom::expr(vec![Atom::sym("="), Atom::var("n"), (&&Wrap([1, 2, 3])).to_atom()]),
        expression(vec![symbol("="), variable("n"), value([1, 2, 3])]));
    assert_eq!(Atom::expr(vec![Atom::sym("="), (&&Wrap(6)).to_atom(),
            Atom::expr(vec![Atom::sym("fact"), Atom::var("n")])]),
        expression(vec![symbol("="), value(6), expression(vec![symbol("fact"), variable("n")])]));
    assert_eq!(Atom::expr(vec![(&&Wrap(TestMulX(3))).to_atom(), (&&Wrap(TestInteger(6))).to_atom()]),
        expression(vec![grounded(TestMulX(3)), grounded(TestInteger(6))]));
}

#[test]
fn test_display_atom() {
    assert_eq!(Atom::Symbol(SymbolAtom::new("test".to_string())).to_string(), "test");
    assert_eq!(Atom::Symbol(SymbolAtom::new(String::from("test"))).to_string(), "test");
    assert_eq!(Atom::var("x").to_string(), "$x");
    assert_eq!(Atom::value(42).to_string(), "42");
    assert_eq!(Atom::value([1, 2, 3]).to_string(), "[1, 2, 3]");
    assert_eq!(Atom::value(HashMap::from([("hello", "world")])).to_string(),
        "{\"hello\": \"world\"}");
    assert_eq!(Atom::gnd(TestInteger(42)).to_string(), "42");
    assert_eq!(Atom::gnd(TestMulX(3)).to_string(), "x3");
    assert_eq!(Atom::expr(vec![Atom::sym("="), Atom::expr(vec![Atom::sym("fact"), Atom::var("n")]),
            Atom::expr(vec![Atom::sym("*"), Atom::var("n"),
                Atom::expr(vec![Atom::sym("-"), Atom::var("n"), Atom::sym("1")])])]).to_string(),
        "(= (fact $n) (* $n (- $n 1)))");
    assert_eq!(Atom::expr(vec![]).to_string(), "()");
}

#[test]
fn test_clone_atom() {
    assert_eq!(Atom::sym("test").clone(), symbol("test"));
    assert_eq!(Atom::var("x").clone(), variable("x"));
    assert_eq!(Atom::value(HashMap::from([("hello", "world")])).clone(),
        value(HashMap::from([("hello", "world")])));
    assert_eq!(Atom::gnd(TestMulX(3)).clone(), grounded(TestMulX(3)));
    assert_eq!(Atom::expr(vec![Atom::sym("="), Atom::value(6),
        Atom::expr(vec![Atom::sym("fact"), Atom::var("n")])]).clone(),
        expression(vec![symbol("="), value(6),
            expression(vec![symbol("fact"), variable("n")])]));
}

// Examples from the documentation.

#[test]
fn symbols_with_the_same_name_are_equal() {
    let a = Atom::sym("A");
    let aa = Atom::sym("A");
    let b = Atom::sym("B");
    assert_eq!(a.to_string(), "A");
    assert_eq!(a, aa);
    assert_ne!(a, b);
}

#[test]
fn expressions_are_shown_in_parentheses() {
    let expr = Atom::expr(vec![Atom::sym("a"), Atom::sym("b")]);
    let same_expr = Atom::expr(vec![Atom::sym("a"), Atom::sym("b")]);
    let other_expr = Atom::expr(vec![Atom::sym("+"), Atom::var("x"),
        Atom::expr(vec![Atom::sym("*"), Atom::value(5), Atom::value(8)])]);
    assert_eq!(expr.to_string(), "(a b)");
    assert_eq!(other_expr.to_string(), "(+ $x (* 5 8))");
    assert_eq!(expr, same_expr);
    assert_ne!(expr, other_expr);
}

#[test]
fn variables_with_the_same_name_are_equal() {
    let a = Atom::var("a");
    let aa = Atom::var("a");
    let b = Atom::var("b");
    assert_eq!(a.to_string(), "$a");
    assert_eq!(a, aa);
    assert_ne!(a, b);
}

#[test]
fn values_are_shown_by_their_debug_text() {
    let i = Atom::value(1);
    let j = Atom::value(1);
    let x = Atom::value("b");
    assert_eq!(i.to_string(), "1");
    assert_eq!(x.to_string(), "\"b\"");
    assert_eq!(i, j);
    assert_ne!(i, x);
}

#[test]
fn make_unique_keeps_the_name_and_changes_the_variable() {
    let mut ids = VariableIdCounter::new();
    let x1 = VariableAtom::new("x");
    let x2 = x1.make_unique(&mut ids);
    assert_eq!(x2.name(), "x");
    assert_eq!(x1.name(), x2.name());
    assert_ne!(x1, x2);
    let x3 = x1.make_unique(&mut ids);
    assert_ne!(x2, x3);
    assert_eq!(x2.to_string(), "$x-1");
    assert_eq!(x3.to_string(), "$x-2");
}

#[test]
fn counter_hands_out_ids_from_one() {
    let mut ids = VariableIdCounter::new();
    assert_eq!(ids.next_variable_id(), 1);
    assert_eq!(ids.next_variable_id(), 2);
    assert_eq!(ids.remaining(), usize::MAX - 3);
}

#[test]
fn make_variables_unique_renames_consistently_and_apart() {
    let mut ids = VariableIdCounter::new();
    let atom = Atom::expr(vec![Atom::sym("="), Atom::var("x"),
        Atom::expr(vec![Atom::var("y"), Atom::var("x"), Atom::value(3)])]);
    let unique = make_variables_unique(&atom, &mut ids);
    assert_eq!(unique.to_string(), "(= $x-1 ($y-2 $x-1 3))");
    assert_ne!(unique, atom);
    assert_eq!(ids.next_variable_id(), 3);
    let again = make_variables_unique(&atom, &mut ids);
    assert_eq!(again.to_string(), "(= $x-4 ($y-5 $x-4 3))");
    assert_ne!(again, unique);
}

#[test]
fn make_variables_unique_leaves_atoms_without_variables_alone() {
    let mut ids = VariableIdCounter::new();
    let atom = Atom::expr(vec![Atom::sym("a"), Atom::value(1), Atom::expr(vec![])]);
    assert_eq!(make_variables_unique(&atom, &mut ids), atom);
    assert_eq!(ids.remaining(), usize::MAX - 1);
    assert_eq!(make_variables_unique(&Atom::sym("a"), &mut ids), Atom::sym("a"));
}

#[test]
fn make_variables_unique_renames_a_single_variable() {
    let mut ids = VariableIdCounter::new();
    ids.next_variable_id();
    let unique = make_variables_unique(&Atom::var("z"), &mut ids);
    assert_eq!(unique.to_string(), "$z-2");
}

#[test]
fn variables_are_listed_once_in_the_order_they_first_occur() {
    let atom = Atom::expr(vec![Atom::var("x"), Atom::expr(vec![Atom::var("y"), Atom::var("x")]),
        Atom::gnd(TestMulX(2)), Atom::var("z")]);
    let vars = variables(&atom);
    assert_eq!(vars.len(), 3);
    assert_eq!(vars[0], VariableAtom::new("x"));
    assert_eq!(vars[1], VariableAtom::new("y"));
    assert_eq!(vars[2], VariableAtom::new("z"));
    assert_eq!(variables(&Atom::sym("s")).len(), 0);
}

#[test]
fn plain_expressions_hold_no_expression() {
    let plain = Atom::expr(vec![Atom::sym("a"), Atom::var("b"), Atom::value(1)]);
    let nested = Atom::expr(vec![Atom::sym("a"), Atom::expr(vec![])]);
    match (&plain, &nested) {
        (Atom::Expression(p), Atom::Expression(n)) => {
            assert!(p.is_plain());
            assert!(!n.is_plain());
            assert_eq!(p.children().len(), 3);
            assert_eq!(n.children()[1], Atom::expr(vec![]));
        },
        _ => panic!("expressions are expected"),
    }
}

#[test]
fn children_can_be_changed_in_place() {
    let mut atom = Atom::expr(vec![Atom::sym("a")]);
    if let Atom::Expression(e) = &mut atom {
        e.children_mut().push(Atom::sym("b"));
        assert_eq!(e.to_string(), "(a b)");
    } else {
        panic!("an expression is expected");
    }
    assert_eq!(atom, Atom::expr(vec![Atom::sym("a"), Atom::sym("b")]));
}

#[test]
fn grounded_atoms_of_different_types_differ() {
    assert_ne!(Atom::value(42i32), Atom::value(42i64));
    assert_ne!(Atom::value(TestInteger(42)), Atom::gnd(TestInteger(42)));
    assert_ne!(Atom::value(42), Atom::sym("42"));
    assert_eq!(Atom::value(vec![1, 2, 3]), Atom::value(vec![1, 2, 3]));
}

#[test]
fn custom_grounded_atoms_keep_their_declared_type() {
    match Atom::gnd(TestInteger(42)) {
        Atom::Grounded(g) => {
            assert_eq!(g.kind(), GroundedKind::Custom);
            assert_eq!(g.type_(), Some(Atom::sym("Integer")));
            assert_eq!(g.to_string(), "42");
        },
        _ => panic!("a grounded atom is expected"),
    }
    match Atom::value(42) {
        Atom::Grounded(g) => {
            assert_eq!(g.kind(), GroundedKind::Auto);
            assert_eq!(g.type_(), None);
        },
        _ => panic!("a grounded atom is expected"),
    }
}

#[derive(Debug, PartialEq, Clone)]
struct MyGrounded {}

#[test]
fn values_that_are_not_executable_say_so() {
    assert_eq!(execute_not_executable(&MyGrounded {}),
        Err(ExecError::from("Grounded atom is not executable: MyGrounded".to_string())));
    assert_eq!(TestInteger(7).execute(&mut vec![]),
        Err(ExecError::Runtime("Grounded atom is not executable: TestInteger(7)".to_string())));
    assert_ne!(ExecError::NoReduce, ExecError::Runtime(String::new()));
    assert_eq!(execute_not_executable(&MyGrounded {}),
        Err("Grounded atom is not executable: MyGrounded".into()));
    assert_eq!(ExecError::runtime("boom"), ExecError::Runtime("boom".to_string()));
}

#[test]
fn matching_by_equality_binds_nothing_on_equal_values() {
    let m = match_by_equality(&TestInteger(42), &Atom::gnd(TestInteger(42)));
    assert_eq!(m.len(), 1);
    assert!(m[0].is_empty());
    assert_eq!(match_by_equality(&TestInteger(42), &Atom::gnd(TestInteger(43))).len(), 0);
    assert_eq!(match_by_equality(&42, &Atom::value(42)).len(), 1);
    assert_eq!(match_by_equality(&42, &Atom::value(42u8)).len(), 0);
    assert_eq!(match_by_equality(&42, &Atom::sym("42")).len(), 0);
    assert_eq!(TestMulX(3).match_(&Atom::gnd(TestMulX(3))).len(), 1);
}

#[test]
fn ids_are_written_in_decimal() {
    let mut ids = VariableIdCounter::new();
    for _ in 0..119 {
        ids.next_variable_id();
    }
    let x = VariableAtom::new("x").make_unique(&mut ids);
    assert_eq!(x.to_string(), "$x-120");
    assert_eq!(Atom::Variable(x).to_string(), "$x-120");
    let y = VariableAtom::new("y").make_unique(&mut ids);
    assert_eq!(Atom::expr(vec![Atom::Variable(y), Atom::sym("s")]).to_string(), "($y-121 s)");
}

#[test]
fn symbols_are_shown_by_name() {
    let s = SymbolAtom::new("hello".to_string());
    assert_eq!(s.name(), "hello");
    assert_eq!(s.to_string(), "hello");
    assert_eq!(s, SymbolAtom::new("hello".to_string()));
    assert_ne!(s, SymbolAtom::new("world".to_string()));
}

#[test]
fn parts_of_atoms_compare_and_copy_like_atoms() {
    let e = Atom::expr(vec![Atom::sym("a"), Atom::value(1), Atom::var("x")]);
    let f = Atom::expr(vec![Atom::sym("a"), Atom::value(2), Atom::var("x")]);
    match (&e, &f) {
        (Atom::Expression(x), Atom::Expression(y)) => {
            assert_eq!(x.clone(), *x);
            assert_ne!(x, y);
            assert!(x.is_plain());
        },
        _ => panic!("expressions are expected"),
    }
    match (Atom::gnd(TestMulX(3)), Atom::gnd(TestMulX(4))) {
        (Atom::Grounded(g), Atom::Grounded(h)) => {
            assert_eq!(g.clone(), g);
            assert_ne!(g, h);
            assert_eq!(g.type_(), Some(Atom::expr(vec![Atom::sym("->"), Atom::sym("i32"), Atom::sym("i32")])));
        },
        _ => panic!("grounded atoms are expected"),
    }
    let s = SymbolAtom::new("s".to_string());
    assert_eq!(s.clone(), s);
    let v = VariableAtom::new("v");
    assert_eq!(v.clone(), v);
}

#[test]
fn plain_values_are_not_executable_and_match_by_equality() {
    match Atom::value(42) {
        Atom::Grounded(g) => {
            assert_eq!(g.execute(&mut vec![]),
                Some(Err(ExecError::Runtime("Grounded atom is not executable: AutoGroundedAtom(42)".to_string()))));
            assert_eq!(g.match_(&Atom::value(42)).map(|v| v.len()), Some(1));
            assert_eq!(g.match_(&Atom::value(43)).map(|v| v.len()), Some(0));
            assert_eq!(g.match_(&Atom::gnd(TestInteger(42))).map(|v| v.len()), Some(0));
        },
        _ => panic!("a grounded atom is expected"),
    }
    match Atom::gnd(TestInteger(42)) {
        Atom::Grounded(g) => {
            assert!(g.execute(&mut vec![]).is_none());
            assert!(g.match_(&Atom::value(42)).is_none());
        },
        _ => panic!("a grounded atom is expected"),
    }
}

#[derive(PartialEq, Clone, Debug)]
struct Num(f64);

impl Grounded for Num {
    fn type_(&self) -> Atom {
        Atom::sym("Number")
    }
    fn execute(&self, _args: &mut Vec<Atom>) -> Result<Vec<Atom>, ExecError> {
        execute_not_executable(self)
    }
    fn match_(&self, other: &Atom) -> Vec<Bindings> {
        match_by_equality(self, other)
    }
}

impl std::fmt::Display for Num {
    fn fmt(&self, f: &mut std::fmt::Formatter) -> std::fmt::Result {
        f.write_str(&format!("{}", self.0))
    }
}

#[test]
fn values_not_equal_to_themselves_make_unequal_atoms() {
    assert_ne!(Atom::value(f64::NAN), Atom::value(f64::NAN));
    assert_eq!(Atom::value(1.5f64), Atom::value(1.5f64));
    assert_ne!(Atom::gnd(Num(f64::NAN)), Atom::gnd(Num(f64::NAN)));
    assert_eq!(Atom::gnd(Num(2.0)), Atom::gnd(Num(2.0)));
    let with_nan = Atom::expr(vec![Atom::sym("x"), Atom::value(f64::NAN)]);
    assert_ne!(with_nan, with_nan.clone());
}

#[test]
fn values_not_equal_to_themselves_match_nothing() {
    assert!(match_by_equality(&f64::NAN, &Atom::value(f64::NAN)).is_empty());
    assert!(match_by_equality(&Num(f64::NAN), &Atom::gnd(Num(f64::NAN))).is_empty());
    assert_eq!(match_by_equality(&Num(2.0), &Atom::gnd(Num(2.0))).len(), 1);
    if let Atom::Grounded(g) = Atom::value(f64::NAN) {
        assert_eq!(g.match_(&Atom::value(f64::NAN)).map(|v| v.len()), Some(0));
    } else {
        panic!("GroundedAtom is expected");
    }
}

#[test]
fn values_of_a_given_type_keep_it() {
    let atom = Atom::value_of_type(42, Atom::sym("i32"));
    if let Atom::Grounded(g) = &atom {
        assert_eq!(g.type_(), Some(Atom::sym("i32")));
    } else {
        panic!("GroundedAtom is expected");
    }
    assert_eq!(atom.to_string(), "42");
    assert_eq!(atom, Atom::value(42));
}

#[test]
fn custom_values_execute_by_their_own_impl() {
    assert_eq!(TestMulX(3).execute(&mut vec![Atom::value(14)]), Ok(vec![Atom::value(42)]));
}

#[test]
fn grounded_values_compare_by_value() {
    assert_eq!(Atom::value(3), value(3));
    assert_eq!(Atom::value("Data string"), value("Data string"));
    assert_eq!(Atom::value(vec![1, 2, 3]), value(vec![1, 2, 3]));
    assert_eq!(Atom::value(HashMap::from([("q", 0)])), value(HashMap::from([("q", 0)])));
    assert_eq!(Atom::gnd(TestInteger(42)), grounded(TestInteger(42)));
    assert_ne!(Atom::value(3), value(4));
    assert_ne!(Atom::value(3), value(3u8));
    assert_ne!(Atom::value(42), grounded(TestInteger(42)));
}
