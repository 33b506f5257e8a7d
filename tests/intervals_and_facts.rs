use filament::errors::ErrorKind;
use filament::fact::{Fact, FactType};
use filament::interval::{Interval, PortDef, Range};
use filament::time::{Id, TimeExpr};

fn var(k: u64) -> TimeExpr {
    TimeExpr::Abstract(Id { key: k })
}

fn num(n: u64) -> TimeExpr {
    TimeExpr::Concrete(n)
}

fn add(a: TimeExpr, b: TimeExpr) -> TimeExpr {
    TimeExpr::Add(Box::new(a), Box::new(b))
}

fn iv(s: TimeExpr, e: TimeExpr) -> Interval {
    Interval::new(Range { start: s, end: e })
}

#[test]
fn exact_inside_is_accepted() {
    let outer = iv(var(0), add(var(0), num(4)));
    let r = outer.with_exact(Range { start: add(var(0), num(1)), end: add(var(0), num(2)) });
    let got = r.ok().unwrap();
    assert_eq!(got.exact, Some(Range { start: add(var(0), num(1)), end: add(var(0), num(2)) }));
}

#[test]
fn exact_outside_is_malformed() {
    let outer = iv(add(var(0), num(1)), add(var(0), num(4)));
    let r = outer.with_exact(Range { start: var(0), end: add(var(0), num(2)) });
    let e = r.err().unwrap();
    assert!(matches!(*e.kind, ErrorKind::Malformed(_)));
}

#[test]
fn port_width_must_be_positive() {
    assert!(PortDef::new(Id { key: 1 }, iv(num(0), num(1)), 0).is_err());
    let p = PortDef::new(Id { key: 1 }, iv(num(0), num(1)), 8).ok().unwrap();
    assert_eq!(p.bitwidth, 8);
}

#[test]
fn shift_then_substitute_commutes() {
    let i = iv(var(0), add(var(0), var(1)));
    let d = add(num(2), num(3));
    let bs = vec![(Id { key: 0 }, num(7))];
    assert_eq!(i.shift(&d).substitute(&bs), i.substitute(&bs).shift(&d));
    assert_eq!(i.shift(&d).substitute(&bs).start, add(num(7), add(num(2), num(3))));
}

#[test]
fn subset_is_reflexive_without_solver() {
    let i = iv(var(3), add(var(3), num(2)));
    let f = Fact::subset(i.copy(), i);
    assert!(f.trivially_holds());
}

#[test]
fn subset_that_needs_solver() {
    let f = Fact::subset(iv(var(0), add(var(0), num(1))), iv(add(var(0), num(1)), add(var(0), num(2))));
    assert!(!f.trivially_holds());
    let g = Fact::subset(iv(var(0), add(var(0), num(1))), iv(var(1), add(var(1), num(1))));
    assert!(!g.trivially_holds());
}

#[test]
fn equality_fact() {
    let f = Fact::equality(iv(add(num(1), var(0)), num(3)), iv(add(var(0), num(1)), num(3)));
    assert_eq!(f.tag, FactType::Equality);
    assert!(f.trivially_holds());
}

#[test]
fn fact_smt_text() {
    let f = Fact::subset(iv(var(0), add(var(0), num(1))), iv(num(5), num(7)));
    assert_eq!(f.to_smt(), "(and (<= 5 t0) (>= 7 (+ t0 1)))");
    let g = Fact::equality(iv(var(0), num(1)), iv(num(2), var(1)));
    assert_eq!(g.to_smt(), "(and (= t0 2) (= 1 t1))");
}

#[test]
fn fact_text() {
    let f = Fact::subset(iv(var(0), add(var(0), num(1))), iv(num(5), num(7)));
    assert_eq!(f.to_text(), "[t0, (+ t0 1)] ⊆ [5, 7]");
    let g = Fact::equality(iv(num(1), num(2)), iv(num(1), num(2)));
    assert_eq!(g.to_text(), "[1, 2] == [1, 2]");
}
