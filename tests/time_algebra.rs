use filament::time::{
    canonicalize, closed, mk_abstract, mk_add, mk_concrete, mk_max, structural_eq, substitute, time_le,
    to_smt, Id, TimeExpr,
};

fn var(k: u64) -> TimeExpr {
    TimeExpr::Abstract(Id { key: k })
}

fn num(n: u64) -> TimeExpr {
    TimeExpr::Concrete(n)
}

fn add(a: TimeExpr, b: TimeExpr) -> TimeExpr {
    TimeExpr::Add(Box::new(a), Box::new(b))
}

fn max(a: TimeExpr, b: TimeExpr) -> TimeExpr {
    TimeExpr::Max(Box::new(a), Box::new(b))
}

fn value_of(e: &TimeExpr, x: u64, y: u64) -> u64 {
    match e {
        TimeExpr::Concrete(n) => *n,
        TimeExpr::Abstract(v) => {
            if v.key == 1 {
                x
            } else {
                y
            }
        }
        TimeExpr::Add(a, b) => value_of(a, x, y) + value_of(b, x, y),
        TimeExpr::Max(a, b) => value_of(a, x, y).max(value_of(b, x, y)),
    }
}

#[test]
fn constants_fold() {
    assert_eq!(canonicalize(&add(num(2), num(3))), num(5));
    assert_eq!(mk_add(&num(2), &num(3)), num(5));
}

#[test]
fn max_of_constants_is_the_larger() {
    assert_eq!(mk_max(&num(4), &num(9)), num(9));
    assert_eq!(canonicalize(&max(add(var(1), num(2)), add(var(1), num(5)))), add(var(1), num(5)));
}

#[test]
fn variables_are_sorted_and_constant_comes_last() {
    let e = add(num(1), add(var(7), add(var(3), num(2))));
    assert_eq!(canonicalize(&e), add(var(3), add(var(7), num(3))));
}

#[test]
fn zero_constant_is_dropped() {
    assert_eq!(canonicalize(&add(var(2), num(0))), var(2));
    assert_eq!(canonicalize(&num(0)), num(0));
}

#[test]
fn addition_distributes_over_max() {
    let e = add(var(1), max(num(1), var(2)));
    assert_eq!(canonicalize(&e), max(add(var(1), num(1)), add(var(1), var(2))));
}

#[test]
fn canonicalize_is_idempotent() {
    let cases = vec![
        add(var(5), max(add(var(2), num(3)), add(num(1), var(9)))),
        max(max(var(1), var(1)), add(num(4), num(4))),
        add(add(var(3), var(3)), var(1)),
    ];
    for e in cases {
        let once = canonicalize(&e);
        assert_eq!(canonicalize(&once), once);
    }
}

#[test]
fn structural_eq_ignores_order() {
    assert!(structural_eq(&add(var(1), var(2)), &add(var(2), var(1))));
    assert!(structural_eq(&max(var(1), var(2)), &max(var(2), var(1))));
    assert!(structural_eq(&add(add(var(1), num(2)), num(3)), &add(num(5), var(1))));
    assert!(!structural_eq(&add(var(1), num(2)), &add(var(1), num(3))));
    assert!(!structural_eq(&var(1), &var(2)));
}

#[test]
fn structural_eq_implies_equal_values() {
    let a = add(var(1), max(var(2), num(3)));
    let b = max(add(num(3), var(1)), add(var(2), var(1)));
    assert!(structural_eq(&a, &b));
    for (x, y) in [(0u64, 0u64), (1, 7), (10, 2)] {
        assert_eq!(value_of(&a, x, y), value_of(&b, x, y));
    }
}

#[test]
fn syntactic_order() {
    assert!(time_le(&var(1), &add(var(1), num(1))));
    assert!(!time_le(&add(var(1), num(1)), &var(1)));
    assert!(time_le(&var(1), &max(var(1), var(2))));
    assert!(!time_le(&var(1), &var(2)));
}

#[test]
fn constructors_give_canonical_nodes() {
    assert_eq!(mk_concrete(4), num(4));
    assert_eq!(mk_abstract(Id { key: 3 }), var(3));
    assert_eq!(mk_add(&var(2), &var(1)), add(var(1), var(2)));
}

#[test]
fn substitution_replaces_bound_variables() {
    let e = add(var(1), max(var(2), num(1)));
    let bs = vec![(Id { key: 2 }, num(5)), (Id { key: 2 }, num(9))];
    assert_eq!(substitute(&e, &bs), add(var(1), max(num(5), num(1))));
    assert!(closed(&substitute(&var(2), &bs)));
    assert!(!closed(&e));
}

#[test]
fn smt_text() {
    assert_eq!(to_smt(&add(var(0), num(5))), "(+ t0 5)");
    assert_eq!(to_smt(&max(var(12), num(3))), "(ite (<= t12 3) 3 t12)");
    assert_eq!(to_smt(&num(1234567)), "1234567");
}

#[test]
fn max_terms_are_sorted() {
    assert_eq!(canonicalize(&max(var(2), var(1))), max(var(1), var(2)));
    assert_eq!(canonicalize(&max(var(1), var(2))), max(var(1), var(2)));
    assert_eq!(canonicalize(&max(var(1), num(3))), max(num(3), var(1)));
    let s = add(var(4), num(1));
    let t = add(var(3), var(4));
    assert_eq!(canonicalize(&max(s, t)), canonicalize(&max(add(var(4), var(3)), add(num(1), var(4)))));
}
