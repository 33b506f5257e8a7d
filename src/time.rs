//! Symbolic time expressions and their normal form.
//!
//! A time expression denotes a non-negative integer once each abstract
//! variable is given a value. Its normal form is a maximum over *terms*,
//! each term being a sorted list of variable keys plus a constant.
use vstd::prelude::*;
use vstd::string::StringExecFns;
use crate::normal_form::{
    lemma_index_of, lemma_nf, lemma_nf_expr, lemma_same_terms_eval, lemma_sort_terms, lemma_sort_sorted,
    lemma_term_lt_order,
};

verus! {

/// An interned identifier: equal identifiers have equal keys.
#[derive(Clone, Copy, Debug, PartialEq, Eq, Structural, Hash, PartialOrd, Ord)]
pub struct Id {
    pub key: u64,
}

/// A symbolic time.
#[derive(Debug, PartialEq, Eq)]
pub enum TimeExpr {
    Concrete(u64),
    Abstract(Id),
    Add(Box<TimeExpr>, Box<TimeExpr>),
    Max(Box<TimeExpr>, Box<TimeExpr>),
}

/// A term of the normal form: a sorted list of variable keys and a constant.
pub type STerm = (Seq<u64>, nat);

/// An assignment of values to abstract time variables, by key.
pub type Assignment = spec_fn(u64) -> nat;

pub open spec fn max_int(a: int, b: int) -> int {
    if a >= b { a } else { b }
}

/// The value of `e` under the assignment `env`.
pub open spec fn eval(e: TimeExpr, env: Assignment) -> int
    decreases e,
{
    match e {
        TimeExpr::Concrete(n) => n as int,
        TimeExpr::Abstract(v) => env(v.key) as int,
        TimeExpr::Add(a, b) => eval(*a, env) + eval(*b, env),
        TimeExpr::Max(a, b) => max_int(eval(*a, env), eval(*b, env)),
    }
}

/// The sum of all constants that occur in `e`: a bound on every constant
/// of its normal form.
pub open spec fn const_sum(e: TimeExpr) -> nat
    decreases e,
{
    match e {
        TimeExpr::Concrete(n) => n as nat,
        TimeExpr::Abstract(_) => 0,
        TimeExpr::Add(a, b) => const_sum(*a) + const_sum(*b),
        TimeExpr::Max(a, b) => const_sum(*a) + const_sum(*b),
    }
}

/// `e` mentions no abstract variable.
pub open spec fn is_closed(e: TimeExpr) -> bool
    decreases e,
{
    match e {
        TimeExpr::Concrete(_) => true,
        TimeExpr::Abstract(_) => false,
        TimeExpr::Add(a, b) => is_closed(*a) && is_closed(*b),
        TimeExpr::Max(a, b) => is_closed(*a) && is_closed(*b),
    }
}

pub open spec fn sorted(s: Seq<u64>) -> bool {
    forall|i: int, j: int| 0 <= i < j < s.len() ==> s[i] <= s[j]
}

/// `s` with `x` placed after every element not above it.
pub open spec fn insert_sorted(s: Seq<u64>, x: u64) -> Seq<u64>
    decreases s.len(),
{
    if s.len() == 0 {
        seq![x]
    } else if s.last() <= x {
        s.push(x)
    } else {
        insert_sorted(s.drop_last(), x).push(s.last())
    }
}

/// The sorted union of two variable lists: each element of `b` in turn is
/// inserted into `a`.
pub open spec fn vars_add(a: Seq<u64>, b: Seq<u64>) -> Seq<u64>
    decreases b.len(),
{
    if b.len() == 0 {
        a
    } else {
        insert_sorted(vars_add(a, b.drop_last()), b.last())
    }
}

/// The position of the term with variables `vs` in `x`, or -1.
pub open spec fn index_of(x: Seq<STerm>, vs: Seq<u64>) -> int
    decreases x.len(),
{
    if x.len() == 0 {
        -1
    } else if x[0].0 == vs {
        0
    } else {
        let k = index_of(x.drop_first(), vs);
        if k < 0 { -1 } else { k + 1 }
    }
}

/// Adds the term `t` to the maximum `x`: a term with the same variables
/// keeps the larger constant, else `t` comes last.
pub open spec fn merge_term(x: Seq<STerm>, t: STerm) -> Seq<STerm> {
    let i = index_of(x, t.0);
    if i < 0 {
        x.push(t)
    } else {
        x.update(i, (t.0, if x[i].1 >= t.1 { x[i].1 } else { t.1 }))
    }
}

/// Merges each term of `ts` in order into `acc`.
pub open spec fn merge_all(acc: Seq<STerm>, ts: Seq<STerm>) -> Seq<STerm>
    decreases ts.len(),
{
    if ts.len() == 0 {
        acc
    } else {
        merge_term(merge_all(acc, ts.drop_last()), ts.last())
    }
}

pub open spec fn term_add(t: STerm, u: STerm) -> STerm {
    (vars_add(t.0, u.0), t.1 + u.1)
}

/// `t` added to each term of `y`.
pub open spec fn add_each(t: STerm, y: Seq<STerm>) -> Seq<STerm>
    decreases y.len(),
{
    if y.len() == 0 {
        seq![]
    } else {
        add_each(t, y.drop_last()).push(term_add(t, y.last()))
    }
}

/// The normal form of a sum: addition distributed over maximum.
pub open spec fn nf_add(x: Seq<STerm>, y: Seq<STerm>) -> Seq<STerm>
    decreases x.len(),
{
    if x.len() == 0 {
        seq![]
    } else {
        merge_all(nf_add(x.drop_last(), y), add_each(x.last(), y))
    }
}

/// The normal form of `e`.
pub open spec fn nf(e: TimeExpr) -> Seq<STerm>
    decreases e,
{
    match e {
        TimeExpr::Concrete(n) => seq![(Seq::<u64>::empty(), n as nat)],
        TimeExpr::Abstract(v) => seq![(seq![v.key], 0nat)],
        TimeExpr::Add(a, b) => nf_add(nf(*a), nf(*b)),
        TimeExpr::Max(a, b) => merge_all(nf(*a), nf(*b)),
    }
}

/// The right-nested sum of the variables `vs` and the constant `c`; a zero
/// constant is left out unless there are no variables.
pub open spec fn sum_expr(vs: Seq<u64>, c: nat) -> TimeExpr
    decreases vs.len(),
{
    if vs.len() == 0 {
        TimeExpr::Concrete(c as u64)
    } else if vs.len() == 1 && c == 0 {
        TimeExpr::Abstract(Id { key: vs[0] })
    } else if vs.len() == 1 {
        TimeExpr::Add(Box::new(TimeExpr::Abstract(Id { key: vs[0] })), Box::new(TimeExpr::Concrete(c as u64)))
    } else {
        TimeExpr::Add(Box::new(TimeExpr::Abstract(Id { key: vs[0] })), Box::new(sum_expr(vs.drop_first(), c)))
    }
}

/// The right-nested maximum of the terms of `ts`.
pub open spec fn nf_expr(ts: Seq<STerm>) -> TimeExpr
    decreases ts.len(),
{
    if ts.len() <= 1 {
        sum_expr(ts[0].0, ts[0].1)
    } else {
        TimeExpr::Max(Box::new(sum_expr(ts[0].0, ts[0].1)), Box::new(nf_expr(ts.drop_first())))
    }
}

/// Lexicographic order on variable lists; a shorter prefix comes first.
pub open spec fn vars_lt(a: Seq<u64>, b: Seq<u64>) -> bool
    decreases a.len(),
{
    if a.len() == 0 {
        b.len() > 0
    } else if b.len() == 0 {
        false
    } else if a[0] != b[0] {
        a[0] < b[0]
    } else {
        vars_lt(a.drop_first(), b.drop_first())
    }
}

/// The order of terms in a canonical maximum: by variables, then constant.
pub open spec fn term_lt(a: STerm, b: STerm) -> bool {
    vars_lt(a.0, b.0) || (a.0 == b.0 && a.1 < b.1)
}

/// `s` with `t` placed after every term below it.
pub open spec fn insert_term(s: Seq<STerm>, t: STerm) -> Seq<STerm>
    decreases s.len(),
{
    if s.len() == 0 {
        seq![t]
    } else if term_lt(s.last(), t) {
        s.push(t)
    } else {
        insert_term(s.drop_last(), t).push(s.last())
    }
}

/// The terms of `x` in increasing order.
pub open spec fn sort_terms(x: Seq<STerm>) -> Seq<STerm>
    decreases x.len(),
{
    if x.len() == 0 {
        x
    } else {
        insert_term(sort_terms(x.drop_last()), x.last())
    }
}

pub open spec fn terms_sorted(x: Seq<STerm>) -> bool {
    forall|i: int, j: int| 0 <= i < j < x.len() ==> term_lt(x[i], x[j])
}

/// The canonical form of `e`: its normal-form terms in increasing order.
pub open spec fn canonical(e: TimeExpr) -> TimeExpr {
    nf_expr(sort_terms(nf(e)))
}

/// Terms with sorted variables, no two with the same variables.
pub open spec fn wf_terms(x: Seq<STerm>) -> bool {
    &&& forall|i: int| 0 <= i < x.len() ==> sorted(#[trigger] x[i].0)
    &&& forall|i: int, j: int| 0 <= i < j < x.len() ==> x[i].0 != x[j].0
}

/// Every constant of `x` is at most `b`.
pub open spec fn consts_below(x: Seq<STerm>, b: nat) -> bool {
    forall|i: int| 0 <= i < x.len() ==> #[trigger] x[i].1 <= b
}

/// Two maxima with the same set of terms.
pub open spec fn same_terms(x: Seq<STerm>, y: Seq<STerm>) -> bool {
    &&& forall|i: int| 0 <= i < x.len() ==> y.contains(#[trigger] x[i])
    &&& forall|j: int| 0 <= j < y.len() ==> x.contains(#[trigger] y[j])
}

pub open spec fn sum_vars(vs: Seq<u64>, env: Assignment) -> int
    decreases vs.len(),
{
    if vs.len() == 0 {
        0
    } else {
        env(vs[0]) + sum_vars(vs.drop_first(), env)
    }
}

pub open spec fn eval_term(t: STerm, env: Assignment) -> int {
    sum_vars(t.0, env) + t.1
}

/// The maximum of the terms of `x`, or zero for none.
pub open spec fn eval_nf(x: Seq<STerm>, env: Assignment) -> int
    decreases x.len(),
{
    if x.len() == 0 {
        0
    } else {
        max_int(eval_nf(x.drop_last(), env), eval_term(x.last(), env))
    }
}


/// A term of a normal form, as the executable code holds it.
pub struct Term {
    pub vars: Vec<u64>,
    pub c: u64,
}

pub open spec fn term_view(t: Term) -> STerm {
    (t.vars@, t.c as nat)
}

pub open spec fn terms_view(ts: Seq<Term>) -> Seq<STerm> {
    ts.map_values(|t: Term| term_view(t))
}

fn copy_vars(a: &Vec<u64>) -> (r: Vec<u64>)
    ensures
        r@ == a@,
{
    let mut r: Vec<u64> = Vec::new();
    let mut i: usize = 0;
    while i < a.len()
        invariant
            i <= a.len(),
            r@ == a@.take(i as int),
        decreases a.len() - i,
    {
        r.push(a[i]);
        i += 1;
        assert(r@ =~= a@.take(i as int));
    }
    assert(a@.take(a.len() as int) =~= a@);
    r
}

fn copy_term(t: &Term) -> (r: Term)
    ensures
        term_view(r) == term_view(*t),
{
    Term { vars: copy_vars(&t.vars), c: t.c }
}

fn vars_eq(a: &Vec<u64>, b: &Vec<u64>) -> (r: bool)
    ensures
        r == (a@ == b@),
{
    if a.len() != b.len() {
        return false;
    }
    let mut i: usize = 0;
    while i < a.len()
        invariant
            i <= a.len(),
            a.len() == b.len(),
            forall|j: int| 0 <= j < i ==> a@[j] == b@[j],
        decreases a.len() - i,
    {
        if a[i] != b[i] {
            return false;
        }
        i += 1;
    }
    assert(a@ =~= b@);
    true
}

fn insert_sorted_vec(v: &mut Vec<u64>, x: u64)
    ensures
        final(v)@ == insert_sorted(old(v)@, x),
    decreases old(v)@.len(),
{
    if v.len() == 0 {
        v.push(x);
        assert(v@ =~= seq![x]);
    } else {
        let last = v[v.len() - 1];
        if last <= x {
            v.push(x);
        } else {
            let ghost before = v@;
            v.pop();
            assert(v@ =~= before.drop_last());
            insert_sorted_vec(v, x);
            v.push(last);
        }
    }
}

fn vars_add_vec(a: &Vec<u64>, b: &Vec<u64>) -> (r: Vec<u64>)
    ensures
        r@ == vars_add(a@, b@),
{
    let mut r = copy_vars(a);
    let mut i: usize = 0;
    while i < b.len()
        invariant
            i <= b.len(),
            r@ == vars_add(a@, b@.take(i as int)),
        decreases b.len() - i,
    {
        assert(b@.take(i + 1 as int).drop_last() =~= b@.take(i as int));
        insert_sorted_vec(&mut r, b[i]);
        i += 1;
    }
    assert(b@.take(b.len() as int) =~= b@);
    r
}

fn merge_term_vec(x: &mut Vec<Term>, t: Term)
    ensures
        terms_view(final(x)@) == merge_term(terms_view(old(x)@), term_view(t)),
{
    let ghost xs = terms_view(x@);
    proof {
        lemma_index_of(xs, t.vars@);
    }
    let mut i: usize = 0;
    while i < x.len()
        invariant
            i <= x.len(),
            xs == terms_view(x@),
            xs == terms_view(old(x)@),
            forall|j: int| 0 <= j < i ==> xs[j].0 != t.vars@,
        decreases x.len() - i,
    {
        if vars_eq(&x[i].vars, &t.vars) {
            let c = if x[i].c >= t.c { x[i].c } else { t.c };
            proof {
                lemma_index_of(xs, t.vars@);
            }
            assert(xs.len() == x.len());
            assert(xs[i as int].0 == t.vars@);
            let ghost k = index_of(xs, t.vars@);
            assert(k >= 0);
            assert(k < i ==> xs[k].0 != t.vars@);
            assert(k == i);
            x.set(i, Term { vars: t.vars, c });
            assert(terms_view(x@) =~= merge_term(xs, term_view(t)));
            assert(xs == terms_view(old(x)@));
            return;
        }
        i += 1;
    }
    proof {
        lemma_index_of(xs, t.vars@);
    }
    x.push(t);
    assert(terms_view(x@) =~= merge_term(xs, term_view(t)));
}

fn merge_all_vec(acc: &mut Vec<Term>, ts: &Vec<Term>)
    ensures
        terms_view(final(acc)@) == merge_all(terms_view(old(acc)@), terms_view(ts@)),
{
    let ghost a0 = terms_view(acc@);
    let mut i: usize = 0;
    while i < ts.len()
        invariant
            i <= ts.len(),
            terms_view(acc@) == merge_all(a0, terms_view(ts@).take(i as int)),
        decreases ts.len() - i,
    {
        assert(terms_view(ts@).take(i + 1 as int).drop_last() =~= terms_view(ts@).take(i as int));
        merge_term_vec(acc, copy_term(&ts[i]));
        i += 1;
    }
    assert(terms_view(ts@).take(ts.len() as int) =~= terms_view(ts@));
}

fn add_each_vec(t: &Term, y: &Vec<Term>) -> (r: Vec<Term>)
    requires
        forall|j: int| 0 <= j < y.len() ==> t.c + #[trigger] y@[j].c <= u64::MAX,
    ensures
        terms_view(r@) == add_each(term_view(*t), terms_view(y@)),
{
    let mut r: Vec<Term> = Vec::new();
    let mut i: usize = 0;
    while i < y.len()
        invariant
            i <= y.len(),
            terms_view(r@) == add_each(term_view(*t), terms_view(y@).take(i as int)),
            forall|j: int| 0 <= j < y.len() ==> t.c + #[trigger] y@[j].c <= u64::MAX,
        decreases y.len() - i,
    {
        assert(terms_view(y@).take(i + 1 as int).drop_last() =~= terms_view(y@).take(i as int));
        let vars = vars_add_vec(&t.vars, &y[i].vars);
        assert(t.c + y@[i as int].c <= u64::MAX);
        r.push(Term { vars, c: t.c + y[i].c });
        i += 1;
        assert(terms_view(r@) =~= add_each(term_view(*t), terms_view(y@).take(i as int)));
    }
    assert(terms_view(y@).take(y.len() as int) =~= terms_view(y@));
    r
}


fn nf_add_vec(x: &Vec<Term>, y: &Vec<Term>, Ghost(bx): Ghost<nat>, Ghost(by): Ghost<nat>) -> (r: Vec<Term>)
    requires
        consts_below(terms_view(x@), bx),
        consts_below(terms_view(y@), by),
        bx + by <= u64::MAX,
        y.len() > 0,
    ensures
        terms_view(r@) == nf_add(terms_view(x@), terms_view(y@)),
{
    let ghost xv = terms_view(x@);
    let ghost yv = terms_view(y@);
    let mut r: Vec<Term> = Vec::new();
    let mut i: usize = 0;
    while i < x.len()
        invariant
            i <= x.len(),
            xv == terms_view(x@),
            yv == terms_view(y@),
            consts_below(xv, bx),
            consts_below(yv, by),
            bx + by <= u64::MAX,
            terms_view(r@) == nf_add(xv.take(i as int), yv),
        decreases x.len() - i,
    {
        assert(xv.take(i + 1 as int).drop_last() =~= xv.take(i as int));
        assert(xv.take(i + 1 as int).last() == xv[i as int]);
        assert forall|j: int| 0 <= j < y.len() implies x@[i as int].c + #[trigger] y@[j].c <= u64::MAX by {
            assert(xv[i as int].1 <= bx);
            assert(yv[j].1 <= by);
        }
        let each = add_each_vec(&x[i], y);
        merge_all_vec(&mut r, &each);
        i += 1;
    }
    assert(xv.take(x.len() as int) =~= xv);
    r
}

fn normalize(e: &TimeExpr) -> (r: Vec<Term>)
    requires
        const_sum(*e) <= u64::MAX,
    ensures
        terms_view(r@) == nf(*e),
    decreases *e,
{
    match e {
        TimeExpr::Concrete(n) => {
            let r = vec![Term { vars: Vec::new(), c: *n }];
            assert(terms_view(r@) =~= nf(*e));
            r
        },
        TimeExpr::Abstract(v) => {
            let vars = vec![v.key];
            assert(vars@ =~= seq![v.key]);
            let r = vec![Term { vars, c: 0 }];
            assert(terms_view(r@) =~= nf(*e));
            r
        },
        TimeExpr::Add(a, b) => {
            let x = normalize(a);
            let y = normalize(b);
            proof {
                lemma_nf(**a, |k: u64| 0nat);
                lemma_nf(**b, |k: u64| 0nat);
            }
            nf_add_vec(&x, &y, Ghost(const_sum(**a)), Ghost(const_sum(**b)))
        },
        TimeExpr::Max(a, b) => {
            let mut x = normalize(a);
            let y = normalize(b);
            merge_all_vec(&mut x, &y);
            x
        },
    }
}

fn reify_sum(vs: &Vec<u64>, i: usize, c: u64) -> (r: TimeExpr)
    requires
        i <= vs.len(),
    ensures
        r == sum_expr(vs@.subrange(i as int, vs.len() as int), c as nat),
    decreases vs.len() - i,
{
    let ghost s = vs@.subrange(i as int, vs.len() as int);
    if i == vs.len() {
        TimeExpr::Concrete(c)
    } else if i + 1 == vs.len() && c == 0 {
        TimeExpr::Abstract(Id { key: vs[i] })
    } else if i + 1 == vs.len() {
        TimeExpr::Add(Box::new(TimeExpr::Abstract(Id { key: vs[i] })), Box::new(TimeExpr::Concrete(c)))
    } else {
        assert(s.drop_first() =~= vs@.subrange(i + 1 as int, vs.len() as int));
        let rest = reify_sum(vs, i + 1, c);
        TimeExpr::Add(Box::new(TimeExpr::Abstract(Id { key: vs[i] })), Box::new(rest))
    }
}

fn reify(ts: &Vec<Term>, i: usize) -> (r: TimeExpr)
    requires
        i < ts.len(),
    ensures
        r == nf_expr(terms_view(ts@).subrange(i as int, ts.len() as int)),
    decreases ts.len() - i,
{
    let ghost s = terms_view(ts@).subrange(i as int, ts.len() as int);
    let first = reify_sum(&ts[i].vars, 0, ts[i].c);
    assert(ts[i as int].vars@.subrange(0, ts[i as int].vars@.len() as int) =~= ts[i as int].vars@);
    assert(s[0] == term_view(ts@[i as int]));
    if i + 1 == ts.len() {
        first
    } else {
        assert(s.drop_first() =~= terms_view(ts@).subrange(i + 1 as int, ts.len() as int));
        let rest = reify(ts, i + 1);
        TimeExpr::Max(Box::new(first), Box::new(rest))
    }
}

impl TimeExpr {
    /// A copy of this expression.
    pub fn deep_copy(&self) -> (r: TimeExpr)
        ensures
            r == *self,
        decreases *self,
    {
        match self {
            TimeExpr::Concrete(n) => TimeExpr::Concrete(*n),
            TimeExpr::Abstract(v) => TimeExpr::Abstract(*v),
            TimeExpr::Add(a, b) => TimeExpr::Add(Box::new(a.deep_copy()), Box::new(b.deep_copy())),
            TimeExpr::Max(a, b) => TimeExpr::Max(Box::new(a.deep_copy()), Box::new(b.deep_copy())),
        }
    }
}

/// The sorted normal form of `e` is a well-formed maximum with the terms of
/// `e`'s normal form, and it is the normal form of `canonical(e)`.
pub proof fn lemma_canonical_terms(e: TimeExpr)
    requires
        const_sum(e) <= u64::MAX,
    ensures
        sort_terms(nf(e)).len() > 0,
        wf_terms(sort_terms(nf(e))),
        terms_sorted(sort_terms(nf(e))),
        consts_below(sort_terms(nf(e)), u64::MAX as nat),
        same_terms(sort_terms(nf(e)), nf(e)),
        nf(canonical(e)) == sort_terms(nf(e)),
{
    let x = nf(e);
    let s = sort_terms(x);
    lemma_nf(e, |k: u64| 0nat);
    lemma_sort_terms(x);
    assert forall|i: int| 0 <= i < s.len() implies sorted(#[trigger] s[i].0) && s[i].1 <= u64::MAX by {
        assert(s.contains(s[i]));
        assert(x.contains(s[i]));
        let j = choose|j: int| 0 <= j < x.len() && x[j] == s[i];
        assert(sorted(x[j].0));
    }
    assert forall|i: int, j: int| 0 <= i < j < s.len() implies s[i].0 != s[j].0 by {
        assert(s.contains(s[i]));
        assert(s.contains(s[j]));
        assert(x.contains(s[i]));
        assert(x.contains(s[j]));
        let a = choose|a: int| 0 <= a < x.len() && x[a] == s[i];
        let b = choose|b: int| 0 <= b < x.len() && x[b] == s[j];
        lemma_term_lt_order(s[i], s[j], s[i]);
        if a != b {
            if a < b {
                assert(x[a].0 != x[b].0);
            } else {
                assert(x[b].0 != x[a].0);
            }
        }
    }
    assert forall|i: int| 0 <= i < s.len() implies x.contains(#[trigger] s[i]) by {
        assert(s.contains(s[i]));
    }
    assert forall|j: int| 0 <= j < x.len() implies s.contains(#[trigger] x[j]) by {
        assert(x.contains(x[j]));
    }
    lemma_nf_expr(s, |k: u64| 0nat);
}

fn vars_less(a: &Vec<u64>, b: &Vec<u64>) -> (r: bool)
    ensures
        r == vars_lt(a@, b@),
{
    let mut i: usize = 0;
    assert(a@.subrange(0, a@.len() as int) =~= a@);
    assert(b@.subrange(0, b@.len() as int) =~= b@);
    loop
        invariant
            i <= a.len(),
            i <= b.len(),
            vars_lt(a@, b@) == vars_lt(a@.subrange(i as int, a@.len() as int), b@.subrange(i as int, b@.len() as int)),
        decreases a.len() - i,
    {
        let ghost x = a@.subrange(i as int, a@.len() as int);
        let ghost y = b@.subrange(i as int, b@.len() as int);
        if i == a.len() {
            return b.len() > i;
        }
        if i == b.len() {
            return false;
        }
        assert(x[0] == a@[i as int] && y[0] == b@[i as int]);
        if a[i] != b[i] {
            return a[i] < b[i];
        }
        assert(x.drop_first() =~= a@.subrange(i + 1 as int, a@.len() as int));
        assert(y.drop_first() =~= b@.subrange(i + 1 as int, b@.len() as int));
        i += 1;
    }
}

fn term_less(a: &Term, b: &Term) -> (r: bool)
    ensures
        r == term_lt(term_view(*a), term_view(*b)),
{
    vars_less(&a.vars, &b.vars) || (vars_eq(&a.vars, &b.vars) && a.c < b.c)
}

fn insert_term_vec(v: &mut Vec<Term>, t: Term)
    ensures
        terms_view(final(v)@) == insert_term(terms_view(old(v)@), term_view(t)),
    decreases old(v)@.len(),
{
    let ghost before = v@;
    if v.len() == 0 {
        v.push(t);
        assert(terms_view(v@) =~= seq![term_view(t)]);
    } else if term_less(&v[v.len() - 1], &t) {
        v.push(t);
        assert(terms_view(v@) =~= terms_view(before).push(term_view(t)));
    } else {
        let last = v.pop().unwrap();
        assert(terms_view(v@) =~= terms_view(before).drop_last());
        insert_term_vec(v, t);
        let ghost mid = v@;
        v.push(last);
        assert(terms_view(v@) =~= terms_view(mid).push(term_view(last)));
    }
}

fn sort_terms_vec(x: &Vec<Term>) -> (r: Vec<Term>)
    ensures
        terms_view(r@) == sort_terms(terms_view(x@)),
{
    let ghost xv = terms_view(x@);
    let mut r: Vec<Term> = Vec::new();
    let mut i: usize = 0;
    assert(xv.take(0) =~= Seq::<STerm>::empty());
    assert(terms_view(r@) =~= Seq::<STerm>::empty());
    while i < x.len()
        invariant
            i <= x.len(),
            xv == terms_view(x@),
            terms_view(r@) == sort_terms(xv.take(i as int)),
        decreases x.len() - i,
    {
        assert(xv.take(i + 1 as int).drop_last() =~= xv.take(i as int));
        assert(xv.take(i + 1 as int).last() == xv[i as int]);
        insert_term_vec(&mut r, copy_term(&x[i]));
        i += 1;
    }
    assert(xv.take(x.len() as int) =~= xv);
    r
}

/// The canonical form of `e`: the maximum of its normal-form terms in
/// increasing order, each a sum of sorted variables and one folded constant.
/// It has the value of `e` under every assignment, and its own normal form
/// lists its terms in that order.
pub fn canonicalize(e: &TimeExpr) -> (r: TimeExpr)
    requires
        const_sum(*e) <= u64::MAX,
    ensures
        r == canonical(*e),
        terms_sorted(nf(r)),
        forall|env: Assignment| #[trigger] eval(r, env) == eval(*e, env),
{
    let ts = normalize(e);
    let sorted = sort_terms_vec(&ts);
    proof {
        lemma_canonical_terms(*e);
        assert(terms_view(sorted@).subrange(0, sorted.len() as int) =~= terms_view(sorted@));
        assert forall|env: Assignment| #[trigger] eval(canonical(*e), env) == eval(*e, env) by {
            lemma_nf(*e, env);
            lemma_nf_expr(sort_terms(nf(*e)), env);
            lemma_same_terms_eval(sort_terms(nf(*e)), nf(*e), env);
        }
    }
    reify(&sorted, 0)
}


/// Each term of `x` is matched by a term of `y` with the same variables and a
/// constant at least as large.
pub open spec fn dominated(x: Seq<STerm>, y: Seq<STerm>) -> bool {
    forall|i: int| 0 <= i < x.len() ==> has_cover(y, #[trigger] x[i])
}

/// A term of `y` has the variables of `t` and a constant at least its constant.
pub open spec fn has_cover(y: Seq<STerm>, t: STerm) -> bool {
    exists|j: int| 0 <= j < y.len() && y[j].0 == t.0 && t.1 <= y[j].1
}

/// Syntactic order: `a` is below `b` as seen from their normal forms alone.
pub open spec fn syntactic_le(a: TimeExpr, b: TimeExpr) -> bool {
    dominated(nf(a), nf(b))
}

/// Syntactic equality: `a` and `b` have the same normal-form terms.
pub open spec fn syntactic_eq(a: TimeExpr, b: TimeExpr) -> bool {
    same_terms(nf(a), nf(b))
}

/// Every expression is syntactically below itself.
pub proof fn lemma_syntactic_le_refl(e: TimeExpr)
    ensures
        syntactic_le(e, e),
{
    let x = nf(e);
    assert forall|i: int| 0 <= i < x.len() implies has_cover(x, #[trigger] x[i]) by {
        assert(x[i].0 == x[i].0 && x[i].1 <= x[i].1);
    }
}

proof fn lemma_dominated_eval(x: Seq<STerm>, y: Seq<STerm>, env: Assignment)
    requires
        dominated(x, y),
    ensures
        eval_nf(x, env) <= eval_nf(y, env),
{
    crate::normal_form::lemma_eval_nf_char(x, env);
    crate::normal_form::lemma_eval_nf_char(y, env);
    if eval_nf(x, env) != 0 {
        let i = choose|i: int| 0 <= i < x.len() && eval_term(#[trigger] x[i], env) == eval_nf(x, env);
        assert(has_cover(y, x[i]));
        let j = choose|j: int| 0 <= j < y.len() && y[j].0 == x[i].0 && x[i].1 <= y[j].1;
        assert(eval_term(y[j], env) <= eval_nf(y, env));
    }
}

fn term_in(t: &Term, ys: &Vec<Term>) -> (r: bool)
    ensures
        r == terms_view(ys@).contains(term_view(*t)),
{
    let ghost yv = terms_view(ys@);
    let mut j: usize = 0;
    while j < ys.len()
        invariant
            j <= ys.len(),
            yv == terms_view(ys@),
            forall|k: int| 0 <= k < j ==> yv[k] != term_view(*t),
        decreases ys.len() - j,
    {
        if ys[j].c == t.c && vars_eq(&ys[j].vars, &t.vars) {
            assert(yv[j as int] == term_view(*t));
            return true;
        }
        j += 1;
    }
    false
}

fn term_dominated(t: &Term, ys: &Vec<Term>) -> (r: bool)
    ensures
        r == has_cover(terms_view(ys@), term_view(*t)),
{
    let ghost yv = terms_view(ys@);
    let mut j: usize = 0;
    while j < ys.len()
        invariant
            j <= ys.len(),
            yv == terms_view(ys@),
            forall|k: int| 0 <= k < j ==> !(yv[k].0 == term_view(*t).0 && term_view(*t).1 <= yv[k].1),
        decreases ys.len() - j,
    {
        if t.c <= ys[j].c && vars_eq(&ys[j].vars, &t.vars) {
            assert(yv[j as int].0 == term_view(*t).0);
            return true;
        }
        j += 1;
    }
    false
}

/// Whether `a` and `b` have the same canonical terms, in any order. Equal
/// expressions in this sense have the same value under every assignment.
pub fn structural_eq(a: &TimeExpr, b: &TimeExpr) -> (r: bool)
    requires
        const_sum(*a) <= u64::MAX,
        const_sum(*b) <= u64::MAX,
    ensures
        r == syntactic_eq(*a, *b),
        r ==> forall|env: Assignment| #[trigger] eval(*a, env) == eval(*b, env),
{
    let x = normalize(a);
    let y = normalize(b);
    let ghost xv = terms_view(x@);
    let ghost yv = terms_view(y@);
    let mut i: usize = 0;
    while i < x.len()
        invariant
            i <= x.len(),
            xv == terms_view(x@),
            yv == terms_view(y@),
            xv == nf(*a),
            yv == nf(*b),
            forall|k: int| 0 <= k < i ==> yv.contains(#[trigger] xv[k]),
        decreases x.len() - i,
    {
        if !term_in(&x[i], &y) {
            assert(xv[i as int] == term_view(x@[i as int]));
            assert(!yv.contains(xv[i as int]));
            return false;
        }
        i += 1;
    }
    let mut j: usize = 0;
    while j < y.len()
        invariant
            j <= y.len(),
            xv == terms_view(x@),
            yv == terms_view(y@),
            xv == nf(*a),
            yv == nf(*b),
            forall|k: int| 0 <= k < x.len() ==> yv.contains(#[trigger] xv[k]),
            forall|k: int| 0 <= k < j ==> xv.contains(#[trigger] yv[k]),
        decreases y.len() - j,
    {
        if !term_in(&y[j], &x) {
            assert(yv[j as int] == term_view(y@[j as int]));
            assert(!xv.contains(yv[j as int]));
            return false;
        }
        j += 1;
    }
    proof {
        assert forall|env: Assignment| #[trigger] eval(*a, env) == eval(*b, env) by {
            lemma_nf(*a, env);
            lemma_nf(*b, env);
            lemma_same_terms_eval(xv, yv, env);
        }
    }
    true
}

/// Whether `a` is below `b` syntactically: each canonical term of `a` has a
/// term of `b` over the same variables with a constant at least as large.
/// Then `a` is at most `b` under every assignment.
pub fn time_le(a: &TimeExpr, b: &TimeExpr) -> (r: bool)
    requires
        const_sum(*a) <= u64::MAX,
        const_sum(*b) <= u64::MAX,
    ensures
        r == syntactic_le(*a, *b),
        r ==> forall|env: Assignment| #[trigger] eval(*a, env) <= eval(*b, env),
{
    let x = normalize(a);
    let y = normalize(b);
    let ghost xv = terms_view(x@);
    let ghost yv = terms_view(y@);
    let mut i: usize = 0;
    while i < x.len()
        invariant
            i <= x.len(),
            xv == terms_view(x@),
            yv == terms_view(y@),
            xv == nf(*a),
            yv == nf(*b),
            forall|k: int| 0 <= k < i ==> has_cover(yv, #[trigger] xv[k]),
        decreases x.len() - i,
    {
        if !term_dominated(&x[i], &y) {
            assert(xv[i as int] == term_view(x@[i as int]));
            assert(!has_cover(yv, xv[i as int]));
            assert(!dominated(xv, yv));
            return false;
        }
        i += 1;
    }
    proof {
        assert forall|env: Assignment| #[trigger] eval(*a, env) <= eval(*b, env) by {
            lemma_nf(*a, env);
            lemma_nf(*b, env);
            lemma_dominated_eval(xv, yv, env);
        }
    }
    true
}


/// A time that is the constant `n`.
pub fn mk_concrete(n: u64) -> (r: TimeExpr)
    ensures
        r == TimeExpr::Concrete(n),
        r == canonical(r),
{
    proof {
        let e = TimeExpr::Concrete(n);
        assert(nf(e).len() == 1);
        lemma_sort_sorted(nf(e));
    }
    TimeExpr::Concrete(n)
}

/// A time that is the abstract variable `v`.
pub fn mk_abstract(v: Id) -> (r: TimeExpr)
    ensures
        r == TimeExpr::Abstract(v),
        r == canonical(r),
{
    proof {
        let e = TimeExpr::Abstract(v);
        assert(nf(e).len() == 1);
        lemma_sort_sorted(nf(e));
        assert(nf(e)[0].0 =~= seq![v.key]);
    }
    TimeExpr::Abstract(v)
}

/// The canonical form of `a + b`.
pub fn mk_add(a: &TimeExpr, b: &TimeExpr) -> (r: TimeExpr)
    requires
        const_sum(*a) + const_sum(*b) <= u64::MAX,
    ensures
        r == canonical(TimeExpr::Add(Box::new(*a), Box::new(*b))),
        forall|env: Assignment| #[trigger] eval(r, env) == eval(*a, env) + eval(*b, env),
{
    let e = TimeExpr::Add(Box::new(a.deep_copy()), Box::new(b.deep_copy()));
    canonicalize(&e)
}

/// The canonical form of `max(a, b)`.
pub fn mk_max(a: &TimeExpr, b: &TimeExpr) -> (r: TimeExpr)
    requires
        const_sum(*a) + const_sum(*b) <= u64::MAX,
    ensures
        r == canonical(TimeExpr::Max(Box::new(*a), Box::new(*b))),
        forall|env: Assignment| #[trigger] eval(r, env) == max_int(eval(*a, env), eval(*b, env)),
{
    let e = TimeExpr::Max(Box::new(a.deep_copy()), Box::new(b.deep_copy()));
    canonicalize(&e)
}

/// The time bound to `v` by the first binding for it, if any.
pub open spec fn lookup(bs: Seq<(Id, TimeExpr)>, v: Id) -> Option<TimeExpr>
    decreases bs.len(),
{
    if bs.len() == 0 {
        None
    } else if bs[0].0 == v {
        Some(bs[0].1)
    } else {
        lookup(bs.drop_first(), v)
    }
}

/// `e` with each bound abstract variable replaced by its binding.
pub open spec fn subst(e: TimeExpr, bs: Seq<(Id, TimeExpr)>) -> TimeExpr
    decreases e,
{
    match e {
        TimeExpr::Concrete(n) => TimeExpr::Concrete(n),
        TimeExpr::Abstract(v) => match lookup(bs, v) {
            Some(t) => t,
            None => TimeExpr::Abstract(v),
        },
        TimeExpr::Add(a, b) => TimeExpr::Add(Box::new(subst(*a, bs)), Box::new(subst(*b, bs))),
        TimeExpr::Max(a, b) => TimeExpr::Max(Box::new(subst(*a, bs)), Box::new(subst(*b, bs))),
    }
}

/// A closed expression is unchanged by substitution.
pub proof fn lemma_subst_closed(e: TimeExpr, bs: Seq<(Id, TimeExpr)>)
    requires
        is_closed(e),
    ensures
        subst(e, bs) == e,
    decreases e,
{
    match e {
        TimeExpr::Add(a, b) => {
            lemma_subst_closed(*a, bs);
            lemma_subst_closed(*b, bs);
        },
        TimeExpr::Max(a, b) => {
            lemma_subst_closed(*a, bs);
            lemma_subst_closed(*b, bs);
        },
        _ => {},
    }
}

fn lookup_exec(bs: &Vec<(Id, TimeExpr)>, v: Id) -> (r: Option<TimeExpr>)
    ensures
        r == lookup(bs@, v),
{
    let mut i: usize = 0;
    assert(bs@.subrange(0, bs.len() as int) =~= bs@);
    while i < bs.len()
        invariant
            i <= bs.len(),
            lookup(bs@, v) == lookup(bs@.subrange(i as int, bs.len() as int), v),
        decreases bs.len() - i,
    {
        let ghost rest = bs@.subrange(i as int, bs.len() as int);
        assert(rest.drop_first() =~= bs@.subrange(i + 1 as int, bs.len() as int));
        assert(rest[0] == bs@[i as int]);
        if bs[i].0 == v {
            return Some(bs[i].1.deep_copy());
        }
        i += 1;
    }
    None
}

/// `e` with each abstract variable that `bs` binds replaced by the first
/// binding for it.
pub fn substitute(e: &TimeExpr, bs: &Vec<(Id, TimeExpr)>) -> (r: TimeExpr)
    ensures
        r == subst(*e, bs@),
    decreases *e,
{
    match e {
        TimeExpr::Concrete(n) => TimeExpr::Concrete(*n),
        TimeExpr::Abstract(v) => match lookup_exec(bs, *v) {
            Some(t) => t,
            None => TimeExpr::Abstract(*v),
        },
        TimeExpr::Add(a, b) => TimeExpr::Add(Box::new(substitute(a, bs)), Box::new(substitute(b, bs))),
        TimeExpr::Max(a, b) => TimeExpr::Max(Box::new(substitute(a, bs)), Box::new(substitute(b, bs))),
    }
}

/// Whether `e` mentions no abstract variable.
pub fn closed(e: &TimeExpr) -> (r: bool)
    ensures
        r == is_closed(*e),
    decreases *e,
{
    match e {
        TimeExpr::Concrete(_) => true,
        TimeExpr::Abstract(_) => false,
        TimeExpr::Add(a, b) => closed(a) && closed(b),
        TimeExpr::Max(a, b) => closed(a) && closed(b),
    }
}

pub open spec fn digit_char(d: nat) -> char {
    if d == 0 { '0' } else if d == 1 { '1' } else if d == 2 { '2' } else if d == 3 { '3' }
    else if d == 4 { '4' } else if d == 5 { '5' } else if d == 6 { '6' } else if d == 7 { '7' }
    else if d == 8 { '8' } else { '9' }
}

/// The decimal digits of `n`.
pub open spec fn decimal(n: nat) -> Seq<char>
    decreases n,
{
    if n < 10 {
        seq![digit_char(n)]
    } else {
        decimal(n / 10) + seq![digit_char(n % 10)]
    }
}

/// The solver constant that stands for the abstract variable with key `k`.
pub open spec fn smt_var(k: u64) -> Seq<char> {
    seq!['t'] + decimal(k as nat)
}

/// The S-expression of `e` over integer constants: `+` for a sum and
/// `(ite (<= a b) b a)` for a maximum.
pub open spec fn smt_text(e: TimeExpr) -> Seq<char>
    decreases e,
{
    match e {
        TimeExpr::Concrete(n) => decimal(n as nat),
        TimeExpr::Abstract(v) => smt_var(v.key),
        TimeExpr::Add(a, b) => seq!['(', '+', ' '] + smt_text(*a) + seq![' '] + smt_text(*b) + seq![')'],
        TimeExpr::Max(a, b) => seq!['(', 'i', 't', 'e', ' ', '(', '<', '=', ' '] + smt_text(*a) + seq![' ']
            + smt_text(*b) + seq![')', ' '] + smt_text(*b) + seq![' '] + smt_text(*a) + seq![')'],
    }
}

fn digit_str(d: u64) -> (r: &'static str)
    requires
        d < 10,
    ensures
        r@ == seq![digit_char(d as nat)],
{
    proof {
        reveal_strlit("0"); reveal_strlit("1"); reveal_strlit("2"); reveal_strlit("3");
        reveal_strlit("4"); reveal_strlit("5"); reveal_strlit("6"); reveal_strlit("7");
        reveal_strlit("8"); reveal_strlit("9");
    }
    if d == 0 { "0" } else if d == 1 { "1" } else if d == 2 { "2" } else if d == 3 { "3" }
    else if d == 4 { "4" } else if d == 5 { "5" } else if d == 6 { "6" } else if d == 7 { "7" }
    else if d == 8 { "8" } else { "9" }
}

/// Appends the decimal digits of `n` to `out`.
pub fn push_decimal(out: &mut String, n: u64)
    ensures
        final(out)@ == old(out)@ + decimal(n as nat),
    decreases n,
{
    if n >= 10 {
        push_decimal(out, n / 10);
    }
    out.append(digit_str(n % 10));
    assert(out@ =~= old(out)@ + decimal(n as nat));
}

/// Appends the S-expression of `e` to `out`.
pub fn push_smt(out: &mut String, e: &TimeExpr)
    ensures
        final(out)@ == old(out)@ + smt_text(*e),
    decreases *e,
{
    proof {
        reveal_strlit("(+ "); reveal_strlit(" "); reveal_strlit(")"); reveal_strlit("(ite (<= ");
        reveal_strlit(") "); reveal_strlit("t");
    }
    match e {
        TimeExpr::Concrete(n) => push_decimal(out, *n),
        TimeExpr::Abstract(v) => {
            out.append("t");
            push_decimal(out, v.key);
        },
        TimeExpr::Add(a, b) => {
            out.append("(+ ");
            push_smt(out, a);
            out.append(" ");
            push_smt(out, b);
            out.append(")");
        },
        TimeExpr::Max(a, b) => {
            out.append("(ite (<= ");
            push_smt(out, a);
            out.append(" ");
            push_smt(out, b);
            out.append(") ");
            push_smt(out, b);
            out.append(" ");
            push_smt(out, a);
            out.append(")");
        },
    }
    assert(out@ =~= old(out)@ + smt_text(*e));
}

/// The S-expression of `e`.
pub fn to_smt(e: &TimeExpr) -> (r: String)
    ensures
        r@ == smt_text(*e),
{
    let mut out = String::new();
    push_smt(&mut out, e);
    assert(out@ =~= smt_text(*e));
    out
}

/// Canonicalising twice gives what canonicalising once gives.
pub proof fn law_canonicalize_idempotent(e: TimeExpr)
    requires
        const_sum(e) <= u64::MAX,
    ensures
        canonical(canonical(e)) == canonical(e),
{
    lemma_canonical_terms(e);
    lemma_sort_sorted(sort_terms(nf(e)));
}

/// Expressions that are syntactically equal have the same value under every
/// assignment of their variables.
pub proof fn law_syntactic_eq_sound(a: TimeExpr, b: TimeExpr, env: Assignment)
    requires
        syntactic_eq(a, b),
    ensures
        eval(a, env) == eval(b, env),
{
    lemma_nf(a, env);
    lemma_nf(b, env);
    lemma_same_terms_eval(nf(a), nf(b), env);
}

} // verus!
