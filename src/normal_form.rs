//! Lemmas on the normal form of time expressions: it keeps the value of an
//! expression, and reading a normal form back gives the same normal form.
use vstd::prelude::*;
use crate::time::{
    Assignment, STerm, sorted, insert_sorted, vars_add, index_of, sum_vars, eval_term, eval_nf,
    same_terms, merge_term, merge_all, wf_terms, consts_below, max_int, add_each, term_add, nf_add,
    nf, eval, const_sum, sum_expr, nf_expr, TimeExpr, Id, vars_lt, term_lt, insert_term, sort_terms,
    terms_sorted,
};

verus! {

pub proof fn lemma_sum_nonneg(s: Seq<u64>, env: Assignment)
    ensures
        sum_vars(s, env) >= 0,
    decreases s.len(),
{
    if s.len() > 0 {
        lemma_sum_nonneg(s.drop_first(), env);
    }
}

pub proof fn lemma_sum_push(s: Seq<u64>, x: u64, env: Assignment)
    ensures
        sum_vars(s.push(x), env) == sum_vars(s, env) + env(x),
    decreases s.len(),
{
    if s.len() > 0 {
        assert(s.push(x).drop_first() =~= s.drop_first().push(x));
        assert(s.push(x)[0] == s[0]);
        lemma_sum_push(s.drop_first(), x, env);
    } else {
        assert(s.push(x).drop_first() =~= Seq::<u64>::empty());
        assert(s.push(x)[0] == x);
        assert(sum_vars(Seq::<u64>::empty(), env) == 0);
    }
}

pub proof fn lemma_sum_drop_last(s: Seq<u64>, env: Assignment)
    requires
        s.len() > 0,
    ensures
        sum_vars(s, env) == sum_vars(s.drop_last(), env) + env(s.last()),
{
    assert(s.drop_last().push(s.last()) =~= s);
    lemma_sum_push(s.drop_last(), s.last(), env);
}

pub proof fn lemma_insert_bound(s: Seq<u64>, x: u64, b: u64)
    requires
        forall|i: int| 0 <= i < s.len() ==> s[i] <= b,
        x <= b,
    ensures
        forall|i: int| 0 <= i < insert_sorted(s, x).len() ==> insert_sorted(s, x)[i] <= b,
        insert_sorted(s, x).len() == s.len() + 1,
    decreases s.len(),
{
    if s.len() > 0 && s.last() > x {
        lemma_insert_bound(s.drop_last(), x, b);
    }
}

pub proof fn lemma_insert_sorted(s: Seq<u64>, x: u64, env: Assignment)
    ensures
        sum_vars(insert_sorted(s, x), env) == sum_vars(s, env) + env(x),
        sorted(s) ==> sorted(insert_sorted(s, x)),
        insert_sorted(s, x).len() == s.len() + 1,
    decreases s.len(),
{
    if s.len() == 0 {
        assert(seq![x].drop_first() =~= Seq::<u64>::empty());
        assert(sum_vars(Seq::<u64>::empty(), env) == 0);
        assert(seq![x][0] == x);
    } else if s.last() <= x {
        lemma_sum_push(s, x, env);
    } else {
        let r = insert_sorted(s.drop_last(), x);
        lemma_insert_sorted(s.drop_last(), x, env);
        lemma_sum_push(r, s.last(), env);
        lemma_sum_drop_last(s, env);
        if sorted(s) {
            lemma_insert_bound(s.drop_last(), x, s.last());
        }
    }
}

pub proof fn lemma_vars_add(a: Seq<u64>, b: Seq<u64>, env: Assignment)
    ensures
        sum_vars(vars_add(a, b), env) == sum_vars(a, env) + sum_vars(b, env),
        sorted(a) ==> sorted(vars_add(a, b)),
    decreases b.len(),
{
    if b.len() > 0 {
        lemma_vars_add(a, b.drop_last(), env);
        lemma_insert_sorted(vars_add(a, b.drop_last()), b.last(), env);
        lemma_sum_drop_last(b, env);
    }
}

/// Adding a sorted list whose elements are all at least those of `a` appends it.
pub proof fn lemma_vars_add_concat(a: Seq<u64>, b: Seq<u64>)
    requires
        sorted(a + b),
    ensures
        vars_add(a, b) == a + b,
    decreases b.len(),
{
    if b.len() > 0 {
        let b2 = b.drop_last();
        assert((a + b2) =~= (a + b).drop_last());
        assert(sorted(a + b2));
        lemma_vars_add_concat(a, b2);
        assert((a + b2).push(b.last()) =~= a + b);
        assert((a + b)[(a + b).len() - 1] == b.last());
        if (a + b2).len() > 0 {
            assert((a + b)[(a + b).len() - 2] == (a + b2).last());
        }
    }
}

pub proof fn lemma_index_of(x: Seq<STerm>, vs: Seq<u64>)
    ensures
        index_of(x, vs) < 0 <==> (forall|j: int| 0 <= j < x.len() ==> x[j].0 != vs),
        index_of(x, vs) >= 0 ==> index_of(x, vs) < x.len() && x[index_of(x, vs)].0 == vs,
        index_of(x, vs) >= 0 ==> forall|j: int| 0 <= j < index_of(x, vs) ==> x[j].0 != vs,
        index_of(x, vs) >= -1,
    decreases x.len(),
{
    if x.len() > 0 && x[0].0 != vs {
        lemma_index_of(x.drop_first(), vs);
        if index_of(x.drop_first(), vs) < 0 {
            assert forall|j: int| 0 <= j < x.len() implies x[j].0 != vs by {
                if j > 0 {
                    assert(x[j] == x.drop_first()[j - 1]);
                }
            }
        } else {
            assert forall|j: int| 0 <= j < index_of(x, vs) implies x[j].0 != vs by {
                if j > 0 {
                    assert(x[j] == x.drop_first()[j - 1]);
                }
            }
        }
    }
}

pub proof fn lemma_eval_term_nonneg(t: STerm, env: Assignment)
    ensures
        eval_term(t, env) >= 0,
{
    lemma_sum_nonneg(t.0, env);
}

/// The value of a maximum bounds each of its terms and is one of them, or zero.
pub proof fn lemma_eval_nf_char(x: Seq<STerm>, env: Assignment)
    ensures
        eval_nf(x, env) >= 0,
        forall|i: int| 0 <= i < x.len() ==> eval_term(#[trigger] x[i], env) <= eval_nf(x, env),
        eval_nf(x, env) == 0 || exists|i: int|
            0 <= i < x.len() && eval_term(#[trigger] x[i], env) == eval_nf(x, env),
    decreases x.len(),
{
    if x.len() > 0 {
        let y = x.drop_last();
        lemma_eval_nf_char(y, env);
        assert forall|i: int| 0 <= i < x.len() implies eval_term(#[trigger] x[i], env) <= eval_nf(x, env) by {
            if i < y.len() {
                assert(x[i] == y[i]);
            }
        }
        if eval_nf(x, env) != 0 {
            if eval_nf(x, env) == eval_term(x.last(), env) {
                assert(eval_term(x[x.len() - 1], env) == eval_nf(x, env));
            } else {
                let i = choose|i: int| 0 <= i < y.len() && eval_term(#[trigger] y[i], env) == eval_nf(y, env);
                assert(x[i] == y[i]);
            }
        }
    }
}

/// A value that bounds each term and is one of them (or zero) is the maximum.
pub proof fn lemma_eval_nf_is(x: Seq<STerm>, env: Assignment, v: int)
    requires
        v >= 0,
        forall|i: int| 0 <= i < x.len() ==> eval_term(#[trigger] x[i], env) <= v,
        v == 0 || exists|i: int| 0 <= i < x.len() && eval_term(#[trigger] x[i], env) == v,
    ensures
        eval_nf(x, env) == v,
{
    lemma_eval_nf_char(x, env);
    if v != 0 {
        let i = choose|i: int| 0 <= i < x.len() && eval_term(#[trigger] x[i], env) == v;
        assert(eval_term(x[i], env) <= eval_nf(x, env));
    }
    if eval_nf(x, env) != 0 {
        let i = choose|i: int| 0 <= i < x.len() && eval_term(#[trigger] x[i], env) == eval_nf(x, env);
        assert(eval_term(x[i], env) <= v);
    }
}

/// Maxima with the same terms have the same value.
pub proof fn lemma_same_terms_eval(x: Seq<STerm>, y: Seq<STerm>, env: Assignment)
    requires
        same_terms(x, y),
    ensures
        eval_nf(x, env) == eval_nf(y, env),
{
    lemma_eval_nf_char(x, env);
    lemma_eval_nf_char(y, env);
    let v = eval_nf(x, env);
    assert forall|j: int| 0 <= j < y.len() implies eval_term(#[trigger] y[j], env) <= v by {
        assert(x.contains(y[j]));
        let i = choose|i: int| 0 <= i < x.len() && x[i] == y[j];
        assert(eval_term(x[i], env) <= v);
    }
    if v != 0 {
        let i = choose|i: int| 0 <= i < x.len() && eval_term(#[trigger] x[i], env) == v;
        assert(y.contains(x[i]));
        let j = choose|j: int| 0 <= j < y.len() && y[j] == x[i];
        assert(eval_term(y[j], env) == v);
    }
    lemma_eval_nf_is(y, env, v);
}


pub proof fn lemma_merge_term(x: Seq<STerm>, t: STerm, env: Assignment, b: nat)
    ensures
        wf_terms(x) && sorted(t.0) ==> wf_terms(merge_term(x, t)),
        eval_nf(merge_term(x, t), env) == max_int(eval_nf(x, env), eval_term(t, env)),
        consts_below(x, b) && t.1 <= b ==> consts_below(merge_term(x, t), b),
        merge_term(x, t).len() > 0,
{
    lemma_index_of(x, t.0);
    lemma_eval_nf_char(x, env);
    lemma_eval_term_nonneg(t, env);
    let r = merge_term(x, t);
    let i = index_of(x, t.0);
    if i < 0 {
        assert(r.drop_last() =~= x);
        if wf_terms(x) && sorted(t.0) {
            assert forall|p: int, q: int| 0 <= p < q < r.len() implies r[p].0 != r[q].0 by {
                if q == x.len() {
                    assert(r[p] == x[p]);
                }
            }
        }
    } else {
        let v = max_int(eval_nf(x, env), eval_term(t, env));
        assert(eval_term(r[i], env) == max_int(eval_term(x[i], env), eval_term(t, env)));
        assert forall|j: int| 0 <= j < r.len() implies eval_term(#[trigger] r[j], env) <= v by {
            if j != i {
                assert(r[j] == x[j]);
            }
        }
        if eval_term(r[i], env) != v {
            let k = choose|k: int| 0 <= k < x.len() && eval_term(#[trigger] x[k], env) == eval_nf(x, env);
            assert(k != i);
            assert(r[k] == x[k]);
            assert(eval_term(r[k], env) == v);
        }
        lemma_eval_nf_is(r, env, v);
    }
}

pub proof fn lemma_merge_all(acc: Seq<STerm>, ts: Seq<STerm>, env: Assignment, b: nat)
    ensures
        wf_terms(acc) && (forall|i: int| 0 <= i < ts.len() ==> sorted(#[trigger] ts[i].0))
            ==> wf_terms(merge_all(acc, ts)),
        eval_nf(merge_all(acc, ts), env) == max_int(eval_nf(acc, env), eval_nf(ts, env)),
        consts_below(acc, b) && consts_below(ts, b) ==> consts_below(merge_all(acc, ts), b),
        acc.len() > 0 || ts.len() > 0 ==> merge_all(acc, ts).len() > 0,
    decreases ts.len(),
{
    lemma_eval_nf_char(acc, env);
    if ts.len() > 0 {
        let ts2 = ts.drop_last();
        assert forall|i: int| 0 <= i < ts2.len() implies ts2[i] == ts[i] by {}
        lemma_merge_all(acc, ts2, env, b);
        lemma_merge_term(merge_all(acc, ts2), ts.last(), env, b);
        lemma_eval_nf_char(ts2, env);
    }
}

pub proof fn lemma_add_each(t: STerm, y: Seq<STerm>, env: Assignment, bt: nat, by: nat)
    ensures
        sorted(t.0) ==> forall|i: int| 0 <= i < add_each(t, y).len() ==> sorted(#[trigger] add_each(t, y)[i].0),
        eval_nf(add_each(t, y), env) == if y.len() == 0 { 0 } else { eval_term(t, env) + eval_nf(y, env) },
        t.1 <= bt && consts_below(y, by) ==> consts_below(add_each(t, y), bt + by),
        add_each(t, y).len() == y.len(),
    decreases y.len(),
{
    if y.len() > 0 {
        let y2 = y.drop_last();
        assert forall|i: int| 0 <= i < y2.len() implies y2[i] == y[i] by {}
        lemma_add_each(t, y2, env, bt, by);
        let r = add_each(t, y);
        assert(r.drop_last() =~= add_each(t, y2));
        lemma_vars_add(t.0, y.last().0, env);
        lemma_eval_nf_char(y2, env);
        lemma_eval_term_nonneg(t, env);
        lemma_eval_term_nonneg(y.last(), env);
        if sorted(t.0) {
            assert forall|i: int| 0 <= i < r.len() implies sorted(#[trigger] r[i].0) by {
                if i < y2.len() {
                    assert(r[i] == add_each(t, y2)[i]);
                }
            }
        }
        if t.1 <= bt && consts_below(y, by) {
            assert forall|i: int| 0 <= i < r.len() implies #[trigger] r[i].1 <= bt + by by {
                if i < y2.len() {
                    assert(r[i] == add_each(t, y2)[i]);
                }
            }
        }
    }
}

pub proof fn lemma_nf_add(x: Seq<STerm>, y: Seq<STerm>, env: Assignment, bx: nat, by: nat)
    requires
        y.len() > 0,
    ensures
        (forall|i: int| 0 <= i < x.len() ==> sorted(#[trigger] x[i].0))
            && (forall|i: int| 0 <= i < y.len() ==> sorted(#[trigger] y[i].0))
            ==> wf_terms(nf_add(x, y)),
        eval_nf(nf_add(x, y), env) == if x.len() == 0 { 0 } else { eval_nf(x, env) + eval_nf(y, env) },
        consts_below(x, bx) && consts_below(y, by) ==> consts_below(nf_add(x, y), bx + by),
        x.len() > 0 ==> nf_add(x, y).len() > 0,
    decreases x.len(),
{
    if x.len() > 0 {
        let x2 = x.drop_last();
        assert forall|i: int| 0 <= i < x2.len() implies x2[i] == x[i] by {}
        lemma_nf_add(x2, y, env, bx, by);
        lemma_add_each(x.last(), y, env, bx, by);
        lemma_merge_all(nf_add(x2, y), add_each(x.last(), y), env, bx + by);
        lemma_eval_nf_char(x2, env);
        lemma_eval_nf_char(y, env);
        lemma_eval_term_nonneg(x.last(), env);
        assert(wf_terms(Seq::<STerm>::empty()));
        assert(consts_below(Seq::<STerm>::empty(), bx + by));
    }
}


/// The normal form of `e` is a well-formed, non-empty maximum with the value
/// of `e`, whose constants are bounded by those of `e`.
pub proof fn lemma_nf(e: TimeExpr, env: Assignment)
    ensures
        wf_terms(nf(e)),
        nf(e).len() > 0,
        eval_nf(nf(e), env) == eval(e, env),
        consts_below(nf(e), const_sum(e)),
    decreases e,
{
    match e {
        TimeExpr::Concrete(n) => {
            assert(sum_vars(Seq::<u64>::empty(), env) == 0);
            assert(eval_nf(nf(e).drop_last(), env) == 0);
        },
        TimeExpr::Abstract(v) => {
            let vs = seq![v.key];
            assert(vs.drop_first() =~= Seq::<u64>::empty());
            assert(sum_vars(Seq::<u64>::empty(), env) == 0);
            assert(sum_vars(vs, env) == env(v.key));
            assert(eval_nf(nf(e).drop_last(), env) == 0);
        },
        TimeExpr::Add(a, b) => {
            lemma_nf(*a, env);
            lemma_nf(*b, env);
            lemma_nf_add(nf(*a), nf(*b), env, const_sum(*a), const_sum(*b));
        },
        TimeExpr::Max(a, b) => {
            lemma_nf(*a, env);
            lemma_nf(*b, env);
            lemma_merge_all(nf(*a), nf(*b), env, const_sum(*a));
            lemma_merge_all(nf(*a), nf(*b), env, const_sum(*a) + const_sum(*b));
            assert(consts_below(nf(*a), const_sum(*a) + const_sum(*b)));
            assert(consts_below(nf(*b), const_sum(*a) + const_sum(*b)));
        },
    }
}

/// A sum read back from a term has its value and normalises to that term.
pub proof fn lemma_sum_expr(vs: Seq<u64>, c: nat, env: Assignment)
    requires
        c <= u64::MAX,
    ensures
        eval(sum_expr(vs, c), env) == sum_vars(vs, env) + c,
        sorted(vs) ==> nf(sum_expr(vs, c)) == seq![(vs, c)],
    decreases vs.len(),
{
    let e0 = Seq::<u64>::empty();
    assert(sum_vars(e0, env) == 0);
    if vs.len() == 0 {
        assert(vs =~= e0);
        assert(sum_expr(vs, c) == TimeExpr::Concrete(c as u64));
        assert(eval(sum_expr(vs, c), env) == c);
    } else {
        let v = vs[0];
        let one = seq![(seq![v], 0nat)];
        assert(nf(TimeExpr::Abstract(Id { key: v })) =~= one);
        assert(seq![v].drop_first() =~= e0);
        assert(sum_vars(seq![v], env) == env(v));
        if vs.len() == 1 {
            assert(vs =~= seq![v]);
            assert(sum_vars(vs, env) == env(v));
            assert(eval(TimeExpr::Abstract(Id { key: v }), env) == env(v));
            if c == 0 {
                assert(sum_expr(vs, c) == TimeExpr::Abstract(Id { key: v }));
                assert(eval(sum_expr(vs, c), env) == sum_vars(vs, env) + c);
            } else {
                let y = seq![(e0, c)];
                assert(nf(TimeExpr::Concrete(c as u64)) =~= y);
                assert(eval(TimeExpr::Concrete(c as u64), env) == c);
                assert(sum_expr(vs, c) == TimeExpr::Add(Box::new(TimeExpr::Abstract(Id { key: v })), Box::new(TimeExpr::Concrete(c as u64))));
                assert(nf(sum_expr(vs, c)) == nf_add(one, y));
                assert(one.drop_last() =~= Seq::<STerm>::empty());
                assert(y.drop_last() =~= Seq::<STerm>::empty());
                assert(vars_add(seq![v], e0) == seq![v]);
                assert(add_each(one.last(), Seq::<STerm>::empty()) == Seq::<STerm>::empty());
                assert(term_add(one.last(), y.last()) == (seq![v], c));
                assert(add_each(one.last(), y) =~= seq![(seq![v], c)]);
                assert(nf_add(Seq::<STerm>::empty(), y) == Seq::<STerm>::empty());
                assert(nf_add(one, y) =~= merge_all(Seq::<STerm>::empty(), seq![(seq![v], c)]));
                let m = seq![(seq![v], c)];
                assert(m.drop_last() =~= Seq::<STerm>::empty());
                assert(index_of(Seq::<STerm>::empty(), seq![v]) == -1);
                assert(merge_all(Seq::<STerm>::empty(), m.drop_last()) == Seq::<STerm>::empty());
                assert(merge_term(Seq::<STerm>::empty(), m.last()) =~= m);
                assert(merge_all(Seq::<STerm>::empty(), m) =~= m);
            }
        } else {
            let rest = vs.drop_first();
            lemma_sum_expr(rest, c, env);
            assert(sum_vars(vs, env) == env(v) + sum_vars(rest, env));
            assert(eval(TimeExpr::Abstract(Id { key: v }), env) == env(v));
            assert(sum_expr(vs, c) == TimeExpr::Add(Box::new(TimeExpr::Abstract(Id { key: v })), Box::new(sum_expr(rest, c))));
            assert(eval(sum_expr(vs, c), env) == sum_vars(vs, env) + c);
            if sorted(vs) {
                assert(sorted(rest));
                let y = seq![(rest, c)];
                assert(nf(sum_expr(vs, c)) == nf_add(one, y));
                assert(vs =~= seq![v] + rest);
                lemma_vars_add_concat(seq![v], rest);
                assert(one.drop_last() =~= Seq::<STerm>::empty());
                assert(y.drop_last() =~= Seq::<STerm>::empty());
                assert(add_each(one.last(), Seq::<STerm>::empty()) == Seq::<STerm>::empty());
                assert(term_add(one.last(), y.last()) == (vs, c));
                assert(add_each(one.last(), y) =~= seq![(vs, c)]);
                assert(nf_add(Seq::<STerm>::empty(), y) == Seq::<STerm>::empty());
                assert(nf_add(one, y) =~= merge_all(Seq::<STerm>::empty(), seq![(vs, c)]));
                let m = seq![(vs, c)];
                assert(m.drop_last() =~= Seq::<STerm>::empty());
                assert(index_of(Seq::<STerm>::empty(), vs) == -1);
                assert(merge_all(Seq::<STerm>::empty(), m.drop_last()) == Seq::<STerm>::empty());
                assert(merge_term(Seq::<STerm>::empty(), m.last()) =~= m);
                assert(merge_all(Seq::<STerm>::empty(), m) =~= m);
            }
        }
    }
}

/// Merging terms whose variables are all new appends them.
pub proof fn lemma_merge_all_fresh(x: Seq<STerm>, ts: Seq<STerm>)
    requires
        wf_terms(x + ts),
    ensures
        merge_all(x, ts) == x + ts,
    decreases ts.len(),
{
    if ts.len() > 0 {
        let ts2 = ts.drop_last();
        let z = x + ts;
        assert(x + ts2 =~= z.drop_last());
        assert forall|i: int| 0 <= i < (x + ts2).len() implies sorted(#[trigger] (x + ts2)[i].0) by {
            assert((x + ts2)[i] == z[i]);
        }
        assert forall|i: int, j: int| 0 <= i < j < (x + ts2).len() implies (x + ts2)[i].0 != (x + ts2)[j].0 by {
            assert((x + ts2)[i] == z[i]);
            assert((x + ts2)[j] == z[j]);
        }
        lemma_merge_all_fresh(x, ts2);
        lemma_index_of(x + ts2, ts.last().0);
        assert(z[z.len() - 1] == ts.last());
        assert forall|j: int| 0 <= j < (x + ts2).len() implies (x + ts2)[j].0 != ts.last().0 by {
            assert((x + ts2)[j] == z[j]);
        }
        assert((x + ts2).push(ts.last()) =~= z);
    }
}

/// A well-formed maximum read back as an expression has its value and
/// normalises to itself.
pub proof fn lemma_nf_expr(ts: Seq<STerm>, env: Assignment)
    requires
        ts.len() > 0,
        consts_below(ts, u64::MAX as nat),
    ensures
        eval(nf_expr(ts), env) == eval_nf(ts, env),
        wf_terms(ts) ==> nf(nf_expr(ts)) == ts,
    decreases ts.len(),
{
    lemma_sum_expr(ts[0].0, ts[0].1, env);
    if ts.len() == 1 {
        assert(ts.drop_last() =~= Seq::<STerm>::empty());
        assert(ts =~= seq![ts[0]]);
        assert(eval_nf(ts.drop_last(), env) == 0);
        assert(ts.last() == ts[0]);
        lemma_eval_term_nonneg(ts[0], env);
    } else {
        let rest = ts.drop_first();
        assert forall|i: int| 0 <= i < rest.len() implies rest[i] == ts[i + 1] by {}
        lemma_nf_expr(rest, env);
        lemma_eval_nf_char(rest, env);
        lemma_eval_term_nonneg(ts[0], env);
        let v = max_int(eval_term(ts[0], env), eval_nf(rest, env));
        assert forall|i: int| 0 <= i < ts.len() implies eval_term(#[trigger] ts[i], env) <= v by {
            if i > 0 {
                assert(ts[i] == rest[i - 1]);
            }
        }
        if v != eval_term(ts[0], env) && v != 0 {
            let k = choose|k: int| 0 <= k < rest.len() && eval_term(#[trigger] rest[k], env) == eval_nf(rest, env);
            assert(ts[k + 1] == rest[k]);
            assert(eval_term(ts[k + 1], env) == v);
        }
        lemma_eval_nf_is(ts, env, v);
        if wf_terms(ts) {
            assert(seq![ts[0]] + rest =~= ts);
            lemma_merge_all_fresh(seq![ts[0]], rest);
        }
    }
}


pub proof fn lemma_vars_lt_irrefl(a: Seq<u64>)
    ensures
        !vars_lt(a, a),
    decreases a.len(),
{
    if a.len() > 0 {
        lemma_vars_lt_irrefl(a.drop_first());
    }
}

pub proof fn lemma_vars_lt_trans(a: Seq<u64>, b: Seq<u64>, c: Seq<u64>)
    requires
        vars_lt(a, b),
        vars_lt(b, c),
    ensures
        vars_lt(a, c),
    decreases a.len(),
{
    if a.len() > 0 && b.len() > 0 && c.len() > 0 && a[0] == b[0] && b[0] == c[0] {
        lemma_vars_lt_trans(a.drop_first(), b.drop_first(), c.drop_first());
    }
}

pub proof fn lemma_vars_lt_total(a: Seq<u64>, b: Seq<u64>)
    requires
        a != b,
    ensures
        vars_lt(a, b) || vars_lt(b, a),
    decreases a.len(),
{
    if a.len() > 0 && b.len() > 0 && a[0] == b[0] {
        if a.drop_first() == b.drop_first() {
            assert(a =~= seq![a[0]] + a.drop_first());
            assert(b =~= seq![b[0]] + b.drop_first());
        }
        lemma_vars_lt_total(a.drop_first(), b.drop_first());
    } else if a.len() == 0 && b.len() == 0 {
        assert(a =~= b);
    }
}

pub proof fn lemma_term_lt_order(a: STerm, b: STerm, c: STerm)
    ensures
        !term_lt(a, a),
        term_lt(a, b) && term_lt(b, c) ==> term_lt(a, c),
        a != b ==> term_lt(a, b) || term_lt(b, a),
        term_lt(a, b) ==> !term_lt(b, a),
{
    lemma_vars_lt_irrefl(a.0);
    if vars_lt(a.0, b.0) && vars_lt(b.0, c.0) {
        lemma_vars_lt_trans(a.0, b.0, c.0);
    }
    if vars_lt(a.0, b.0) && vars_lt(b.0, a.0) {
        lemma_vars_lt_trans(a.0, b.0, a.0);
    }
    if a.0 != b.0 {
        lemma_vars_lt_total(a.0, b.0);
    }
}

/// Inserting keeps the terms, adds `t`, and keeps a sorted list sorted.
pub proof fn lemma_insert_term(s: Seq<STerm>, t: STerm)
    ensures
        insert_term(s, t).len() == s.len() + 1,
        forall|u: STerm| #[trigger] insert_term(s, t).contains(u) <==> (s.contains(u) || u == t),
        terms_sorted(s) && !s.contains(t) ==> terms_sorted(insert_term(s, t)),
    decreases s.len(),
{
    let r = insert_term(s, t);
    if s.len() == 0 {
        assert(r =~= seq![t]);
        assert forall|u: STerm| r.contains(u) <==> (s.contains(u) || u == t) by {
            if r.contains(u) {
                assert(r[0] == t);
            }
            if u == t {
                assert(r[0] == u);
            }
        }
    } else if term_lt(s.last(), t) {
        assert forall|u: STerm| r.contains(u) <==> (s.contains(u) || u == t) by {
            if r.contains(u) {
                let k = choose|k: int| 0 <= k < r.len() && r[k] == u;
                if k < s.len() {
                    assert(s[k] == u);
                }
            }
            if s.contains(u) {
                let k = choose|k: int| 0 <= k < s.len() && s[k] == u;
                assert(r[k] == u);
            }
            if u == t {
                assert(r[s.len() as int] == u);
            }
        }
        if terms_sorted(s) {
            assert forall|i: int, j: int| 0 <= i < j < r.len() implies term_lt(r[i], r[j]) by {
                if j == s.len() {
                    lemma_term_lt_order(s[i], s.last(), t);
                    if i < s.len() - 1 {
                        assert(term_lt(s[i], s[s.len() - 1]));
                    }
                }
            }
        }
    } else {
        let s2 = s.drop_last();
        let q = insert_term(s2, t);
        lemma_insert_term(s2, t);
        assert(r == q.push(s.last()));
        assert forall|u: STerm| r.contains(u) <==> (s.contains(u) || u == t) by {
            if r.contains(u) {
                let k = choose|k: int| 0 <= k < r.len() && r[k] == u;
                if k < q.len() {
                    assert(q[k] == u);
                    assert(q.contains(u));
                    if s2.contains(u) {
                        let m = choose|m: int| 0 <= m < s2.len() && s2[m] == u;
                        assert(s[m] == u);
                    }
                } else {
                    assert(s[s.len() - 1] == u);
                }
            }
            if s.contains(u) {
                let k = choose|k: int| 0 <= k < s.len() && s[k] == u;
                if k < s2.len() {
                    assert(s2[k] == u);
                    assert(s2.contains(u));
                    assert(insert_term(s2, t).contains(u));
                    let m = choose|m: int| 0 <= m < q.len() && q[m] == u;
                    assert(r[m] == u);
                } else {
                    assert(r[q.len() as int] == u);
                }
            }
            if u == t {
                assert(insert_term(s2, t).contains(u) <==> (s2.contains(u) || u == t));
                assert(q.contains(u));
                let m = choose|m: int| 0 <= m < q.len() && q[m] == u;
                assert(r[m] == u);
            }
        }
        if terms_sorted(s) && !s.contains(t) {
            assert(!s2.contains(t)) by {
                if s2.contains(t) {
                    let m = choose|m: int| 0 <= m < s2.len() && s2[m] == t;
                    assert(s[m] == t);
                }
            }
            assert(terms_sorted(s2));
            assert(s.last() != t) by {
                assert(s[s.len() - 1] == s.last());
            }
            lemma_term_lt_order(s.last(), t, t);
            assert forall|i: int, j: int| 0 <= i < j < r.len() implies term_lt(r[i], r[j]) by {
                if j == q.len() {
                    assert(r[j] == s.last());
                    assert(q.contains(r[i]));
                    assert(r[i] == q[i]);
                    if r[i] != t {
                        assert(s2.contains(r[i]));
                        let m = choose|m: int| 0 <= m < s2.len() && s2[m] == r[i];
                        assert(s[m] == r[i]);
                        assert(term_lt(s[m], s[s.len() - 1]));
                    }
                } else {
                    assert(r[i] == q[i]);
                    assert(r[j] == q[j]);
                }
            }
        }
    }
}

/// Sorting keeps the terms of a list whose terms are distinct, and sorts it.
pub proof fn lemma_sort_terms(x: Seq<STerm>)
    requires
        forall|i: int, j: int| 0 <= i < j < x.len() ==> x[i] != x[j],
    ensures
        sort_terms(x).len() == x.len(),
        forall|u: STerm| #[trigger] sort_terms(x).contains(u) <==> x.contains(u),
        terms_sorted(sort_terms(x)),
    decreases x.len(),
{
    if x.len() > 0 {
        let x2 = x.drop_last();
        lemma_sort_terms(x2);
        lemma_insert_term(sort_terms(x2), x.last());
        assert forall|u: STerm| x.contains(u) <==> (x2.contains(u) || u == x.last()) by {
            if x.contains(u) {
                let k = choose|k: int| 0 <= k < x.len() && x[k] == u;
                if k < x2.len() {
                    assert(x2[k] == u);
                }
            }
            if x2.contains(u) {
                let k = choose|k: int| 0 <= k < x2.len() && x2[k] == u;
                assert(x[k] == u);
            }
            if u == x.last() {
                assert(x[x.len() - 1] == u);
            }
        }
        assert(!x2.contains(x.last())) by {
            if x2.contains(x.last()) {
                let k = choose|k: int| 0 <= k < x2.len() && x2[k] == x.last();
                assert(x[k] == x[x.len() - 1]);
            }
        }
    }
}

/// A sorted list is its own sort.
pub proof fn lemma_sort_sorted(x: Seq<STerm>)
    requires
        terms_sorted(x),
    ensures
        sort_terms(x) == x,
    decreases x.len(),
{
    if x.len() > 0 {
        let x2 = x.drop_last();
        assert(terms_sorted(x2));
        lemma_sort_sorted(x2);
        if x2.len() > 0 {
            assert(term_lt(x[x.len() - 2], x[x.len() - 1]));
            assert(x2.last() == x[x.len() - 2]);
        }
        assert(x2.push(x.last()) =~= x);
    }
}

} // verus!
