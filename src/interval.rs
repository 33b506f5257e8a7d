//! Intervals of validity over symbolic time, and the declarations that carry
//! them: ports, constraints and signatures.
use vstd::prelude::*;
use crate::errors::Error;
use crate::time::{
    TimeExpr, Id, Assignment, const_sum, is_closed, subst, syntactic_le, eval, time_le, substitute,
    lemma_subst_closed,
};

verus! {

/// The half-open range `[start, end)`.
#[derive(Debug, PartialEq, Eq)]
pub struct Range {
    pub start: TimeExpr,
    pub end: TimeExpr,
}

/// The range `[start, end)` in which a signal is valid, with an optional
/// exact sub-range in which it is available.
#[derive(Debug, PartialEq, Eq)]
pub struct Interval {
    pub start: TimeExpr,
    pub end: TimeExpr,
    pub exact: Option<Range>,
}

/// Every constant sum of `e` fits a machine word.
pub open spec fn bounded(e: TimeExpr) -> bool {
    const_sum(e) <= u64::MAX
}

pub open spec fn range_bounded(r: Range) -> bool {
    bounded(r.start) && bounded(r.end)
}

/// Every endpoint of `iv` has bounded constants.
pub open spec fn interval_bounded(iv: Interval) -> bool {
    &&& bounded(iv.start)
    &&& bounded(iv.end)
    &&& (iv.exact matches Some(r) ==> range_bounded(r))
}

pub open spec fn shift_range(r: Range, d: TimeExpr) -> Range {
    Range {
        start: TimeExpr::Add(Box::new(r.start), Box::new(d)),
        end: TimeExpr::Add(Box::new(r.end), Box::new(d)),
    }
}

/// `iv` with `d` added to each endpoint.
pub open spec fn shifted(iv: Interval, d: TimeExpr) -> Interval {
    Interval {
        start: TimeExpr::Add(Box::new(iv.start), Box::new(d)),
        end: TimeExpr::Add(Box::new(iv.end), Box::new(d)),
        exact: match iv.exact {
            Some(r) => Some(shift_range(r, d)),
            None => None,
        },
    }
}

pub open spec fn subst_range(r: Range, bs: Seq<(Id, TimeExpr)>) -> Range {
    Range { start: subst(r.start, bs), end: subst(r.end, bs) }
}

/// `iv` with the bindings `bs` substituted in each endpoint.
pub open spec fn substituted(iv: Interval, bs: Seq<(Id, TimeExpr)>) -> Interval {
    Interval {
        start: subst(iv.start, bs),
        end: subst(iv.end, bs),
        exact: match iv.exact {
            Some(r) => Some(subst_range(r, bs)),
            None => None,
        },
    }
}

/// The region where `iv` is exactly available: its exact range, or else all of it.
pub open spec fn exact_region(iv: Interval) -> (TimeExpr, TimeExpr) {
    match iv.exact {
        Some(r) => (r.start, r.end),
        None => (iv.start, iv.end),
    }
}

impl Range {
    pub fn copy(&self) -> (r: Range)
        ensures
            r == *self,
    {
        Range { start: self.start.deep_copy(), end: self.end.deep_copy() }
    }

    fn shift(&self, d: &TimeExpr) -> (r: Range)
        ensures
            r == shift_range(*self, *d),
    {
        Range {
            start: TimeExpr::Add(Box::new(self.start.deep_copy()), Box::new(d.deep_copy())),
            end: TimeExpr::Add(Box::new(self.end.deep_copy()), Box::new(d.deep_copy())),
        }
    }

    fn substitute(&self, bs: &Vec<(Id, TimeExpr)>) -> (r: Range)
        ensures
            r == subst_range(*self, bs@),
    {
        Range { start: substitute(&self.start, bs), end: substitute(&self.end, bs) }
    }
}

impl Interval {
    /// The interval `[range.start, range.end)` with no exact sub-range.
    pub fn new(range: Range) -> (r: Interval)
        ensures
            r == (Interval { start: range.start, end: range.end, exact: None }),
    {
        Interval { start: range.start, end: range.end, exact: None }
    }

    pub fn copy(&self) -> (r: Interval)
        ensures
            r == *self,
    {
        let exact = match &self.exact {
            Some(e) => Some(e.copy()),
            None => None,
        };
        Interval { start: self.start.deep_copy(), end: self.end.deep_copy(), exact }
    }

    /// This interval with the exact sub-range `exact`. The sub-range must lie
    /// within the interval syntactically: its start at or after the start and
    /// its end at or before the end, as the normal forms show. Otherwise the
    /// interval is malformed.
    pub fn with_exact(self, exact: Range) -> (r: Result<Interval, Error>)
        requires
            bounded(self.start),
            bounded(self.end),
            range_bounded(exact),
        ensures
            (syntactic_le(self.start, exact.start) && syntactic_le(exact.end, self.end)) ==> r == Ok::<
                Interval,
                Error,
            >(Interval { start: self.start, end: self.end, exact: Some(exact) }),
            !(syntactic_le(self.start, exact.start) && syntactic_le(exact.end, self.end)) ==> (r matches Err(
                e,
            ) && *e.kind is Malformed),
            r matches Ok(iv) ==> forall|env: Assignment|
                #![trigger eval(iv.exact->Some_0.start, env)]
                eval(iv.start, env) <= eval(iv.exact->Some_0.start, env) && eval(iv.exact->Some_0.end, env)
                    <= eval(iv.end, env),
    {
        if time_le(&self.start, &exact.start) && time_le(&exact.end, &self.end) {
            Ok(Interval { start: self.start, end: self.end, exact: Some(exact) })
        } else {
            Err(Error::malformed("exact range is not within the interval".to_string()))
        }
    }

    /// This interval with `d` added to each endpoint.
    pub fn shift(&self, d: &TimeExpr) -> (r: Interval)
        ensures
            r == shifted(*self, *d),
    {
        let exact = match &self.exact {
            Some(e) => Some(e.shift(d)),
            None => None,
        };
        Interval {
            start: TimeExpr::Add(Box::new(self.start.deep_copy()), Box::new(d.deep_copy())),
            end: TimeExpr::Add(Box::new(self.end.deep_copy()), Box::new(d.deep_copy())),
            exact,
        }
    }

    /// This interval with each abstract variable bound in `bs` replaced.
    pub fn substitute(&self, bs: &Vec<(Id, TimeExpr)>) -> (r: Interval)
        ensures
            r == substituted(*self, bs@),
    {
        let exact = match &self.exact {
            Some(e) => Some(e.substitute(bs)),
            None => None,
        };
        Interval { start: substitute(&self.start, bs), end: substitute(&self.end, bs), exact }
    }
}

/// Shifting by a closed time and then substituting gives what substituting
/// and then shifting gives.
pub proof fn law_shift_substitute_commute(iv: Interval, d: TimeExpr, bs: Seq<(Id, TimeExpr)>)
    requires
        is_closed(d),
    ensures
        substituted(shifted(iv, d), bs) == shifted(substituted(iv, bs), d),
{
    lemma_subst_closed(d, bs);
}

/// A port: its name, the interval in which it is valid and its width.
#[derive(Debug)]
pub struct PortDef {
    pub name: Id,
    pub liveness: Interval,
    pub bitwidth: u64,
}

impl PortDef {
    /// A port of width `bitwidth`, which must be positive.
    pub fn new(name: Id, liveness: Interval, bitwidth: u64) -> (r: Result<PortDef, Error>)
        ensures
            bitwidth > 0 ==> r == Ok::<PortDef, Error>(PortDef { name, liveness, bitwidth }),
            bitwidth == 0 ==> (r matches Err(e) && *e.kind is Malformed),
    {
        if bitwidth == 0 {
            Err(Error::malformed("port width must be positive".to_string()))
        } else {
            Ok(PortDef { name, liveness, bitwidth })
        }
    }

    pub fn copy(&self) -> (r: PortDef)
        ensures
            r == *self,
    {
        PortDef { name: self.name, liveness: self.liveness.copy(), bitwidth: self.bitwidth }
    }
}

/// The order a constraint asks for.
#[derive(Clone, Copy, Debug, PartialEq, Eq, Structural)]
pub enum OrderOp {
    Gt,
    Lt,
    Gte,
    Lte,
    Eq,
}

/// `left op right` between two times.
#[derive(Debug)]
pub struct Constraint {
    pub left: TimeExpr,
    pub right: TimeExpr,
    pub op: OrderOp,
}

/// Whether the constraint holds under `env`.
pub open spec fn constraint_holds(c: Constraint, env: Assignment) -> bool {
    let l = eval(c.left, env);
    let r = eval(c.right, env);
    match c.op {
        OrderOp::Gt => l > r,
        OrderOp::Lt => l < r,
        OrderOp::Gte => l >= r,
        OrderOp::Lte => l <= r,
        OrderOp::Eq => l == r,
    }
}

pub open spec fn subst_constraint(c: Constraint, bs: Seq<(Id, TimeExpr)>) -> Constraint {
    Constraint { left: subst(c.left, bs), right: subst(c.right, bs), op: c.op }
}

impl Constraint {
    pub fn copy(&self) -> (r: Constraint)
        ensures
            r == *self,
    {
        Constraint { left: self.left.deep_copy(), right: self.right.deep_copy(), op: self.op }
    }

    /// This constraint with the bindings `bs` substituted.
    pub fn substitute(&self, bs: &Vec<(Id, TimeExpr)>) -> (r: Constraint)
        ensures
            r == subst_constraint(*self, bs@),
    {
        Constraint { left: substitute(&self.left, bs), right: substitute(&self.right, bs), op: self.op }
    }
}

/// The timing interface of a component.
#[derive(Debug)]
pub struct Signature {
    pub name: Id,
    pub abstract_vars: Vec<Id>,
    /// One-bit signals, each `(name, time variable)`: valid in `[t, t+1)`.
    pub interface_signals: Vec<(Id, Id)>,
    pub inputs: Vec<PortDef>,
    pub outputs: Vec<PortDef>,
    pub constraints: Vec<Constraint>,
}

} // verus!
