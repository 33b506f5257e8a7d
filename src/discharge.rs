//! Discharge: the solver script for a component's obligations, the facts
//! that need no solver, and the session with the solver as a state machine
//! from events to actions. The caller runs the solver.
use vstd::prelude::*;
use vstd::string::StringExecFns;
use crate::collect::{Goal, Obligation, ObligationView, ob_view};
use crate::errors::{Error, ErrorKind};
use crate::fact::{fact_smt, holds_syntactically, fact_bounded};
use crate::interval::{Constraint, OrderOp, Signature};
use crate::time::{TimeExpr, Id, const_sum, smt_text, smt_var, push_smt, push_decimal};

verus! {

pub open spec fn op_text(op: OrderOp) -> Seq<char> {
    match op {
        OrderOp::Gt => seq!['>'],
        OrderOp::Lt => seq!['<'],
        OrderOp::Gte => seq!['>', '='],
        OrderOp::Lte => seq!['<', '='],
        OrderOp::Eq => seq!['='],
    }
}

/// The S-expression that states a constraint.
pub open spec fn constraint_smt(c: Constraint) -> Seq<char> {
    seq!['('] + op_text(c.op) + seq![' '] + smt_text(c.left) + seq![' '] + smt_text(c.right) + seq![')']
}

/// The S-expression that states a goal.
pub open spec fn goal_smt(g: Goal) -> Seq<char> {
    match g {
        Goal::Holds(f) => fact_smt(f),
        Goal::Ordered(c) => constraint_smt(c),
    }
}

/// The command that asks the solver for a counter-example to `g`.
pub open spec fn negated_assert(ob: ObligationView) -> Seq<char> {
    "(assert (not "@ + obligation_smt(ob) + "))"@
}

/// `body` under the premises that the current time `now` equals each of
/// `ps`, outermost first.
pub open spec fn premised(ps: Seq<TimeExpr>, body: Seq<char>) -> Seq<char>
    decreases ps.len(),
{
    if ps.len() == 0 {
        body
    } else {
        "(=> (= now "@ + smt_text(ps[0]) + ") "@ + premised(ps.drop_first(), body) + ")"@
    }
}

/// The S-expression that states an obligation: its goal under its premises.
pub open spec fn obligation_smt(ob: ObligationView) -> Seq<char> {
    premised(ob.2, goal_smt(ob.0))
}

/// The declaration of a time variable, and that it is not negative.
pub open spec fn declare_text(v: Id) -> Seq<char> {
    seq!['(', 'd', 'e', 'c', 'l', 'a', 'r', 'e', '-', 'c', 'o', 'n', 's', 't', ' '] + smt_var(v.key) + seq![
        ' ',
        'I',
        'n',
        't',
        ')',
    ]
}

pub open spec fn nonneg_text(v: Id) -> Seq<char> {
    seq!['(', 'a', 's', 's', 'e', 'r', 't', ' ', '(', '<', '=', ' ', '0', ' '] + smt_var(v.key) + seq![')', ')']
}

pub open spec fn assume_text(c: Constraint) -> Seq<char> {
    seq!['(', 'a', 's', 's', 'e', 'r', 't', ' '] + constraint_smt(c) + seq![')']
}

fn op_str(op: OrderOp) -> (r: &'static str)
    ensures
        r@ == op_text(op),
{
    proof {
        reveal_strlit(">"); reveal_strlit("<"); reveal_strlit(">="); reveal_strlit("<="); reveal_strlit("=");
    }
    match op {
        OrderOp::Gt => ">",
        OrderOp::Lt => "<",
        OrderOp::Gte => ">=",
        OrderOp::Lte => "<=",
        OrderOp::Eq => "=",
    }
}

fn push_constraint(out: &mut String, c: &Constraint)
    ensures
        final(out)@ == old(out)@ + constraint_smt(*c),
{
    proof { reveal_strlit("("); reveal_strlit(" "); reveal_strlit(")"); }
    out.append("(");
    out.append(op_str(c.op));
    out.append(" ");
    push_smt(out, &c.left);
    out.append(" ");
    push_smt(out, &c.right);
    out.append(")");
    assert(out@ =~= old(out)@ + constraint_smt(*c));
}

/// The S-expression that states `g`.
pub fn goal_to_smt(g: &Goal) -> (r: String)
    ensures
        r@ == goal_smt(*g),
{
    match g {
        Goal::Holds(f) => f.to_smt(),
        Goal::Ordered(c) => {
            let mut out = String::new();
            push_constraint(&mut out, c);
            assert(out@ =~= goal_smt(*g));
            out
        },
    }
}

/// `(assert (not g))`: satisfiable exactly when `g` can fail.
fn push_premised(out: &mut String, ps: &Vec<TimeExpr>, i: usize, body: &String)
    requires
        i <= ps.len(),
    ensures
        final(out)@ == old(out)@ + premised(ps@.subrange(i as int, ps.len() as int), body@),
    decreases ps.len() - i,
{
    let ghost rest = ps@.subrange(i as int, ps.len() as int);
    if i == ps.len() {
        out.append(body.as_str());
        assert(out@ =~= old(out)@ + premised(rest, body@));
    } else {
        proof { reveal_strlit("(=> (= now "); reveal_strlit(") "); reveal_strlit(")"); }
        assert(rest.drop_first() =~= ps@.subrange(i + 1 as int, ps.len() as int));
        out.append("(=> (= now ");
        push_smt(out, &ps[i]);
        out.append(") ");
        push_premised(out, ps, i + 1, body);
        out.append(")");
        assert(out@ =~= old(out)@ + premised(rest, body@));
    }
}

/// The S-expression that states `ob`: its goal under its premises.
pub fn obligation_to_smt(ob: &Obligation) -> (r: String)
    ensures
        r@ == obligation_smt(ob_view(*ob)),
{
    let body = goal_to_smt(&ob.goal);
    let mut out = String::new();
    push_premised(&mut out, &ob.premises, 0, &body);
    assert(ob.premises@.subrange(0, ob.premises@.len() as int) =~= ob.premises@);
    assert(out@ =~= obligation_smt(ob_view(*ob)));
    out
}

/// `(assert (not φ))` for the statement φ of `ob`: satisfiable exactly when
/// the obligation can fail.
pub fn negated_goal(ob: &Obligation) -> (r: String)
    ensures
        r@ == negated_assert(ob_view(*ob)),
{
    proof { reveal_strlit("(assert (not "); reveal_strlit("))"); }
    let mut out = String::new();
    out.append("(assert (not ");
    let body = obligation_to_smt(ob);
    out.append(body.as_str());
    out.append("))");
    assert(out@ =~= negated_assert(ob_view(*ob)));
    out
}

/// The commands that open a session for the component `sig`: each abstract
/// variable declared and not negative, each declared constraint assumed, and
/// the current time `now` declared.
pub open spec fn preamble(sig: Signature) -> Seq<Seq<char>> {
    sig.abstract_vars@.map_values(|v: Id| declare_text(v)) + sig.abstract_vars@.map_values(|v: Id| nonneg_text(v))
        + sig.constraints@.map_values(|c: Constraint| assume_text(c)) + seq!["(declare-const now Int)"@]
}

pub fn preamble_commands(sig: &Signature) -> (r: Vec<String>)
    ensures
        r@.map_values(|s: String| s@) == preamble(*sig),
{
    proof {
        reveal_strlit("(declare-const "); reveal_strlit(" Int)"); reveal_strlit("(assert (<= 0 ");
        reveal_strlit("))"); reveal_strlit("(assert "); reveal_strlit(")"); reveal_strlit("t");
    }
    let ghost vs = sig.abstract_vars@;
    let mut r: Vec<String> = Vec::new();
    let mut i: usize = 0;
    while i < sig.abstract_vars.len()
        invariant
            i <= vs.len(),
            vs == sig.abstract_vars@,
            r@.map_values(|s: String| s@) == vs.take(i as int).map_values(|v: Id| declare_text(v)),
        decreases vs.len() - i,
    {
        let mut s = String::new();
        s.append("(declare-const t");
        push_decimal(&mut s, sig.abstract_vars[i].key);
        s.append(" Int)");
        proof { reveal_strlit("(declare-const t"); reveal_strlit(" Int)"); }
        assert(s@ =~= declare_text(vs[i as int]));
        let ghost before = r@;
        r.push(s);
        assert(r@.map_values(|s: String| s@) =~= before.map_values(|s: String| s@).push(declare_text(vs[i as int])));
        assert(vs.take(i + 1 as int) =~= vs.take(i as int).push(vs[i as int]));
        i += 1;
        assert(r@.map_values(|s: String| s@) =~= vs.take(i as int).map_values(|v: Id| declare_text(v)));
    }
    let mut j: usize = 0;
    while j < sig.abstract_vars.len()
        invariant
            j <= vs.len(),
            vs == sig.abstract_vars@,
            r@.map_values(|s: String| s@) == vs.map_values(|v: Id| declare_text(v)) + vs.take(j as int).map_values(|v: Id| nonneg_text(v)),
        decreases vs.len() - j,
    {
        let mut s = String::new();
        s.append("(assert (<= 0 t");
        push_decimal(&mut s, sig.abstract_vars[j].key);
        s.append("))");
        proof { reveal_strlit("(assert (<= 0 t"); reveal_strlit("))"); }
        assert(s@ =~= nonneg_text(vs[j as int]));
        let ghost before = r@;
        r.push(s);
        assert(r@.map_values(|s: String| s@) =~= before.map_values(|s: String| s@).push(nonneg_text(vs[j as int])));
        assert(vs.take(j + 1 as int) =~= vs.take(j as int).push(vs[j as int]));
        j += 1;
        assert(r@.map_values(|s: String| s@) =~= vs.map_values(|v: Id| declare_text(v)) + vs.take(j as int).map_values(|v: Id| nonneg_text(v)));
    }
    let ghost cs = sig.constraints@;
    let mut k: usize = 0;
    while k < sig.constraints.len()
        invariant
            k <= cs.len(),
            vs == sig.abstract_vars@,
            cs == sig.constraints@,
            r@.map_values(|s: String| s@) == vs.map_values(|v: Id| declare_text(v)) + vs.map_values(|v: Id| nonneg_text(v))
                + cs.take(k as int).map_values(|c: Constraint| assume_text(c)),
        decreases cs.len() - k,
    {
        let mut s = String::new();
        s.append("(assert ");
        push_constraint(&mut s, &sig.constraints[k]);
        s.append(")");
        proof { reveal_strlit("(assert "); reveal_strlit(")"); }
        assert(s@ =~= assume_text(cs[k as int]));
        let ghost before = r@;
        r.push(s);
        assert(r@.map_values(|s: String| s@) =~= before.map_values(|s: String| s@).push(assume_text(cs[k as int])));
        assert(cs.take(k + 1 as int) =~= cs.take(k as int).push(cs[k as int]));
        k += 1;
        assert(r@.map_values(|s: String| s@) =~= vs.map_values(|v: Id| declare_text(v)) + vs.map_values(|v: Id| nonneg_text(v))
                + cs.take(k as int).map_values(|c: Constraint| assume_text(c)));
    }
    assert(vs.take(vs.len() as int) =~= vs);
    assert(cs.take(cs.len() as int) =~= cs);
    proof { reveal_strlit("(declare-const now Int)"); }
    let ghost before = r@;
    r.push(String::from_str("(declare-const now Int)"));
    assert(r@.map_values(|s: String| s@) =~= before.map_values(|s: String| s@).push("(declare-const now Int)"@));
    r
}


/// The sum of the constants of `e`, when it fits a machine word.
pub fn constant_sum(e: &TimeExpr) -> (r: Option<u64>)
    ensures
        const_sum(*e) <= u64::MAX ==> r == Some(const_sum(*e) as u64),
        const_sum(*e) > u64::MAX ==> r is None,
    decreases *e,
{
    match e {
        TimeExpr::Concrete(n) => Some(*n),
        TimeExpr::Abstract(_) => Some(0),
        TimeExpr::Add(a, b) | TimeExpr::Max(a, b) => match (constant_sum(a), constant_sum(b)) {
            (Some(x), Some(y)) => x.checked_add(y),
            _ => None,
        },
    }
}

/// Whether the goal holds as its normal forms show, so that the solver need
/// not be asked. Only facts are checked so; a constraint always goes to the
/// solver.
pub open spec fn settled(g: Goal) -> bool {
    match g {
        Goal::Holds(f) => fact_bounded(f) && holds_syntactically(f),
        Goal::Ordered(_) => false,
    }
}

pub fn is_settled(g: &Goal) -> (r: bool)
    ensures
        r == settled(*g),
{
    match g {
        Goal::Holds(f) => {
            if constant_sum(&f.left.start).is_some() && constant_sum(&f.left.end).is_some()
                && constant_sum(&f.right.start).is_some() && constant_sum(&f.right.end).is_some() {
                f.trivially_holds()
            } else {
                false
            }
        },
        Goal::Ordered(_) => false,
    }
}

/// The positions of the obligations that the solver must decide, in order.
pub open spec fn pending(obs: Seq<Obligation>) -> Seq<usize>
    decreases obs.len(),
{
    if obs.len() == 0 {
        Seq::<usize>::empty()
    } else if settled(obs.last().goal) {
        pending(obs.drop_last())
    } else {
        pending(obs.drop_last()).push((obs.len() - 1) as usize)
    }
}

pub fn pending_goals(obs: &Vec<Obligation>) -> (r: Vec<usize>)
    ensures
        r@ == pending(obs@),
{
    let mut r: Vec<usize> = Vec::new();
    let mut i: usize = 0;
    while i < obs.len()
        invariant
            i <= obs.len(),
            r@ == pending(obs@.take(i as int)),
        decreases obs.len() - i,
    {
        assert(obs@.take(i + 1 as int).drop_last() =~= obs@.take(i as int));
        assert(obs@.take(i + 1 as int).last() == obs@[i as int]);
        if !is_settled(&obs[i].goal) {
            r.push(i);
        }
        i += 1;
    }
    assert(obs@.take(obs.len() as int) =~= obs@);
    r
}

/// What the solver said of a negated goal.
#[derive(Clone, Copy, Debug, PartialEq, Eq, Structural)]
pub enum Answer {
    Sat,
    Unsat,
    Unknown,
}

/// Where a session with the solver stands.
#[derive(Clone, Copy, Debug, PartialEq, Eq, Structural)]
pub enum Phase {
    /// Nothing sent yet.
    Idle,
    /// Variables and assumptions declared; waiting for the answer on the
    /// pending goal at this position.
    Waiting(usize),
    /// The session is over.
    Closed,
}

/// What happened since the last step.
#[derive(Clone, Copy, Debug, PartialEq, Eq, Structural)]
pub enum Event {
    /// The solver is running.
    Started,
    /// The solver answered the last check.
    Answered(Answer),
    /// The solver could not be reached or answered nonsense.
    TransportError,
}

/// What the caller does next with the solver.
#[derive(Clone, Copy, Debug, PartialEq, Eq, Structural)]
pub enum Action {
    /// Send the preamble, then check the obligation at this position: push,
    /// assert its negation, check-sat, pop.
    DeclareAndCheck(usize),
    /// Check the obligation at this position.
    Check(usize),
    /// Send `exit`: every goal has been decided.
    Exit,
    /// Stop: the session failed.
    Abort,
}

/// A session with the solver over the pending goals of one component.
pub struct Session {
    pub phase: Phase,
    /// Positions of the obligations that go to the solver, in order.
    pub pending: Vec<usize>,
    /// Positions of the obligations the solver did not prove, in order.
    pub failed: Vec<usize>,
}

/// The phase and action after a goal: the next pending one, or the end.
pub open spec fn next_after(pending: Seq<usize>, k: int) -> (Phase, Action) {
    if k + 1 < pending.len() {
        (Phase::Waiting((k + 1) as usize), Action::Check(pending[k + 1]))
    } else {
        (Phase::Closed, Action::Exit)
    }
}

/// One step of the session: its new phase, the obligations found unproven,
/// and what the caller does next.
pub open spec fn session_step(phase: Phase, pending: Seq<usize>, failed: Seq<usize>, ev: Event) -> (Phase, Seq<usize>, Action) {
    match (phase, ev) {
        (_, Event::TransportError) => (Phase::Closed, failed, Action::Abort),
        (Phase::Idle, Event::Started) => if pending.len() == 0 {
            (Phase::Closed, failed, Action::Exit)
        } else {
            (Phase::Waiting(0), failed, Action::DeclareAndCheck(pending[0]))
        },
        (Phase::Waiting(k), Event::Answered(a)) => if k < pending.len() {
            let f = if a == Answer::Unsat { failed } else { failed.push(pending[k as int]) };
            (next_after(pending, k as int).0, f, next_after(pending, k as int).1)
        } else {
            (Phase::Closed, failed, Action::Abort)
        },
        (Phase::Closed, _) => (Phase::Closed, failed, Action::Exit),
        _ => (Phase::Closed, failed, Action::Abort),
    }
}

impl Session {
    /// A session that will check the obligations at the positions `pending`.
    pub fn new(pending: Vec<usize>) -> (r: Session)
        ensures
            r.phase == Phase::Idle,
            r.pending@ == pending@,
            r.failed@.len() == 0,
    {
        Session { phase: Phase::Idle, pending, failed: Vec::new() }
    }

    /// Takes the event `ev` and says what to do next.
    pub fn step(&mut self, ev: Event) -> (r: Action)
        ensures
            final(self).pending@ == old(self).pending@,
            (final(self).phase, final(self).failed@, r) == session_step(old(self).phase, old(self).pending@, old(self).failed@, ev),
    {
        match (self.phase, ev) {
            (_, Event::TransportError) => {
                self.phase = Phase::Closed;
                Action::Abort
            },
            (Phase::Idle, Event::Started) => {
                if self.pending.len() == 0 {
                    self.phase = Phase::Closed;
                    Action::Exit
                } else {
                    self.phase = Phase::Waiting(0);
                    Action::DeclareAndCheck(self.pending[0])
                }
            },
            (Phase::Waiting(k), Event::Answered(a)) => {
                if k < self.pending.len() {
                    if a != Answer::Unsat {
                        self.failed.push(self.pending[k]);
                    }
                    if k + 1 < self.pending.len() {
                        self.phase = Phase::Waiting(k + 1);
                        Action::Check(self.pending[k + 1])
                    } else {
                        self.phase = Phase::Closed;
                        Action::Exit
                    }
                } else {
                    self.phase = Phase::Closed;
                    Action::Abort
                }
            },
            (Phase::Closed, _) => Action::Exit,
            _ => {
                self.phase = Phase::Closed;
                Action::Abort
            },
        }
    }
}

/// The session after the events `evs`, from `(phase, failed)`.
pub open spec fn session_run(phase: Phase, pending: Seq<usize>, failed: Seq<usize>, evs: Seq<Event>) -> (Phase, Seq<usize>)
    decreases evs.len(),
{
    if evs.len() == 0 {
        (phase, failed)
    } else {
        let (p, f) = session_run(phase, pending, failed, evs.drop_last());
        let s = session_step(p, pending, f, evs.last());
        (s.0, s.1)
    }
}

/// The positions among `pending` whose answers in `answers` are not `unsat`.
pub open spec fn unproven(pending: Seq<usize>, answers: Seq<Answer>) -> Seq<usize>
    decreases answers.len(),
{
    if answers.len() == 0 {
        Seq::<usize>::empty()
    } else {
        let k = answers.len() - 1;
        if answers.last() == Answer::Unsat {
            unproven(pending, answers.drop_last())
        } else {
            unproven(pending, answers.drop_last()).push(pending[k])
        }
    }
}

pub open spec fn answer_events(answers: Seq<Answer>) -> Seq<Event> {
    answers.map_values(|a: Answer| Event::Answered(a))
}

/// For fixed obligations and answers, a session started and answered once
/// per pending goal ends closed, and fails exactly the goals whose answer
/// was not `unsat`, in order: the outcome depends on nothing else.
pub proof fn law_discharge_outcome(pending: Seq<usize>, answers: Seq<Answer>)
    requires
        answers.len() == pending.len(),
        pending.len() <= usize::MAX,
    ensures
        session_run(Phase::Idle, pending, Seq::<usize>::empty(), seq![Event::Started] + answer_events(answers))
            == (Phase::Closed, unproven(pending, answers)),
{
    lemma_run_answers(pending, answers, answers.len() as int);
    assert(answers.take(answers.len() as int) =~= answers);
}

proof fn lemma_run_answers(pending: Seq<usize>, answers: Seq<Answer>, n: int)
    requires
        answers.len() == pending.len(),
        pending.len() <= usize::MAX,
        0 <= n <= answers.len(),
    ensures
        session_run(Phase::Idle, pending, Seq::<usize>::empty(), seq![Event::Started] + answer_events(answers.take(n)))
            == (if n < pending.len() { Phase::Waiting(n as usize) } else { Phase::Closed }, unproven(pending, answers.take(n))),
    decreases n,
{
    let evs = seq![Event::Started] + answer_events(answers.take(n));
    if n == 0 {
        assert(evs =~= seq![Event::Started]);
        assert(evs.drop_last() =~= Seq::<Event>::empty());
        assert(answers.take(0) =~= Seq::<Answer>::empty());
        assert(session_run(Phase::Idle, pending, Seq::<usize>::empty(), evs.drop_last()) == (Phase::Idle, Seq::<usize>::empty()));
        assert(unproven(pending, answers.take(0)) == Seq::<usize>::empty());
    } else {
        lemma_run_answers(pending, answers, n - 1);
        assert(evs.drop_last() =~= seq![Event::Started] + answer_events(answers.take(n - 1)));
        assert(evs.last() == Event::Answered(answers[n - 1]));
        assert(answers.take(n).drop_last() =~= answers.take(n - 1));
        assert(answers.take(n).last() == answers[n - 1]);
        let prev = session_run(Phase::Idle, pending, Seq::<usize>::empty(), evs.drop_last());
        assert(prev.0 == Phase::Waiting((n - 1) as usize));
        assert(session_run(Phase::Idle, pending, Seq::<usize>::empty(), evs) == {
            let s = session_step(prev.0, pending, prev.1, evs.last());
            (s.0, s.1)
        });
    }
}

/// The diagnostic for an obligation the solver did not prove, with the
/// solver's model when one was asked for.
pub fn unproven_error(ob: &Obligation, model: Option<String>) -> (r: Error)
    ensures
        *r.kind matches ErrorKind::Unproven(g, m) && g@ == obligation_smt(ob_view(*ob)) && m == model,
        r.notes@.len() == 1,
        r.notes@[0].0@ == "cannot be proven"@,
        r.notes@[0].1 == ob.span,
{
    let e = Error::unproven(obligation_to_smt(ob), model);
    let span = match &ob.span {
        Some(s) => Some(s.copy()),
        None => None,
    };
    e.add_note(String::from_str("cannot be proven"), span)
}

/// The diagnostics for the obligations at the positions `failed`, in that
/// order, each with the model the solver gave for it.
pub fn unproven_errors(obs: &Vec<Obligation>, failed: &Vec<usize>, models: Vec<Option<String>>) -> (r: Vec<Error>)
    requires
        forall|i: int| 0 <= i < failed.len() ==> failed@[i] < obs.len(),
        models.len() == failed.len(),
    ensures
        r.len() == failed.len(),
        forall|i: int| 0 <= i < r.len() ==> {
            let ob = obs@[failed@[i] as int];
            &&& *(#[trigger] r@[i]).kind matches ErrorKind::Unproven(g, m) && g@ == obligation_smt(ob_view(ob)) && m
                == models@[i]
            &&& r@[i].notes@.len() == 1
            &&& r@[i].notes@[0].0@ == "cannot be proven"@
            &&& r@[i].notes@[0].1 == ob.span
        },
{
    let ghost ms = models@;
    let mut r: Vec<Error> = Vec::new();
    let mut rest = models;
    let mut i: usize = 0;
    while i < failed.len()
        invariant
            i <= failed.len(),
            ms.len() == failed.len(),
            rest@ == ms.subrange(i as int, ms.len() as int),
            forall|k: int| 0 <= k < failed.len() ==> failed@[k] < obs.len(),
            r.len() == i,
            forall|k: int| 0 <= k < i ==> {
                let ob = obs@[failed@[k] as int];
                &&& *(#[trigger] r@[k]).kind matches ErrorKind::Unproven(g, m) && g@ == obligation_smt(ob_view(ob)) && m
                    == ms[k]
                &&& r@[k].notes@.len() == 1
                &&& r@[k].notes@[0].0@ == "cannot be proven"@
                &&& r@[k].notes@[0].1 == ob.span
            },
        decreases failed.len() - i,
    {
        let model = rest.remove(0);
        assert(model == ms[i as int]);
        r.push(unproven_error(&obs[failed[i]], model));
        i += 1;
        assert(rest@ =~= ms.subrange(i as int, ms.len() as int));
    }
    r
}

/// Adds the errors of one component to `diagnostics`: the errors found while
/// collecting, then those of discharge, if it ran. Returns whether discharge
/// failed fatally, after which no further component is checked.
pub fn gather(diagnostics: &mut Vec<Error>, collected: Vec<Error>, discharged: Option<Result<Vec<Error>, Error>>) -> (fatal: bool)
    ensures
        fatal == (discharged matches Some(Err(_))),
        final(diagnostics)@ == old(diagnostics)@ + collected@ + match discharged {
            None => Seq::<Error>::empty(),
            Some(Ok(v)) => v@,
            Some(Err(e)) => seq![e],
        },
{
    let mut collected = collected;
    diagnostics.append(&mut collected);
    match discharged {
        None => false,
        Some(Ok(v)) => {
            let mut v = v;
            diagnostics.append(&mut v);
            false
        },
        Some(Err(e)) => {
            diagnostics.push(e);
            true
        },
    }
}

/// Success when there is nothing to report, else the diagnostics in order.
pub fn outcome(diagnostics: Vec<Error>) -> (r: Result<(), Vec<Error>>)
    ensures
        diagnostics@.len() == 0 ==> r is Ok,
        diagnostics@.len() > 0 ==> (r matches Err(d) && d@ == diagnostics@),
{
    if diagnostics.len() == 0 {
        Ok(())
    } else {
        Err(diagnostics)
    }
}

} // verus!
