use filament::ast::{Command, Component, Connect, Instance, Invoke, Namespace, Port, When};
use filament::collect::{check_component, check_namespace, Goal};
use filament::discharge::{
    gather, goal_to_smt, negated_goal, outcome, pending_goals, preamble_commands, unproven_error, unproven_errors, Action, Answer, Event, Session,
};
use filament::errors::{Error, ErrorKind, Span, WithPos};
use filament::fact::FactType;
use filament::interval::{Constraint, Interval, OrderOp, PortDef, Range, Signature};
use filament::time::{Id, TimeExpr};

const T: u64 = 0;
const IN: u64 = 100;
const OUT: u64 = 101;

fn id(k: u64) -> Id {
    Id { key: k }
}

fn var(k: u64) -> TimeExpr {
    TimeExpr::Abstract(id(k))
}

fn num(n: u64) -> TimeExpr {
    TimeExpr::Concrete(n)
}

fn add(a: TimeExpr, b: TimeExpr) -> TimeExpr {
    TimeExpr::Add(Box::new(a), Box::new(b))
}

fn port(name: u64, s: TimeExpr, e: TimeExpr, w: u64) -> PortDef {
    PortDef { name: id(name), liveness: Interval::new(Range { start: s, end: e }), bitwidth: w }
}

fn sig(name: u64, vars: Vec<u64>, inputs: Vec<PortDef>, outputs: Vec<PortDef>) -> Signature {
    Signature {
        name: id(name),
        abstract_vars: vars.into_iter().map(id).collect(),
        interface_signals: vec![],
        inputs,
        outputs,
        constraints: vec![],
    }
}

fn connect(dst: u64, src: u64) -> Command {
    Command::Connect(Connect::new(Port::ThisPort(id(dst)), Port::ThisPort(id(src)), None))
}

fn one(comp: Component) -> Namespace {
    Namespace { imports: vec![], signatures: vec![], components: vec![comp] }
}

#[test]
fn minimal_component_with_late_output_fails() {
    let s = sig(1, vec![T], vec![port(IN, var(T), add(var(T), num(1)), 1)], vec![port(OUT, add(var(T), num(1)), add(var(T), num(2)), 1)]);
    let ns = one(Component::new(s, vec![connect(OUT, IN)]));
    let r = check_component(&ns, 0);
    assert!(r.errors.is_empty());
    assert_eq!(r.obligations.len(), 1);
    match &r.obligations[0].goal {
        Goal::Holds(f) => {
            assert_eq!(f.tag, FactType::Subset);
            assert_eq!(f.left.start, var(T));
            assert_eq!(f.right.start, add(var(T), num(1)));
        }
        _ => panic!("expected a fact"),
    }
    assert_eq!(pending_goals(&r.obligations), vec![0]);
    let mut session = Session::new(pending_goals(&r.obligations));
    assert_eq!(session.step(Event::Started), Action::DeclareAndCheck(0));
    assert_eq!(session.step(Event::Answered(Answer::Sat)), Action::Exit);
    assert_eq!(session.failed, vec![0]);
}

#[test]
fn minimal_component_passes() {
    let s = sig(1, vec![T], vec![port(IN, var(T), add(var(T), num(1)), 1)], vec![port(OUT, var(T), add(var(T), num(1)), 1)]);
    let ns = one(Component::new(s, vec![connect(OUT, IN)]));
    let r = check_component(&ns, 0);
    assert!(r.errors.is_empty());
    assert_eq!(r.obligations.len(), 1);
    assert!(pending_goals(&r.obligations).is_empty());
    let mut session = Session::new(vec![]);
    assert_eq!(session.step(Event::Started), Action::Exit);
    assert!(session.failed.is_empty());
}

#[test]
fn interface_signal_connect() {
    let g = 11;
    let mut s = sig(1, vec![g], vec![port(IN, var(g), add(var(g), num(1)), 1)], vec![port(OUT, var(g), add(var(g), num(1)), 1)]);
    s.interface_signals.push((id(10), id(g)));
    let ns = one(Component::new(s, vec![connect(OUT, IN), connect(OUT, 10)]));
    let r = check_component(&ns, 0);
    assert!(r.errors.is_empty());
    assert_eq!(r.obligations.len(), 2);
    assert!(pending_goals(&r.obligations).is_empty());
}

#[test]
fn invocation_time_argument() {
    let callee = sig(2, vec![T], vec![port(IN, var(T), add(var(T), num(2)), 1)], vec![]);
    let src = 50;
    let main = sig(3, vec![], vec![port(src, num(5), num(7), 1)], vec![]);
    let body = vec![
        Command::Instance(Instance { name: id(20), component: id(2) }),
        Command::Invoke(Invoke::new(id(21), id(20), vec![num(5)], Some(vec![Port::ThisPort(id(src))]))),
    ];
    let ns = Namespace { imports: vec![], signatures: vec![callee], components: vec![Component::new(main, body)] };
    let r = check_component(&ns, 0);
    assert!(r.errors.is_empty());
    assert_eq!(r.obligations.len(), 1);
    match &r.obligations[0].goal {
        Goal::Holds(f) => {
            assert_eq!(f.left.start, num(5));
            assert_eq!(f.left.end, add(num(5), num(2)));
            assert_eq!(f.right.end, num(7));
        }
        _ => panic!("expected a fact"),
    }
    assert!(pending_goals(&r.obligations).is_empty());
}

#[test]
fn width_mismatch_is_malformed() {
    let s = sig(1, vec![T], vec![port(IN, var(T), add(var(T), num(1)), 32)], vec![port(OUT, var(T), add(var(T), num(1)), 8)]);
    let ns = one(Component::new(s, vec![connect(OUT, IN)]));
    let r = check_component(&ns, 0);
    assert_eq!(r.errors.len(), 1);
    assert!(matches!(*r.errors[0].kind, ErrorKind::Malformed(_)));
    assert!(r.obligations.is_empty());
}

#[test]
fn violated_constraint_carries_model() {
    let mut callee = sig(2, vec![T], vec![], vec![]);
    callee.constraints.push(Constraint { left: var(T), right: num(3), op: OrderOp::Gte });
    let main = sig(3, vec![], vec![], vec![]);
    let body = vec![
        Command::Instance(Instance { name: id(20), component: id(2) }),
        Command::Invoke(Invoke::new(id(21), id(20), vec![num(1)], None)),
    ];
    let ns = Namespace { imports: vec![], signatures: vec![callee], components: vec![Component::new(main, body)] };
    let r = check_component(&ns, 0);
    assert!(r.errors.is_empty());
    assert_eq!(r.obligations.len(), 1);
    assert_eq!(goal_to_smt(&r.obligations[0].goal), "(>= 1 3)");
    assert_eq!(negated_goal(&r.obligations[0]), "(assert (not (>= 1 3)))");
    assert_eq!(pending_goals(&r.obligations), vec![0]);
    let e = unproven_error(&r.obligations[0], Some("T = 1".to_string()));
    match &*e.kind {
        ErrorKind::Unproven(g, m) => {
            assert_eq!(g, "(>= 1 3)");
            assert_eq!(m.as_deref(), Some("T = 1"));
        }
        _ => panic!("expected an unproven goal"),
    }
    assert_eq!(e.notes.len(), 1);
    assert_eq!(e.notes[0].0, "cannot be proven");
    let all = unproven_errors(&r.obligations, &vec![0], vec![None]);
    assert_eq!(all.len(), 1);
    assert!(matches!(&*all[0].kind, ErrorKind::Unproven(g, None) if g == "(>= 1 3)"));
}

#[test]
fn facts_in_when_blocks_carry_premises() {
    let g = 11;
    let s = sig(1, vec![g], vec![port(IN, var(g), add(var(g), num(1)), 1)], vec![port(OUT, var(g), add(var(g), num(1)), 1)]);
    let body = vec![
        Command::When(When { time: var(g), commands: vec![connect(OUT, IN), Command::When(When { time: num(4), commands: vec![connect(OUT, IN)] })] }),
        connect(OUT, IN),
    ];
    let ns = one(Component::new(s, body));
    let r = check_component(&ns, 0);
    assert!(r.errors.is_empty());
    assert_eq!(r.obligations.len(), 3);
    assert_eq!(r.obligations[0].premises, vec![var(g)]);
    assert_eq!(r.obligations[1].premises, vec![var(g), num(4)]);
    assert!(r.obligations[2].premises.is_empty());
    assert_eq!(
        negated_goal(&r.obligations[1]),
        "(assert (not (=> (= now t11) (=> (= now 4) (and (<= t11 t11) (>= (+ t11 1) (+ t11 1)))))))"
    );
}

#[test]
fn messages_of_collected_errors() {
    let s = sig(1, vec![T], vec![port(IN, var(T), add(var(T), num(1)), 32)], vec![port(OUT, var(T), add(var(T), num(1)), 8)]);
    let body = vec![connect(OUT, IN), connect(OUT, 77)];
    let r = check_component(&one(Component::new(s, body)), 0);
    assert!(matches!(&*r.errors[0].kind, ErrorKind::Malformed(m) if m == "width of source and destination differ"));
    assert!(matches!(&*r.errors[1].kind, ErrorKind::Undefined(n, k) if *n == id(77) && k == "port"));
}

#[test]
fn spans_are_kept() {
    let sp = Span::new(3, 9, "a.fil".to_string(), "text".to_string());
    let inv = Invoke::new(id(1), id(2), vec![], None).with_span(Some(sp.copy()));
    assert_eq!(inv.span.as_ref().map(|s| (s.start, s.end)), Some((3, 9)));
    assert_eq!(inv.bind, id(1));
    let con = Connect::new(Port::Constant(1), Port::ThisPort(id(4)), None).set_span(Some(sp));
    assert_eq!(con.copy_span().map(|s| s.file), Some("a.fil".to_string()));
    assert_eq!(con.src, Port::ThisPort(id(4)));
}

#[test]
fn three_failing_connects_are_reported_in_order() {
    let o1 = 201;
    let o2 = 202;
    let o3 = 203;
    let late = |n: u64| port(n, add(var(T), num(3)), add(var(T), num(4)), 1);
    let s = sig(1, vec![T], vec![port(IN, var(T), add(var(T), num(1)), 1)], vec![late(o1), late(o2), late(o3)]);
    let ns = one(Component::new(s, vec![connect(o1, IN), connect(o2, IN), connect(o3, IN)]));
    let r = check_component(&ns, 0);
    assert!(r.errors.is_empty());
    let pending = pending_goals(&r.obligations);
    assert_eq!(pending, vec![0, 1, 2]);
    let mut session = Session::new(pending);
    assert_eq!(session.step(Event::Started), Action::DeclareAndCheck(0));
    assert_eq!(session.step(Event::Answered(Answer::Sat)), Action::Check(1));
    assert_eq!(session.step(Event::Answered(Answer::Sat)), Action::Check(2));
    assert_eq!(session.step(Event::Answered(Answer::Unknown)), Action::Exit);
    assert_eq!(session.failed, vec![0, 1, 2]);
}

#[test]
fn transport_error_aborts() {
    let mut session = Session::new(vec![0, 1]);
    assert_eq!(session.step(Event::Started), Action::DeclareAndCheck(0));
    assert_eq!(session.step(Event::TransportError), Action::Abort);
    assert_eq!(session.step(Event::Answered(Answer::Unsat)), Action::Exit);
}

#[test]
fn same_answers_same_outcome() {
    let run = || {
        let mut session = Session::new(vec![0, 2, 3]);
        session.step(Event::Started);
        session.step(Event::Answered(Answer::Unsat));
        session.step(Event::Answered(Answer::Sat));
        session.step(Event::Answered(Answer::Unsat));
        session.failed
    };
    assert_eq!(run(), vec![2]);
    assert_eq!(run(), run());
}

#[test]
fn undefined_and_duplicate_names() {
    let s = sig(1, vec![], vec![], vec![]);
    let body = vec![
        Command::Instance(Instance { name: id(20), component: id(99) }),
        Command::Invoke(Invoke::new(id(21), id(20), vec![], None)),
        connect(OUT, IN),
    ];
    let ns = one(Component::new(s, body));
    let r = check_component(&ns, 0);
    assert_eq!(r.errors.len(), 3);
    assert!(matches!(*r.errors[0].kind, ErrorKind::Undefined(n, _) if n == id(99)));
    assert!(matches!(*r.errors[1].kind, ErrorKind::Undefined(n, _) if n == id(20)));
    assert!(matches!(*r.errors[2].kind, ErrorKind::Undefined(n, _) if n == id(OUT)));
}

#[test]
fn missing_time_argument_is_malformed() {
    let callee = sig(2, vec![T, 1], vec![], vec![]);
    let main = sig(3, vec![], vec![], vec![]);
    let body = vec![
        Command::Instance(Instance { name: id(20), component: id(2) }),
        Command::Instance(Instance { name: id(20), component: id(2) }),
        Command::Invoke(Invoke::new(id(21), id(20), vec![num(1)], None)),
    ];
    let ns = Namespace { imports: vec![], signatures: vec![callee], components: vec![Component::new(main, body)] };
    let r = check_component(&ns, 0);
    assert_eq!(r.errors.len(), 2);
    assert!(matches!(*r.errors[0].kind, ErrorKind::AlreadyBound(n, _) if n == id(20)));
    assert!(matches!(&*r.errors[1].kind, ErrorKind::Malformed(m) if m == "missing time argument"));
}

#[test]
fn later_component_leaves_earlier_results() {
    let s = sig(1, vec![T], vec![port(IN, var(T), add(var(T), num(1)), 1)], vec![port(OUT, var(T), add(var(T), num(1)), 1)]);
    let before = check_namespace(&one(Component::new(s, vec![connect(OUT, IN)])));
    let s1 = sig(1, vec![T], vec![port(IN, var(T), add(var(T), num(1)), 1)], vec![port(OUT, var(T), add(var(T), num(1)), 1)]);
    let s2 = sig(5, vec![], vec![], vec![]);
    let ns = Namespace {
        imports: vec![],
        signatures: vec![],
        components: vec![
            Component::new(s1, vec![connect(OUT, IN)]),
            Component::new(s2, vec![Command::Instance(Instance { name: id(20), component: id(1) })]),
        ],
    };
    let after = check_namespace(&ns);
    assert_eq!(after.len(), 2);
    assert_eq!(before[0].obligations.len(), after[0].obligations.len());
    assert!(after[1].errors.is_empty());
}

#[test]
fn preamble_text() {
    let mut s = sig(1, vec![3], vec![], vec![]);
    s.constraints.push(Constraint { left: var(3), right: num(2), op: OrderOp::Gt });
    let cmds = preamble_commands(&s);
    assert_eq!(cmds, vec!["(declare-const t3 Int)", "(assert (<= 0 t3))", "(assert (> t3 2))", "(declare-const now Int)"]);
}

#[test]
fn gathering_keeps_order_and_stops_on_fatal() {
    let mut diags = vec![];
    let fatal = gather(&mut diags, vec![Error::malformed("a".to_string())], Some(Ok(vec![Error::misc("b".to_string())])));
    assert!(!fatal);
    assert!(gather(&mut diags, vec![], Some(Err(Error::misc("c".to_string())))));
    assert!(!gather(&mut diags, vec![], None));
    assert_eq!(diags.len(), 3);
    assert!(matches!(&*diags[0].kind, ErrorKind::Malformed(m) if m == "a"));
    assert!(matches!(&*diags[2].kind, ErrorKind::Misc(m) if m == "c"));
    assert!(outcome(vec![]).is_ok());
    assert_eq!(outcome(diags).err().unwrap().len(), 3);
}
