//! Fact collection: walking a component's body in order and emitting the
//! obligations that make it temporally well-formed, with the errors found
//! on the way.
use vstd::prelude::*;
use vstd::string::StringExecFns;
use crate::ast::{Command, Component, Connect, Instance, Invoke, Namespace, Port, guard_ports};
use crate::errors::{Error, ErrorKind, Span};
use crate::fact::{Fact, FactType};
use crate::interval::{Constraint, Interval, PortDef, Signature, substituted, subst_constraint};
use crate::time::{Id, TimeExpr};

verus! {

/// What must be shown for a component to be well-formed.
#[derive(Debug)]
pub enum Goal {
    /// A fact between intervals.
    Holds(Fact),
    /// A constraint of an invoked component, with its time arguments put in.
    Ordered(Constraint),
}

/// A goal and the place in the program that demands it.
#[derive(Debug)]
pub struct Obligation {
    pub goal: Goal,
    pub span: Option<Span>,
    /// The times of the enclosing when-blocks, outermost first: the goal
    /// is asked for only where the current time equals each of them.
    pub premises: Vec<TimeExpr>,
}

pub type ObligationView = (Goal, Option<Span>, Seq<TimeExpr>);

pub open spec fn ob_view(o: Obligation) -> ObligationView {
    (o.goal, o.span, o.premises@)
}

/// What an error without notes says.
pub ghost enum Issue {
    /// An undefined name, and what kind of name it is.
    Undefined(Id, Seq<char>),
    /// A name bound twice, and what bound it.
    AlreadyBound(Id, Seq<char>),
    /// A malformed program, and the message.
    Malformed(Seq<char>),
    /// Any other error, or one with notes.
    Other,
}

pub open spec fn describe(e: Error) -> Issue {
    if e.notes@.len() != 0 {
        Issue::Other
    } else {
        match *e.kind {
            ErrorKind::Undefined(n, k) => Issue::Undefined(n, k@),
            ErrorKind::AlreadyBound(n, k) => Issue::AlreadyBound(n, k@),
            ErrorKind::Malformed(m) => Issue::Malformed(m@),
            _ => Issue::Other,
        }
    }
}

/// The position of the first element of `s` that satisfies `p`, or -1.
pub open spec fn first_where<T>(s: Seq<T>, p: spec_fn(T) -> bool) -> int
    decreases s.len(),
{
    if s.len() == 0 {
        -1
    } else if p(s[0]) {
        0
    } else {
        let k = first_where(s.drop_first(), p);
        if k < 0 { -1 } else { k + 1 }
    }
}

pub proof fn lemma_first_where<T>(s: Seq<T>, p: spec_fn(T) -> bool, i: int)
    requires
        0 <= i <= s.len(),
        forall|k: int| 0 <= k < i ==> !p(#[trigger] s[k]),
    ensures
        i < s.len() && p(s[i]) ==> first_where(s, p) == i,
        i == s.len() ==> first_where(s, p) == -1,
    decreases i,
{
    if i > 0 {
        let t = s.drop_first();
        assert forall|k: int| 0 <= k < i - 1 implies !p(#[trigger] t[k]) by {
            assert(t[k] == s[k + 1]);
        }
        lemma_first_where(t, p, i - 1);
        if i < s.len() {
            assert(t[i - 1] == s[i]);
        }
    }
}

pub open spec fn instance_is(n: Id) -> spec_fn(Instance) -> bool {
    |x: Instance| x.name == n
}

pub open spec fn sig_is(n: Id) -> spec_fn(Signature) -> bool {
    |x: Signature| x.name == n
}

pub open spec fn port_is(n: Id) -> spec_fn(PortDef) -> bool {
    |x: PortDef| x.name == n
}

pub open spec fn signal_is(n: Id) -> spec_fn((Id, Id)) -> bool {
    |x: (Id, Id)| x.0 == n
}

pub open spec fn binding_is(n: Id) -> spec_fn(BindingView) -> bool {
    |x: BindingView| x.0 == n
}

pub open spec fn opt_index(r: Option<usize>) -> int {
    match r {
        Some(k) => k as int,
        None => -1,
    }
}

/// An invocation's ports with its time arguments put in.
pub struct Binding {
    pub name: Id,
    pub inputs: Vec<PortDef>,
    pub outputs: Vec<PortDef>,
}

pub type BindingView = (Id, Seq<PortDef>, Seq<PortDef>);

pub open spec fn binding_view(b: Binding) -> BindingView {
    (b.name, b.inputs@, b.outputs@)
}

/// The state of a walk: instances, invocations, obligations and issues so
/// far, and the times of the when-blocks around the current command.
pub type WalkState = (Seq<Instance>, Seq<BindingView>, Seq<ObligationView>, Seq<Issue>, Seq<TimeExpr>);

/// Where a port is valid, if it is known.
#[derive(Debug)]
pub enum Lookup {
    Found(Interval, u64),
    Const,
    Missing(Id),
}

/// The signatures that a component at position `upto` may use: the external
/// ones and the components before it.
pub open spec fn visible(sigs: Seq<Signature>, comps: Seq<Component>, upto: int) -> Seq<Signature> {
    sigs + comps.take(upto).map_values(|c: Component| c.sig)
}

/// `[t, t+1)`: where an interface signal at time `t` is valid.
pub open spec fn signal_interval(t: Id) -> Interval {
    Interval {
        start: TimeExpr::Abstract(t),
        end: TimeExpr::Add(Box::new(TimeExpr::Abstract(t)), Box::new(TimeExpr::Concrete(1))),
        exact: None,
    }
}

pub open spec fn port_named(ps: Seq<PortDef>, n: Id) -> int {
    first_where(ps, port_is(n))
}

pub open spec fn this_port(sig: Signature, n: Id) -> Lookup {
    let i = port_named(sig.inputs@, n);
    let o = port_named(sig.outputs@, n);
    let s = first_where(sig.interface_signals@, signal_is(n));
    if i >= 0 {
        Lookup::Found(sig.inputs@[i].liveness, sig.inputs@[i].bitwidth)
    } else if o >= 0 {
        Lookup::Found(sig.outputs@[o].liveness, sig.outputs@[o].bitwidth)
    } else if s >= 0 {
        Lookup::Found(signal_interval(sig.interface_signals@[s].1), 1)
    } else {
        Lookup::Missing(n)
    }
}

pub open spec fn bind_named(binds: Seq<BindingView>, n: Id) -> int {
    first_where(binds, binding_is(n))
}

pub open spec fn comp_port(binds: Seq<BindingView>, comp: Id, n: Id) -> Lookup {
    let b = bind_named(binds, comp);
    if b < 0 {
        Lookup::Missing(comp)
    } else {
        let o = port_named(binds[b].2, n);
        let i = port_named(binds[b].1, n);
        if o >= 0 {
            Lookup::Found(binds[b].2[o].liveness, binds[b].2[o].bitwidth)
        } else if i >= 0 {
            Lookup::Found(binds[b].1[i].liveness, binds[b].1[i].bitwidth)
        } else {
            Lookup::Missing(n)
        }
    }
}

/// Where the port `p` is valid, and its width.
pub open spec fn lookup_port(sig: Signature, binds: Seq<BindingView>, p: Port) -> Lookup {
    match p {
        Port::Constant(_) => Lookup::Const,
        Port::ThisPort(n) => this_port(sig, n),
        Port::CompPort { comp, name } => comp_port(binds, comp, name),
    }
}

/// `iv` without its exact sub-range.
pub open spec fn outer(iv: Interval) -> Interval {
    Interval { start: iv.start, end: iv.end, exact: None }
}

/// The exact sub-range of `iv` as an interval, or all of `iv`.
pub open spec fn region(iv: Interval) -> Interval {
    match iv.exact {
        Some(r) => Interval { start: r.start, end: r.end, exact: None },
        None => outer(iv),
    }
}

pub open spec fn with_fact(st: WalkState, f: Fact, span: Option<Span>) -> WalkState {
    (st.0, st.1, st.2.push((Goal::Holds(f), span, st.4)), st.3, st.4)
}

pub open spec fn with_issue(st: WalkState, i: Issue) -> WalkState {
    (st.0, st.1, st.2, st.3.push(i), st.4)
}

/// The facts for the guard ports `gs` of a connection into `dst`.
pub open spec fn guard_facts(st: WalkState, sig: Signature, gs: Seq<Port>, dst: Interval, span: Option<Span>) -> WalkState
    decreases gs.len(),
{
    if gs.len() == 0 {
        st
    } else {
        let st1 = guard_facts(st, sig, gs.drop_last(), dst, span);
        match lookup_port(sig, st.1, gs.last()) {
            Lookup::Missing(n) => with_issue(st1, Issue::Undefined(n, "port"@)),
            Lookup::Const => st1,
            Lookup::Found(g, _) => with_fact(st1, Fact { tag: FactType::Subset, left: outer(g), right: outer(dst) }, span),
        }
    }
}

/// A connection: the source must be valid where the destination is, with
/// the same width; an exact destination asks for equal exact regions.
pub open spec fn step_connect(st: WalkState, sig: Signature, c: Connect) -> WalkState {
    match lookup_port(sig, st.1, c.dst) {
        Lookup::Missing(n) => with_issue(st, Issue::Undefined(n, "port"@)),
        Lookup::Const => with_issue(st, Issue::Malformed("cannot connect into a constant"@)),
        Lookup::Found(d, wd) => match lookup_port(sig, st.1, c.src) {
            Lookup::Missing(n) => with_issue(st, Issue::Undefined(n, "port"@)),
            Lookup::Const => st,
            Lookup::Found(s, ws) => if ws != wd {
                with_issue(st, Issue::Malformed("width of source and destination differ"@))
            } else {
                let st1 = if d.exact is Some {
                    with_fact(st, Fact { tag: FactType::Equality, left: region(s), right: region(d) }, c.span)
                } else {
                    st
                };
                let st2 = with_fact(st1, Fact { tag: FactType::Subset, left: outer(s), right: outer(d) }, c.span);
                match c.guard {
                    Some(g) => guard_facts(st2, sig, guard_ports(g), d, c.span),
                    None => st2,
                }
            },
        },
    }
}

/// An instance of a visible component under a fresh name.
pub open spec fn step_instance(st: WalkState, vis: Seq<Signature>, inst: Instance) -> WalkState {
    if first_where(st.0, instance_is(inst.name)) >= 0 {
        with_issue(st, Issue::AlreadyBound(inst.name, "instance"@))
    } else if first_where(vis, sig_is(inst.component)) < 0 {
        with_issue(st, Issue::Undefined(inst.component, "component"@))
    } else {
        (st.0.push(inst), st.1, st.2, st.3, st.4)
    }
}

/// The abstract variables `vars` bound to the leading time arguments.
pub open spec fn bindings(vars: Seq<Id>, args: Seq<TimeExpr>) -> Seq<(Id, TimeExpr)> {
    vars.map(|i: int, v: Id| (v, args[i]))
}

pub open spec fn subst_ports(ps: Seq<PortDef>, bs: Seq<(Id, TimeExpr)>) -> Seq<PortDef> {
    ps.map_values(|p: PortDef| PortDef { name: p.name, liveness: substituted(p.liveness, bs), bitwidth: p.bitwidth })
}

pub open spec fn constraint_goals(cs: Seq<Constraint>, bs: Seq<(Id, TimeExpr)>, span: Option<Span>, ps: Seq<TimeExpr>) -> Seq<ObligationView> {
    cs.map_values(|c: Constraint| (Goal::Ordered(subst_constraint(c, bs)), span, ps))
}

/// The facts for the first `n` arguments of an invocation: each argument
/// must be valid wherever the input it feeds asks for it.
pub open spec fn arg_facts(st: WalkState, sig: Signature, ins: Seq<PortDef>, args: Seq<Port>, span: Option<Span>, n: int) -> WalkState
    decreases n,
{
    if n <= 0 {
        st
    } else {
        let st1 = arg_facts(st, sig, ins, args, span, n - 1);
        match lookup_port(sig, st.1, args[n - 1]) {
            Lookup::Missing(m) => with_issue(st1, Issue::Undefined(m, "port"@)),
            Lookup::Const => st1,
            Lookup::Found(a, w) => if w != ins[n - 1].bitwidth {
                with_issue(st1, Issue::Malformed("width of argument and input differ"@))
            } else {
                with_fact(st1, Fact { tag: FactType::Subset, left: ins[n - 1].liveness, right: a }, span)
            },
        }
    }
}

/// An invocation of an instance at the given times.
pub open spec fn step_invoke(st: WalkState, vis: Seq<Signature>, sig: Signature, inv: Invoke) -> WalkState {
    let k = first_where(st.0, instance_is(inv.comp));
    if k < 0 {
        with_issue(st, Issue::Undefined(inv.comp, "instance"@))
    } else {
        let si = first_where(vis, sig_is(st.0[k].component));
        if si < 0 {
            with_issue(st, Issue::Undefined(st.0[k].component, "component"@))
        } else {
            let callee = vis[si];
            if inv.abstract_vars@.len() < callee.abstract_vars@.len() {
                with_issue(st, Issue::Malformed("missing time argument"@))
            } else if bind_named(st.1, inv.bind) >= 0 {
                with_issue(st, Issue::AlreadyBound(inv.bind, "invocation"@))
            } else {
                let bs = bindings(callee.abstract_vars@, inv.abstract_vars@);
                let ins = subst_ports(callee.inputs@, bs);
                let outs = subst_ports(callee.outputs@, bs);
                let st1 = (st.0, st.1, st.2 + constraint_goals(callee.constraints@, bs, inv.span, st.4), st.3, st.4);
                let st2 = match inv.ports {
                    None => st1,
                    Some(args) => if args@.len() != ins.len() {
                        with_issue(st1, Issue::Malformed("wrong number of arguments"@))
                    } else {
                        arg_facts(st1, sig, ins, args@, inv.span, args@.len() as int)
                    },
                };
                (st2.0, st2.1.push((inv.bind, ins, outs)), st2.2, st2.3, st2.4)
            }
        }
    }
}


/// One command of the body of a component with signature `sig`.
pub open spec fn step(st: WalkState, vis: Seq<Signature>, sig: Signature, c: Command) -> WalkState
    decreases c,
{
    match c {
        Command::Invoke(inv) => step_invoke(st, vis, sig, inv),
        Command::Instance(inst) => step_instance(st, vis, inst),
        Command::Connect(con) => step_connect(st, sig, con),
        Command::When(w) => {
            let inner = walk((st.0, st.1, st.2, st.3, st.4.push(w.time)), vis, sig, w.commands@);
            (inner.0, inner.1, inner.2, inner.3, st.4)
        },
    }
}

/// The commands `cmds` in order.
pub open spec fn walk(st: WalkState, vis: Seq<Signature>, sig: Signature, cmds: Seq<Command>) -> WalkState
    decreases cmds,
{
    if cmds.len() == 0 {
        st
    } else {
        step(walk(st, vis, sig, cmds.drop_last()), vis, sig, cmds.last())
    }
}


fn find_instance(v: &Vec<Instance>, n: Id) -> (r: Option<usize>)
    ensures
        r matches Some(k) ==> k < v.len(),
        opt_index(r) == first_where(v@, instance_is(n)),
{
    let mut i: usize = 0;
    while i < v.len()
        invariant
            i <= v.len(),
            forall|k: int| 0 <= k < i ==> !instance_is(n)(#[trigger] v@[k]),
        decreases v.len() - i,
    {
        if v[i].name == n {
            proof { lemma_first_where(v@, instance_is(n), i as int); }
            return Some(i);
        }
        i += 1;
    }
    proof { lemma_first_where(v@, instance_is(n), i as int); }
    None
}

fn find_port(v: &Vec<PortDef>, n: Id) -> (r: Option<usize>)
    ensures
        r matches Some(k) ==> k < v.len(),
        opt_index(r) == first_where(v@, port_is(n)),
{
    let mut i: usize = 0;
    while i < v.len()
        invariant
            i <= v.len(),
            forall|k: int| 0 <= k < i ==> !port_is(n)(#[trigger] v@[k]),
        decreases v.len() - i,
    {
        if v[i].name == n {
            proof { lemma_first_where(v@, port_is(n), i as int); }
            return Some(i);
        }
        i += 1;
    }
    proof { lemma_first_where(v@, port_is(n), i as int); }
    None
}

fn find_signal(v: &Vec<(Id, Id)>, n: Id) -> (r: Option<usize>)
    ensures
        r matches Some(k) ==> k < v.len(),
        opt_index(r) == first_where(v@, signal_is(n)),
{
    let mut i: usize = 0;
    while i < v.len()
        invariant
            i <= v.len(),
            forall|k: int| 0 <= k < i ==> !signal_is(n)(#[trigger] v@[k]),
        decreases v.len() - i,
    {
        if v[i].0 == n {
            proof { lemma_first_where(v@, signal_is(n), i as int); }
            return Some(i);
        }
        i += 1;
    }
    proof { lemma_first_where(v@, signal_is(n), i as int); }
    None
}

pub open spec fn binds_view(v: Seq<Binding>) -> Seq<BindingView> {
    v.map_values(|b: Binding| binding_view(b))
}

fn find_binding(v: &Vec<Binding>, n: Id) -> (r: Option<usize>)
    ensures
        r matches Some(k) ==> k < v.len(),
        opt_index(r) == first_where(binds_view(v@), binding_is(n)),
{
    let ghost bv = binds_view(v@);
    let mut i: usize = 0;
    while i < v.len()
        invariant
            i <= v.len(),
            bv == binds_view(v@),
            forall|k: int| 0 <= k < i ==> !binding_is(n)(#[trigger] bv[k]),
        decreases v.len() - i,
    {
        if v[i].name == n {
            proof { lemma_first_where(bv, binding_is(n), i as int); }
            return Some(i);
        }
        i += 1;
    }
    proof { lemma_first_where(bv, binding_is(n), i as int); }
    None
}

fn find_sig<'a>(ns: &'a Namespace, upto: usize, n: Id) -> (r: Option<&'a Signature>)
    requires
        upto <= ns.components.len(),
    ensures
        ({
            let vis = visible(ns.signatures@, ns.components@, upto as int);
            let k = first_where(vis, sig_is(n));
            &&& r is None <==> k < 0
            &&& r matches Some(s) ==> k < vis.len() && *s == vis[k]
        }),
{
    let ghost vis = visible(ns.signatures@, ns.components@, upto as int);
    let ghost sl = ns.signatures.len() as int;
    assert(vis.len() == sl + upto);
    let mut i: usize = 0;
    while i < ns.signatures.len()
        invariant
            i <= ns.signatures.len(),
            vis == visible(ns.signatures@, ns.components@, upto as int),
            sl == ns.signatures.len(),
            vis.len() == sl + upto,
            forall|k: int| 0 <= k < i ==> !sig_is(n)(#[trigger] vis[k]),
        decreases ns.signatures.len() - i,
    {
        assert(vis[i as int] == ns.signatures@[i as int]);
        if ns.signatures[i].name == n {
            proof { lemma_first_where(vis, sig_is(n), i as int); }
            return Some(&ns.signatures[i]);
        }
        i += 1;
    }
    let mut j: usize = 0;
    while j < upto
        invariant
            j <= upto,
            upto <= ns.components.len(),
            vis == visible(ns.signatures@, ns.components@, upto as int),
            sl == ns.signatures.len(),
            vis.len() == sl + upto,
            forall|k: int| 0 <= k < sl + j ==> !sig_is(n)(#[trigger] vis[k]),
        decreases upto - j,
    {
        assert(vis[sl + j] == ns.components@[j as int].sig);
        if ns.components[j].sig.name == n {
            proof { lemma_first_where(vis, sig_is(n), sl + j); }
            return Some(&ns.components[j].sig);
        }
        j += 1;
    }
    proof { lemma_first_where(vis, sig_is(n), sl + upto); }
    None
}


/// The state of checking one component.
pub struct Checker {
    pub instances: Vec<Instance>,
    pub binds: Vec<Binding>,
    pub obligations: Vec<Obligation>,
    pub errors: Vec<Error>,
    /// The times of the when-blocks around the current command.
    pub premises: Vec<TimeExpr>,
}

fn copy_times(v: &Vec<TimeExpr>) -> (r: Vec<TimeExpr>)
    ensures
        r@ == v@,
{
    let mut r: Vec<TimeExpr> = Vec::new();
    let mut i: usize = 0;
    while i < v.len()
        invariant
            i <= v.len(),
            r@ == v@.take(i as int),
        decreases v.len() - i,
    {
        r.push(v[i].deep_copy());
        i += 1;
        assert(r@ =~= v@.take(i as int));
    }
    assert(v@.take(v.len() as int) =~= v@);
    r
}

fn copy_span(s: &Option<Span>) -> (r: Option<Span>)
    ensures
        r == *s,
{
    match s {
        Some(x) => Some(x.copy()),
        None => None,
    }
}

fn outer_of(iv: &Interval) -> (r: Interval)
    ensures
        r == outer(*iv),
{
    Interval { start: iv.start.deep_copy(), end: iv.end.deep_copy(), exact: None }
}

fn region_of(iv: &Interval) -> (r: Interval)
    ensures
        r == region(*iv),
{
    match &iv.exact {
        Some(x) => Interval { start: x.start.deep_copy(), end: x.end.deep_copy(), exact: None },
        None => outer_of(iv),
    }
}

impl Checker {
    pub open spec fn view(&self) -> WalkState {
        (
            self.instances@,
            binds_view(self.binds@),
            self.obligations@.map_values(|o: Obligation| ob_view(o)),
            self.errors@.map_values(|e: Error| describe(e)),
            self.premises@,
        )
    }

    /// A checker that has seen nothing yet.
    pub fn new() -> (r: Checker)
        ensures
            r.view() == empty_state(),
    {
        let r = Checker { instances: Vec::new(), binds: Vec::new(), obligations: Vec::new(), errors: Vec::new(), premises: Vec::new() };
        assert(r.view().1 =~= Seq::<BindingView>::empty());
        assert(r.view().2 =~= Seq::<ObligationView>::empty());
        assert(r.view().3 =~= Seq::<Issue>::empty());
        r
    }

    fn issue(&mut self, e: Error)
        ensures
            final(self).view() == with_issue(old(self).view(), describe(e)),
    {
        self.errors.push(e);
        assert(self.view().3 =~= old(self).view().3.push(describe(e)));
    }

    fn fact(&mut self, f: Fact, span: Option<Span>)
        ensures
            final(self).view() == with_fact(old(self).view(), f, span),
    {
        let premises = copy_times(&self.premises);
        let ghost before = self.obligations@;
        self.obligations.push(Obligation { goal: Goal::Holds(f), span, premises });
        assert(self.obligations@.map_values(|o: Obligation| ob_view(o)) =~= before.map_values(|o: Obligation| ob_view(o)).push((Goal::Holds(f), span, self.premises@)));
    }

    /// Where the port `p` of the component `sig`, or of an invocation so
    /// far, is valid.
    fn lookup(&self, sig: &Signature, p: &Port) -> (r: Lookup)
        ensures
            r == lookup_port(*sig, self.view().1, *p),
    {
        match p {
            Port::Constant(_) => Lookup::Const,
            Port::ThisPort(n) => {
                let i = find_port(&sig.inputs, *n);
                let o = find_port(&sig.outputs, *n);
                let s = find_signal(&sig.interface_signals, *n);
                match i {
                    Some(k) => Lookup::Found(sig.inputs[k].liveness.copy(), sig.inputs[k].bitwidth),
                    None => match o {
                        Some(k) => Lookup::Found(sig.outputs[k].liveness.copy(), sig.outputs[k].bitwidth),
                        None => match s {
                            Some(k) => {
                                let t = sig.interface_signals[k].1;
                                Lookup::Found(Interval {
                                    start: TimeExpr::Abstract(t),
                                    end: TimeExpr::Add(Box::new(TimeExpr::Abstract(t)), Box::new(TimeExpr::Concrete(1))),
                                    exact: None,
                                }, 1)
                            },
                            None => Lookup::Missing(*n),
                        },
                    },
                }
            },
            Port::CompPort { comp, name } => {
                match find_binding(&self.binds, *comp) {
                    None => Lookup::Missing(*comp),
                    Some(b) => {
                        let bd = &self.binds[b];
                        assert(binds_view(self.binds@)[b as int] == binding_view(*bd));
                        let o = find_port(&bd.outputs, *name);
                        let i = find_port(&bd.inputs, *name);
                        match o {
                            Some(k) => Lookup::Found(bd.outputs[k].liveness.copy(), bd.outputs[k].bitwidth),
                            None => match i {
                                Some(k) => Lookup::Found(bd.inputs[k].liveness.copy(), bd.inputs[k].bitwidth),
                                None => Lookup::Missing(*name),
                            },
                        }
                    },
                }
            },
        }
    }
}


impl Checker {
    fn instance_step(&mut self, ns: &Namespace, upto: usize, inst: &Instance)
        requires
            upto <= ns.components.len(),
        ensures
            final(self).view() == step_instance(old(self).view(), visible(ns.signatures@, ns.components@, upto as int), *inst),
    {
        if find_instance(&self.instances, inst.name).is_some() {
            self.issue(Error::already_bound(inst.name, String::from_str("instance")));
        } else if find_sig(ns, upto, inst.component).is_none() {
            self.issue(Error::undefined(inst.component, String::from_str("component")));
        } else {
            self.instances.push(*inst);
        }
    }

    fn guard_step(&mut self, sig: &Signature, gs: &Vec<Port>, dst: &Interval, span: &Option<Span>)
        ensures
            final(self).view() == guard_facts(old(self).view(), *sig, gs@, *dst, *span),
    {
        let ghost st0 = self.view();
        let mut i: usize = 0;
        while i < gs.len()
            invariant
                i <= gs.len(),
                self.view().1 == st0.1,
                self.view() == guard_facts(st0, *sig, gs@.take(i as int), *dst, *span),
            decreases gs.len() - i,
        {
            assert(gs@.take(i + 1 as int).drop_last() =~= gs@.take(i as int));
            assert(gs@.take(i + 1 as int).last() == gs@[i as int]);
            match self.lookup(sig, &gs[i]) {
                Lookup::Missing(n) => self.issue(Error::undefined(n, String::from_str("port"))),
                Lookup::Const => {},
                Lookup::Found(g, _) => self.fact(Fact::subset(outer_of(&g), outer_of(dst)), copy_span(span)),
            }
            i += 1;
        }
        assert(gs@.take(gs.len() as int) =~= gs@);
    }

    fn connect_step(&mut self, sig: &Signature, c: &Connect)
        ensures
            final(self).view() == step_connect(old(self).view(), *sig, *c),
    {
        match self.lookup(sig, &c.dst) {
            Lookup::Missing(n) => self.issue(Error::undefined(n, String::from_str("port"))),
            Lookup::Const => self.issue(Error::malformed(String::from_str("cannot connect into a constant"))),
            Lookup::Found(d, wd) => match self.lookup(sig, &c.src) {
                Lookup::Missing(n) => self.issue(Error::undefined(n, String::from_str("port"))),
                Lookup::Const => {},
                Lookup::Found(src, ws) => {
                    if ws != wd {
                        self.issue(Error::malformed(String::from_str("width of source and destination differ")));
                    } else {
                        if d.exact.is_some() {
                            self.fact(Fact::equality(region_of(&src), region_of(&d)), copy_span(&c.span));
                        }
                        self.fact(Fact::subset(outer_of(&src), outer_of(&d)), copy_span(&c.span));
                        match &c.guard {
                            Some(g) => {
                                let gs = g.ports();
                                self.guard_step(sig, &gs, &d, &c.span);
                            },
                            None => {},
                        }
                    }
                },
            },
        }
    }
}


fn bindings_of(vars: &Vec<Id>, args: &Vec<TimeExpr>) -> (r: Vec<(Id, TimeExpr)>)
    requires
        args.len() >= vars.len(),
    ensures
        r@ == bindings(vars@, args@),
{
    let mut r: Vec<(Id, TimeExpr)> = Vec::new();
    let mut i: usize = 0;
    while i < vars.len()
        invariant
            i <= vars.len(),
            args.len() >= vars.len(),
            r@ == bindings(vars@, args@).take(i as int),
        decreases vars.len() - i,
    {
        r.push((vars[i], args[i].deep_copy()));
        i += 1;
        assert(r@ =~= bindings(vars@, args@).take(i as int));
    }
    assert(bindings(vars@, args@).take(vars.len() as int) =~= bindings(vars@, args@));
    r
}

fn subst_ports_of(ps: &Vec<PortDef>, bs: &Vec<(Id, TimeExpr)>) -> (r: Vec<PortDef>)
    ensures
        r@ == subst_ports(ps@, bs@),
{
    let mut r: Vec<PortDef> = Vec::new();
    let mut i: usize = 0;
    while i < ps.len()
        invariant
            i <= ps.len(),
            r@ == subst_ports(ps@, bs@).take(i as int),
        decreases ps.len() - i,
    {
        r.push(PortDef { name: ps[i].name, liveness: ps[i].liveness.substitute(bs), bitwidth: ps[i].bitwidth });
        i += 1;
        assert(r@ =~= subst_ports(ps@, bs@).take(i as int));
    }
    assert(subst_ports(ps@, bs@).take(ps.len() as int) =~= subst_ports(ps@, bs@));
    r
}

impl Checker {
    fn constraint_step(&mut self, cs: &Vec<Constraint>, bs: &Vec<(Id, TimeExpr)>, span: &Option<Span>)
        ensures
            final(self).view() == (old(self).view().0, old(self).view().1, old(self).view().2 + constraint_goals(cs@, bs@, *span, old(self).view().4), old(self).view().3, old(self).view().4),
    {
        let ghost st0 = self.view();
        let mut i: usize = 0;
        while i < cs.len()
            invariant
                i <= cs.len(),
                self.view() == (st0.0, st0.1, st0.2 + constraint_goals(cs@, bs@, *span, st0.4).take(i as int), st0.3, st0.4),
            decreases cs.len() - i,
        {
            let premises = copy_times(&self.premises);
            let ghost before = self.obligations@;
            self.obligations.push(Obligation { goal: Goal::Ordered(cs[i].substitute(bs)), span: copy_span(span), premises });
            assert(self.obligations@.map_values(|o: Obligation| ob_view(o)) =~= before.map_values(|o: Obligation| ob_view(o)).push(
                constraint_goals(cs@, bs@, *span, st0.4)[i as int]));
            i += 1;
            assert(self.obligations@.map_values(|o: Obligation| ob_view(o)) =~= st0.2 + constraint_goals(cs@, bs@, *span, st0.4).take(i as int));
        }
        assert(constraint_goals(cs@, bs@, *span, st0.4).take(cs.len() as int) =~= constraint_goals(cs@, bs@, *span, st0.4));
    }

    fn arg_step(&mut self, sig: &Signature, ins: &Vec<PortDef>, args: &Vec<Port>, span: &Option<Span>)
        requires
            ins.len() == args.len(),
        ensures
            final(self).view() == arg_facts(old(self).view(), *sig, ins@, args@, *span, args.len() as int),
    {
        let ghost st0 = self.view();
        let mut i: usize = 0;
        while i < args.len()
            invariant
                i <= args.len(),
                ins.len() == args.len(),
                self.view().1 == st0.1,
                self.view() == arg_facts(st0, *sig, ins@, args@, *span, i as int),
            decreases args.len() - i,
        {
            match self.lookup(sig, &args[i]) {
                Lookup::Missing(n) => self.issue(Error::undefined(n, String::from_str("port"))),
                Lookup::Const => {},
                Lookup::Found(a, w) => {
                    if w != ins[i].bitwidth {
                        self.issue(Error::malformed(String::from_str("width of argument and input differ")));
                    } else {
                        self.fact(Fact::subset(ins[i].liveness.copy(), a), copy_span(span));
                    }
                },
            }
            i += 1;
        }
    }

    fn invoke_step(&mut self, ns: &Namespace, upto: usize, sig: &Signature, inv: &Invoke)
        requires
            upto <= ns.components.len(),
        ensures
            final(self).view() == step_invoke(old(self).view(), visible(ns.signatures@, ns.components@, upto as int), *sig, *inv),
    {
        let ghost vis = visible(ns.signatures@, ns.components@, upto as int);
        let k = match find_instance(&self.instances, inv.comp) {
            Some(k) => k,
            None => {
                self.issue(Error::undefined(inv.comp, String::from_str("instance")));
                return;
            },
        };
        let component = self.instances[k].component;
        let callee = match find_sig(ns, upto, component) {
            Some(c) => c,
            None => {
                self.issue(Error::undefined(component, String::from_str("component")));
                return;
            },
        };
        if inv.abstract_vars.len() < callee.abstract_vars.len() {
            self.issue(Error::malformed(String::from_str("missing time argument")));
            return;
        }
        if find_binding(&self.binds, inv.bind).is_some() {
            self.issue(Error::already_bound(inv.bind, String::from_str("invocation")));
            return;
        }
        let bs = bindings_of(&callee.abstract_vars, &inv.abstract_vars);
        let ins = subst_ports_of(&callee.inputs, &bs);
        let outs = subst_ports_of(&callee.outputs, &bs);
        self.constraint_step(&callee.constraints, &bs, &inv.span);
        match &inv.ports {
            None => {},
            Some(args) => {
                if args.len() != ins.len() {
                    self.issue(Error::malformed(String::from_str("wrong number of arguments")));
                } else {
                    self.arg_step(sig, &ins, args, &inv.span);
                }
            },
        }
        let ghost before = self.binds@;
        self.binds.push(Binding { name: inv.bind, inputs: ins, outputs: outs });
        assert(binds_view(self.binds@) =~= binds_view(before).push((inv.bind, ins@, outs@)));
    }
}


impl Checker {
    fn command_step(&mut self, ns: &Namespace, upto: usize, sig: &Signature, c: &Command)
        requires
            upto <= ns.components.len(),
        ensures
            final(self).view() == step(old(self).view(), visible(ns.signatures@, ns.components@, upto as int), *sig, *c),
        decreases *c,
    {
        match c {
            Command::Invoke(inv) => self.invoke_step(ns, upto, sig, inv),
            Command::Instance(inst) => self.instance_step(ns, upto, inst),
            Command::Connect(con) => self.connect_step(sig, con),
            Command::When(w) => {
                let saved = copy_times(&self.premises);
                self.premises.push(w.time.deep_copy());
                self.walk_commands(ns, upto, sig, &w.commands);
                self.premises = saved;
            },
        }
    }

    /// Checks the commands `cmds` of the component `sig` in order.
    fn walk_commands(&mut self, ns: &Namespace, upto: usize, sig: &Signature, cmds: &Vec<Command>)
        requires
            upto <= ns.components.len(),
        ensures
            final(self).view() == walk(old(self).view(), visible(ns.signatures@, ns.components@, upto as int), *sig, cmds@),
        decreases cmds@,
    {
        let ghost vis = visible(ns.signatures@, ns.components@, upto as int);
        let ghost st0 = self.view();
        let mut i: usize = 0;
        while i < cmds.len()
            invariant
                i <= cmds.len(),
                upto <= ns.components.len(),
                vis == visible(ns.signatures@, ns.components@, upto as int),
                self.view() == walk(st0, vis, *sig, cmds@.take(i as int)),
            decreases cmds.len() - i,
        {
            assert(cmds@.take(i + 1 as int).drop_last() =~= cmds@.take(i as int));
            assert(cmds@.take(i + 1 as int).last() == cmds@[i as int]);
            self.command_step(ns, upto, sig, &cmds[i]);
            i += 1;
        }
        assert(cmds@.take(cmds.len() as int) =~= cmds@);
    }
}

/// The obligations and errors of one component.
#[derive(Debug)]
pub struct Collected {
    pub obligations: Vec<Obligation>,
    pub errors: Vec<Error>,
}

pub open spec fn empty_state() -> WalkState {
    (
        Seq::<Instance>::empty(),
        Seq::<BindingView>::empty(),
        Seq::<ObligationView>::empty(),
        Seq::<Issue>::empty(),
        Seq::<TimeExpr>::empty(),
    )
}

/// What checking the component `comp` finds, given the signatures it may use.
pub open spec fn collected(vis: Seq<Signature>, comp: Component) -> WalkState {
    walk(empty_state(), vis, comp.sig, comp.body@)
}

/// What checking the component at position `i` of `comps` finds.
pub open spec fn component_result(sigs: Seq<Signature>, comps: Seq<Component>, i: int) -> WalkState {
    collected(visible(sigs, comps, i), comps[i])
}

pub open spec fn collected_matches(r: Collected, st: WalkState) -> bool {
    r.obligations@.map_values(|o: Obligation| ob_view(o)) == st.2 && r.errors@.map_values(|e: Error| describe(e)) == st.3
}

/// The obligations and errors of the component at position `i`: its body
/// walked in order, seeing the external signatures and the components
/// before it.
pub fn check_component(ns: &Namespace, i: usize) -> (r: Collected)
    requires
        i < ns.components.len(),
    ensures
        collected_matches(r, component_result(ns.signatures@, ns.components@, i as int)),
{
    let mut ck = Checker::new();
    let comp = &ns.components[i];
    ck.walk_commands(ns, i, &comp.sig, &comp.body);
    Collected { obligations: ck.obligations, errors: ck.errors }
}

/// The obligations and errors of each component of the namespace, in order.
pub fn check_namespace(ns: &Namespace) -> (r: Vec<Collected>)
    ensures
        r.len() == ns.components.len(),
        forall|i: int| 0 <= i < r.len() ==> collected_matches(#[trigger] r@[i], component_result(ns.signatures@, ns.components@, i)),
{
    let mut r: Vec<Collected> = Vec::new();
    let mut i: usize = 0;
    while i < ns.components.len()
        invariant
            i <= ns.components.len(),
            r.len() == i,
            forall|k: int| 0 <= k < i ==> collected_matches(#[trigger] r@[k], component_result(ns.signatures@, ns.components@, k)),
        decreases ns.components.len() - i,
    {
        r.push(check_component(ns, i));
        i += 1;
    }
    r
}

/// Adding a component at the end of a namespace leaves what is found for
/// each earlier component as it was.
pub proof fn law_append_keeps_results(sigs: Seq<Signature>, comps: Seq<Component>, c: Component, i: int)
    requires
        0 <= i < comps.len(),
    ensures
        component_result(sigs, comps.push(c), i) == component_result(sigs, comps, i),
{
    assert(comps.push(c).take(i) =~= comps.take(i));
    assert(comps.push(c)[i] == comps[i]);
}

} // verus!
