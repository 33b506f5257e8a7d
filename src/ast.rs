//! The body of a component: instances, invocations, connections and
//! when-blocks, and the namespace that holds components.
use vstd::prelude::*;
use crate::errors::{Span, WithPos};
use crate::interval::Signature;
use crate::time::{Id, TimeExpr};

verus! {

/// A port that a command reads or writes.
#[derive(Clone, Copy, Debug, PartialEq, Eq, Structural)]
pub enum Port {
    /// A constant value: valid at every time.
    Constant(u64),
    /// A port of the component being checked.
    ThisPort(Id),
    /// The port `name` of the invocation `comp`.
    CompPort { comp: Id, name: Id },
}

/// A guard: a tree of ports joined by `|`.
#[derive(Debug)]
pub enum Guard {
    Or(Box<Guard>, Box<Guard>),
    Port(Port),
}

/// The ports of a guard, left to right.
pub open spec fn guard_ports(g: Guard) -> Seq<Port>
    decreases g,
{
    match g {
        Guard::Or(a, b) => guard_ports(*a) + guard_ports(*b),
        Guard::Port(p) => seq![p],
    }
}

impl Guard {
    /// The ports of this guard, left to right.
    pub fn ports(&self) -> (r: Vec<Port>)
        ensures
            r@ == guard_ports(*self),
        decreases *self,
    {
        match self {
            Guard::Port(p) => vec![*p],
            Guard::Or(a, b) => {
                let mut l = a.ports();
                let mut r = b.ports();
                l.append(&mut r);
                l
            },
        }
    }
}

/// `dst = src`, or `dst = guard ? src`.
#[derive(Debug)]
pub struct Connect {
    pub dst: Port,
    pub src: Port,
    pub guard: Option<Guard>,
    pub span: Option<Span>,
}

impl Connect {
    pub fn new(dst: Port, src: Port, guard: Option<Guard>) -> (r: Connect)
        ensures
            r == (Connect { dst, src, guard, span: None }),
    {
        Connect { dst, src, guard, span: None }
    }
}

impl Connect {
    /// This node with the span `sp` and its other fields as they are.
    pub fn with_span(self, sp: Option<Span>) -> (r: Connect)
        ensures
            r == (Connect { span: sp, ..self }),
    {
        Connect { dst: self.dst, src: self.src, guard: self.guard, span: sp }
    }
}

impl WithPos for Connect {
    open spec fn span_view(&self) -> Option<Span> {
        self.span
    }

    fn set_span(self, sp: Option<Span>) -> (r: Connect) {
        self.with_span(sp)
    }

    fn copy_span(&self) -> (r: Option<Span>) {
        match &self.span {
            Some(s) => Some(s.copy()),
            None => None,
        }
    }
}

/// `bind = comp<abstract_vars>(ports)`: an invocation of the instance `comp`.
#[derive(Debug)]
pub struct Invoke {
    pub bind: Id,
    pub comp: Id,
    pub abstract_vars: Vec<TimeExpr>,
    pub ports: Option<Vec<Port>>,
    pub span: Option<Span>,
}

impl Invoke {
    pub fn new(bind: Id, comp: Id, abstract_vars: Vec<TimeExpr>, ports: Option<Vec<Port>>) -> (r: Invoke)
        ensures
            r == (Invoke { bind, comp, abstract_vars, ports, span: None }),
    {
        Invoke { bind, comp, abstract_vars, ports, span: None }
    }
}

impl Invoke {
    /// This node with the span `sp` and its other fields as they are.
    pub fn with_span(self, sp: Option<Span>) -> (r: Invoke)
        ensures
            r == (Invoke { span: sp, ..self }),
    {
        Invoke { bind: self.bind, comp: self.comp, abstract_vars: self.abstract_vars, ports: self.ports, span: sp }
    }
}

impl WithPos for Invoke {
    open spec fn span_view(&self) -> Option<Span> {
        self.span
    }

    fn set_span(self, sp: Option<Span>) -> (r: Invoke) {
        self.with_span(sp)
    }

    fn copy_span(&self) -> (r: Option<Span>) {
        match &self.span {
            Some(s) => Some(s.copy()),
            None => None,
        }
    }
}

/// `name = new component`.
#[derive(Clone, Copy, Debug, PartialEq, Eq, Structural)]
pub struct Instance {
    pub name: Id,
    pub component: Id,
}

/// `@time { commands }`.
#[derive(Debug)]
pub struct When {
    pub time: TimeExpr,
    pub commands: Vec<Command>,
}

#[derive(Debug)]
pub enum Command {
    Invoke(Invoke),
    Instance(Instance),
    Connect(Connect),
    When(When),
}

/// A signature with a body.
#[derive(Debug)]
pub struct Component {
    pub sig: Signature,
    pub body: Vec<Command>,
}

impl Component {
    pub fn new(sig: Signature, body: Vec<Command>) -> (r: Component)
        ensures
            r == (Component { sig, body }),
    {
        Component { sig, body }
    }
}

/// Imports, external signatures and components, in order.
#[derive(Debug)]
pub struct Namespace {
    pub imports: Vec<String>,
    pub signatures: Vec<Signature>,
    pub components: Vec<Component>,
}

} // verus!
