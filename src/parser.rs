//! What the parser builds once the grammar has matched: ports split from
//! interface signals, the input/output lists of a signature, port
//! definitions with their ranges, guards, and the namespace of a file.
use vstd::prelude::*;
use crate::ast::{Component, Guard, Namespace, Port, guard_ports};
use vstd::string::StringExecFns;
use crate::errors::{Error, ErrorKind};
use crate::interval::{Interval, PortDef, Range, Signature, range_bounded, Constraint};
use crate::time::{Id, syntactic_le};

verus! {

/// An external signature or a component, as a file lists them.
#[derive(Debug)]
pub enum ExtOrComp {
    Ext(Signature),
    Comp(Component),
}

/// A port definition or an interface signal `(name, time variable)`.
#[derive(Debug)]
pub enum PdOrInt {
    Pd(PortDef),
    Int((Id, Id)),
}

/// The parser of Filament files.
pub struct FilamentParser;

pub open spec fn port_defs(ms: Seq<PdOrInt>) -> Seq<PortDef>
    decreases ms.len(),
{
    if ms.len() == 0 {
        Seq::<PortDef>::empty()
    } else {
        match ms.last() {
            PdOrInt::Pd(p) => port_defs(ms.drop_last()).push(p),
            PdOrInt::Int(_) => port_defs(ms.drop_last()),
        }
    }
}

pub open spec fn signals(ms: Seq<PdOrInt>) -> Seq<(Id, Id)>
    decreases ms.len(),
{
    if ms.len() == 0 {
        Seq::<(Id, Id)>::empty()
    } else {
        match ms.last() {
            PdOrInt::Pd(_) => signals(ms.drop_last()),
            PdOrInt::Int(i) => signals(ms.drop_last()).push(i),
        }
    }
}

pub open spec fn ext_sigs(ms: Seq<ExtOrComp>) -> Seq<Signature>
    decreases ms.len(),
{
    if ms.len() == 0 {
        Seq::<Signature>::empty()
    } else {
        match ms.last() {
            ExtOrComp::Ext(s) => ext_sigs(ms.drop_last()).push(s),
            ExtOrComp::Comp(_) => ext_sigs(ms.drop_last()),
        }
    }
}

pub open spec fn comps(ms: Seq<ExtOrComp>) -> Seq<Component>
    decreases ms.len(),
{
    if ms.len() == 0 {
        Seq::<Component>::empty()
    } else {
        match ms.last() {
            ExtOrComp::Ext(_) => comps(ms.drop_last()),
            ExtOrComp::Comp(c) => comps(ms.drop_last()).push(c),
        }
    }
}

/// The right-nested `|` of the ports `ps`.
pub open spec fn guard_of(ps: Seq<Port>) -> Guard
    decreases ps.len(),
{
    if ps.len() <= 1 {
        Guard::Port(ps[0])
    } else {
        Guard::Or(Box::new(Guard::Port(ps[0])), Box::new(guard_of(ps.drop_first())))
    }
}

pub proof fn lemma_guard_of(ps: Seq<Port>)
    requires
        ps.len() > 0,
    ensures
        guard_ports(guard_of(ps)) == ps,
    decreases ps.len(),
{
    if ps.len() == 1 {
        assert(guard_ports(Guard::Port(ps[0])) == seq![ps[0]]);
        assert(ps =~= seq![ps[0]]);
    } else {
        lemma_guard_of(ps.drop_first());
        assert(guard_ports(Guard::Port(ps[0])) == seq![ps[0]]);
        assert(guard_ports(guard_of(ps)) == seq![ps[0]] + guard_ports(guard_of(ps.drop_first())));
        assert(seq![ps[0]] + ps.drop_first() =~= ps);
    }
}

impl FilamentParser {
    /// Splits port definitions from interface signals, keeping each in order.
    pub fn ports(ins: Vec<PdOrInt>) -> (r: (Vec<PortDef>, Vec<(Id, Id)>))
        ensures
            r.0@ == port_defs(ins@),
            r.1@ == signals(ins@),
    {
        let ghost all = ins@;
        let mut ports: Vec<PortDef> = Vec::new();
        let mut interface_signals: Vec<(Id, Id)> = Vec::new();
        let mut rest = ins;
        let n = rest.len();
        assert(n == all.len());
        assert(all.subrange(0, all.len() as int) =~= all);
        let mut i: usize = 0;
        while rest.len() > 0
            invariant
                i + rest.len() == all.len(),
                all.len() <= usize::MAX,
                rest@ == all.subrange(i as int, all.len() as int),
                ports@ == port_defs(all.take(i as int)),
                interface_signals@ == signals(all.take(i as int)),
            decreases rest.len(),
        {
            let ghost before = rest@;
            let m = rest.remove(0);
            assert(m == all[i as int]);
            assert(all.take(i + 1 as int).drop_last() =~= all.take(i as int));
            assert(all.take(i + 1 as int).last() == all[i as int]);
            match m {
                PdOrInt::Pd(port) => ports.push(port),
                PdOrInt::Int(signal) => interface_signals.push(signal),
            }
            i += 1;
            assert(rest@ =~= all.subrange(i as int, all.len() as int));
        }
        assert(all.take(all.len() as int) =~= all);
        (ports, interface_signals)
    }

    /// The inputs, outputs and interface signals of a signature, from the
    /// lists on either side of its arrow. Interface signals may only be
    /// inputs.
    pub fn io(ins: Option<(Vec<PortDef>, Vec<(Id, Id)>)>, outs: Option<(Vec<PortDef>, Vec<(Id, Id)>)>) -> (r: Result<
        (Vec<PortDef>, Vec<PortDef>, Vec<(Id, Id)>),
        Error,
    >)
        ensures
            (outs matches Some(o) && o.1@.len() > 0) <==> r is Err,
            r matches Err(e) ==> (*e.kind matches ErrorKind::Malformed(m) && m@ == "Output interface ports not supported"@)
                && e.notes@.len() == 0,
            r matches Ok(v) ==> (v.0@ == match ins { Some(i) => i.0@, None => Seq::<PortDef>::empty() }
                && v.1@ == match outs { Some(o) => o.0@, None => Seq::<PortDef>::empty() }
                && v.2@ == match ins { Some(i) => i.1@, None => Seq::<(Id, Id)>::empty() }),
    {
        let (outputs, out_interface) = match outs {
            Some(o) => o,
            None => (Vec::new(), Vec::new()),
        };
        if out_interface.len() > 0 {
            return Err(Error::malformed(String::from_str("Output interface ports not supported")));
        }
        let (inputs, interface) = match ins {
            Some(i) => i,
            None => (Vec::new(), Vec::new()),
        };
        Ok((inputs, outputs, interface))
    }

    /// A port definition over `range`, with an exact sub-range if given.
    pub fn port_def(name: Id, range: Range, exact: Option<Range>, bitwidth: u64) -> (r: Result<PortDef, Error>)
        requires
            range_bounded(range),
            exact matches Some(e) ==> range_bounded(e),
        ensures
            r is Ok <==> bitwidth > 0 && (exact matches Some(e) ==> syntactic_le(range.start, e.start) && syntactic_le(e.end, range.end)),
            r matches Ok(p) ==> p == (PortDef { name, liveness: Interval { start: range.start, end: range.end, exact }, bitwidth }),
    {
        let iv = Interval::new(range);
        let liveness = match exact {
            None => iv,
            Some(e) => match iv.with_exact(e) {
                Ok(iv) => iv,
                Err(err) => return Err(err),
            },
        };
        PortDef::new(name, liveness, bitwidth)
    }

    /// The guard `p1 | p2 | ... | pn`.
    pub fn guard(ps: &Vec<Port>) -> (r: Guard)
        requires
            ps.len() > 0,
        ensures
            r == guard_of(ps@),
            guard_ports(r) == ps@,
    {
        proof { lemma_guard_of(ps@); }
        let mut i: usize = ps.len() - 1;
        let mut g = Guard::Port(ps[i]);
        assert(ps@.subrange(i as int, ps.len() as int) =~= seq![ps@[i as int]]);
        while i > 0
            invariant
                i < ps.len(),
                g == guard_of(ps@.subrange(i as int, ps.len() as int)),
            decreases i,
        {
            i -= 1;
            let ghost s = ps@.subrange(i as int, ps.len() as int);
            assert(s.drop_first() =~= ps@.subrange(i + 1 as int, ps.len() as int));
            assert(s[0] == ps@[i as int]);
            g = Guard::Or(Box::new(Guard::Port(ps[i])), Box::new(g));
        }
        assert(ps@.subrange(0, ps.len() as int) =~= ps@);
        g
    }

    /// A signature from its parts.
    pub fn signature(name: Id, abstract_vars: Vec<Id>, io: (Vec<PortDef>, Vec<PortDef>, Vec<(Id, Id)>), constraints: Vec<Constraint>) -> (r: Signature)
        ensures
            r == (Signature { name, abstract_vars, interface_signals: io.2, inputs: io.0, outputs: io.1, constraints }),
    {
        let (inputs, outputs, interface_signals) = io;
        Signature { name, abstract_vars, interface_signals, inputs, outputs, constraints }
    }

    /// The namespace of a file: its imports, and its external signatures and
    /// components each kept in order.
    pub fn file(imports: Vec<String>, mixed: Vec<ExtOrComp>) -> (r: Namespace)
        ensures
            r.imports == imports,
            r.signatures@ == ext_sigs(mixed@),
            r.components@ == comps(mixed@),
    {
        let ghost all = mixed@;
        let mut namespace = Namespace { imports, signatures: Vec::new(), components: Vec::new() };
        let mut rest = mixed;
        let n = rest.len();
        assert(n == all.len());
        assert(all.subrange(0, all.len() as int) =~= all);
        let mut i: usize = 0;
        while rest.len() > 0
            invariant
                i + rest.len() == all.len(),
                all.len() <= usize::MAX,
                rest@ == all.subrange(i as int, all.len() as int),
                namespace.imports == imports,
                namespace.signatures@ == ext_sigs(all.take(i as int)),
                namespace.components@ == comps(all.take(i as int)),
            decreases rest.len(),
        {
            let ghost before = rest@;
            let m = rest.remove(0);
            assert(m == all[i as int]);
            assert(all.take(i + 1 as int).drop_last() =~= all.take(i as int));
            assert(all.take(i + 1 as int).last() == all[i as int]);
            match m {
                ExtOrComp::Ext(sig) => namespace.signatures.push(sig),
                ExtOrComp::Comp(comp) => namespace.components.push(comp),
            }
            i += 1;
            assert(rest@ =~= all.subrange(i as int, all.len() as int));
        }
        assert(all.take(all.len() as int) =~= all);
        namespace
    }
}

} // verus!
