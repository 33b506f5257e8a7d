use filament::ast::{Component, Guard, Port};
use filament::errors::{Error, ErrorKind, Span};
use filament::interval::{Interval, PortDef, Range, Signature};
use filament::parser::{ExtOrComp, FilamentParser, PdOrInt};
use filament::symbols::Symbols;
use filament::time::{Id, TimeExpr};

fn id(k: u64) -> Id {
    Id { key: k }
}

fn pd(k: u64) -> PortDef {
    PortDef { name: id(k), liveness: Interval::new(Range { start: TimeExpr::Concrete(0), end: TimeExpr::Concrete(1) }), bitwidth: 1 }
}

fn sig(k: u64) -> Signature {
    Signature { name: id(k), abstract_vars: vec![], interface_signals: vec![], inputs: vec![], outputs: vec![], constraints: vec![] }
}

#[test]
fn ports_split_in_order() {
    let (ports, signals) = FilamentParser::ports(vec![PdOrInt::Pd(pd(1)), PdOrInt::Int((id(9), id(8))), PdOrInt::Pd(pd(2))]);
    assert_eq!(ports.iter().map(|p| p.name).collect::<Vec<_>>(), vec![id(1), id(2)]);
    assert_eq!(signals, vec![(id(9), id(8))]);
}

#[test]
fn output_interface_is_refused() {
    let r = FilamentParser::io(None, Some((vec![], vec![(id(1), id(2))])));
    let e = r.err().unwrap();
    assert!(matches!(&*e.kind, ErrorKind::Malformed(m) if m == "Output interface ports not supported"));
    assert!(e.notes.is_empty());
    let (ins, outs, sigs) = FilamentParser::io(Some((vec![pd(1)], vec![(id(3), id(4))])), Some((vec![pd(2)], vec![]))).ok().unwrap();
    assert_eq!(ins.len(), 1);
    assert_eq!(outs[0].name, id(2));
    assert_eq!(sigs, vec![(id(3), id(4))]);
}

#[test]
fn port_def_with_exact_range() {
    let whole = Range { start: TimeExpr::Concrete(0), end: TimeExpr::Concrete(4) };
    let bad = Range { start: TimeExpr::Concrete(3), end: TimeExpr::Concrete(6) };
    assert!(FilamentParser::port_def(id(1), whole, Some(bad), 8).is_err());
    let whole = Range { start: TimeExpr::Concrete(0), end: TimeExpr::Concrete(4) };
    let good = Range { start: TimeExpr::Concrete(1), end: TimeExpr::Concrete(2) };
    let p = FilamentParser::port_def(id(1), whole, Some(good), 8).ok().unwrap();
    assert!(p.liveness.exact.is_some());
}

#[test]
fn guard_is_right_nested() {
    let g = FilamentParser::guard(&vec![Port::ThisPort(id(1)), Port::ThisPort(id(2)), Port::Constant(1)]);
    assert_eq!(g.ports(), vec![Port::ThisPort(id(1)), Port::ThisPort(id(2)), Port::Constant(1)]);
    assert!(matches!(g, Guard::Or(_, _)));
}

#[test]
fn file_keeps_order() {
    let ns = FilamentParser::file(
        vec!["prims.fil".to_string()],
        vec![
            ExtOrComp::Ext(sig(1)),
            ExtOrComp::Comp(Component::new(sig(2), vec![])),
            ExtOrComp::Ext(sig(3)),
        ],
    );
    assert_eq!(ns.imports, vec!["prims.fil".to_string()]);
    assert_eq!(ns.signatures.iter().map(|s| s.name).collect::<Vec<_>>(), vec![id(1), id(3)]);
    assert_eq!(ns.components.len(), 1);
}

#[test]
fn error_files_are_distinct() {
    let sp = |f: &str| Some(Span::new(0, 1, f.to_string(), "text".to_string()));
    let e = Error::malformed("bad".to_string())
        .add_note("a".to_string(), sp("x.fil"))
        .add_note("b".to_string(), None)
        .add_note("c".to_string(), sp("x.fil"))
        .add_note("d".to_string(), sp("y.fil"));
    assert_eq!(e.notes.len(), 4);
    let files = e.files();
    assert_eq!(files, vec![("x.fil".to_string(), "text".to_string()), ("y.fil".to_string(), "text".to_string())]);
}

#[test]
fn error_constructors() {
    assert!(matches!(*Error::undefined(id(4), "port".to_string()).kind, ErrorKind::Undefined(n, _) if n == id(4)));
    assert!(matches!(*Error::already_bound(id(4), "port".to_string()).kind, ErrorKind::AlreadyBound(_, _)));
    assert!(matches!(*Error::invalid_file("f".to_string()).kind, ErrorKind::InvalidFile(_)));
    assert!(matches!(*Error::write_error("w".to_string()).kind, ErrorKind::WriteError(_)));
    assert!(matches!(*Error::parse_error("p".to_string()).kind, ErrorKind::ParseError(_)));
    assert!(matches!(*Error::misc("m".to_string()).kind, ErrorKind::Misc(_)));
}

#[test]
fn interning_keeps_spelling() {
    let mut syms = Symbols::new();
    let a = syms.intern("go");
    let b = syms.intern("T");
    let c = syms.intern("go");
    assert_eq!(a, c);
    assert_ne!(a, b);
    assert_eq!(syms.name(b).map(|s| s.as_str()), Some("T"));
    assert!(syms.name(Id { key: 9 }).is_none());
}

#[test]
fn error_messages() {
    let mut syms = Symbols::new();
    let x = syms.intern("x");
    assert_eq!(ErrorKind::Undefined(x, "port".to_string()).message(&syms), "Undefined port name: x");
    assert_eq!(ErrorKind::AlreadyBound(x, "instance".to_string()).message(&syms), "Name `x' is already bound by instance");
    assert_eq!(ErrorKind::Undefined(id(7), "port".to_string()).message(&syms), "Undefined port name: #7");
    assert_eq!(ErrorKind::Malformed("bad width".to_string()).message(&syms), "bad width");
    assert_eq!(ErrorKind::ParseError("eof".to_string()).message(&syms), "Filament Parser: eof");
    assert_eq!(ErrorKind::Unproven("(>= 1 3)".to_string(), Some("t0 = 1".to_string())).message(&syms), "Cannot prove (>= 1 3) when t0 = 1");
}
