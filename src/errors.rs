//! Diagnostics: where in the input they point, what kind of error they
//! report, and the notes that go with them.
use vstd::prelude::*;
use vstd::string::StringExecFns;
use crate::symbols::Symbols;
use crate::time::{Id, decimal, push_decimal};

verus! {

/// A span of the input program, used for reporting location-based errors.
#[derive(Debug)]
pub struct Span {
    /// The input program's text.
    pub input: String,
    /// Name of the input file.
    pub file: String,
    /// The start of the span.
    pub start: usize,
    /// The end of the span.
    pub end: usize,
}

impl Span {
    /// The bytes `start..end` of the file `file` whose text is `input`.
    pub fn new(start: usize, end: usize, file: String, input: String) -> (r: Span)
        ensures
            r == (Span { input, file, start, end }),
    {
        Span { input, file, start, end }
    }

    /// A copy of this span.
    pub fn copy(&self) -> (r: Span)
        ensures
            r == *self,
    {
        Span { input: self.input.clone(), file: self.file.clone(), start: self.start, end: self.end }
    }
}

/// An IR node that may carry position information.
pub trait WithPos: Sized {
    /// The span this node carries.
    spec fn span_view(&self) -> Option<Span>;

    /// This node with span information `sp`.
    fn set_span(self, sp: Option<Span>) -> (r: Self)
        ensures
            r.span_view() == sp;

    /// A copy of the span of this node.
    fn copy_span(&self) -> (r: Option<Span>)
        ensures
            r == self.span_view();
}

/// The kind of an error.
#[derive(Debug)]
pub enum ErrorKind {
    /// The parser refused the program; its message.
    ParseError(String),
    /// The input file is invalid (does not exist).
    InvalidFile(String),
    /// Failed to write the output.
    WriteError(String),
    /// The program is malformed.
    Malformed(String),
    /// The name has not been bound.
    Undefined(Id, String),
    /// The name has already been bound.
    AlreadyBound(Id, String),
    /// A timing obligation the solver could not prove, with the solver's
    /// model when one was asked for.
    Unproven(String, Option<String>),
    /// A miscellaneous error.
    Misc(String),
}

/// How a diagnostic names `id`: its spelling, or `#` and its key.
pub open spec fn id_text(syms: Symbols, id: Id) -> Seq<char> {
    if id.key < syms.names.len() {
        syms.names@[id.key as int]@
    } else {
        seq!['#'] + decimal(id.key as nat)
    }
}

/// The message of an error of kind `k`.
pub open spec fn kind_text(k: ErrorKind, syms: Symbols) -> Seq<char> {
    match k {
        ErrorKind::AlreadyBound(n, by) => "Name `"@ + id_text(syms, n) + "' is already bound by "@ + by@,
        ErrorKind::Undefined(n, typ) => "Undefined "@ + typ@ + " name: "@ + id_text(syms, n),
        ErrorKind::ParseError(e) => "Filament Parser: "@ + e@,
        ErrorKind::InvalidFile(m) => m@,
        ErrorKind::WriteError(m) => m@,
        ErrorKind::Malformed(m) => m@,
        ErrorKind::Misc(m) => m@,
        ErrorKind::Unproven(g, None) => "Cannot prove "@ + g@,
        ErrorKind::Unproven(g, Some(m)) => "Cannot prove "@ + g@ + " when "@ + m@,
    }
}

fn push_id(out: &mut String, syms: &Symbols, id: Id)
    ensures
        final(out)@ == old(out)@ + id_text(*syms, id),
{
    match syms.name(id) {
        Some(n) => out.append(n.as_str()),
        None => {
            proof { reveal_strlit("#"); }
            out.append("#");
            push_decimal(out, id.key);
            assert(out@ =~= old(out)@ + id_text(*syms, id));
        },
    }
}

impl ErrorKind {
    /// The message of this error, naming identifiers by their spelling in
    /// `syms`.
    pub fn message(&self, syms: &Symbols) -> (r: String)
        ensures
            r@ == kind_text(*self, *syms),
    {
        proof {
            reveal_strlit("Name `"); reveal_strlit("' is already bound by "); reveal_strlit("Undefined ");
            reveal_strlit(" name: "); reveal_strlit("Filament Parser: "); reveal_strlit("Cannot prove ");
            reveal_strlit(" when ");
        }
        let mut out = String::new();
        match self {
            ErrorKind::AlreadyBound(n, by) => {
                out.append("Name `");
                push_id(&mut out, syms, *n);
                out.append("' is already bound by ");
                out.append(by.as_str());
            },
            ErrorKind::Undefined(n, typ) => {
                out.append("Undefined ");
                out.append(typ.as_str());
                out.append(" name: ");
                push_id(&mut out, syms, *n);
            },
            ErrorKind::ParseError(e) => {
                out.append("Filament Parser: ");
                out.append(e.as_str());
            },
            ErrorKind::InvalidFile(m) | ErrorKind::WriteError(m) | ErrorKind::Malformed(m) | ErrorKind::Misc(m) => {
                out.append(m.as_str());
            },
            ErrorKind::Unproven(g, model) => {
                out.append("Cannot prove ");
                out.append(g.as_str());
                match model {
                    Some(m) => {
                        out.append(" when ");
                        out.append(m.as_str());
                    },
                    None => {},
                }
            },
        }
        assert(out@ =~= kind_text(*self, *syms));
        out
    }
}

/// An error, with notes that point into the program.
#[derive(Debug)]
pub struct Error {
    pub kind: Box<ErrorKind>,
    pub notes: Vec<(String, Option<Span>)>,
}

/// `e` is an error of kind `kind` without notes.
pub open spec fn fresh_error(e: Error, kind: ErrorKind) -> bool {
    *e.kind == kind && e.notes@.len() == 0
}

/// The (file, input) pairs of the spans that the notes carry.
pub open spec fn note_files(notes: Seq<(String, Option<Span>)>) -> Set<(Seq<char>, Seq<char>)> {
    Set::new(|p: (Seq<char>, Seq<char>)| exists|i: int| 0 <= i < notes.len() && (#[trigger] notes[i]).1 is Some
        && p == (notes[i].1->Some_0.file@, notes[i].1->Some_0.input@))
}

impl Error {
    /// The files that the notes point into, each once, with their text.
    pub fn files(&self) -> (r: Vec<(String, String)>)
        ensures
            r@.map_values(|p: (String, String)| (p.0@, p.1@)).to_set() == note_files(self.notes@),
            forall|i: int, j: int| 0 <= i < j < r.len() ==> (r@[i].0@, r@[i].1@) != (r@[j].0@, r@[j].1@),
    {
        let mut r: Vec<(String, String)> = Vec::new();
        let mut i: usize = 0;
        while i < self.notes.len()
            invariant
                i <= self.notes.len(),
                r@.map_values(|p: (String, String)| (p.0@, p.1@)).to_set() == note_files(self.notes@.take(i as int)),
                forall|a: int, b: int| 0 <= a < b < r.len() ==> (r@[a].0@, r@[a].1@) != (r@[b].0@, r@[b].1@),
            decreases self.notes.len() - i,
        {
            let ghost before = r@;
            let ghost prev = self.notes@.take(i as int);
            let ghost next = self.notes@.take(i + 1 as int);
            assert(next =~= prev.push(self.notes@[i as int]));
            match &self.notes[i].1 {
                None => {
                    assert(note_files(next) =~= note_files(prev)) by {
                        assert forall|p| note_files(next).contains(p) implies note_files(prev).contains(p) by {
                            let k = choose|k: int| 0 <= k < next.len() && (#[trigger] next[k]).1 is Some
                                && p == (next[k].1->Some_0.file@, next[k].1->Some_0.input@);
                            assert(prev[k] == next[k]);
                        }
                        assert forall|p| note_files(prev).contains(p) implies note_files(next).contains(p) by {
                            let k = choose|k: int| 0 <= k < prev.len() && (#[trigger] prev[k]).1 is Some
                                && p == (prev[k].1->Some_0.file@, prev[k].1->Some_0.input@);
                            assert(prev[k] == next[k]);
                        }
                    }
                },
                Some(sp) => {
                    let ghost p = (sp.file@, sp.input@);
                    let mut found = false;
                    let mut j: usize = 0;
                    while j < r.len()
                        invariant
                            j <= r.len(),
                            r@ == before,
                            p == (sp.file@, sp.input@),
                            found ==> exists|k: int| 0 <= k < r.len() && (r@[k].0@, r@[k].1@) == p,
                            !found ==> forall|k: int| 0 <= k < j ==> (r@[k].0@, r@[k].1@) != p,
                        decreases r.len() - j,
                    {
                        if r[j].0 == sp.file && r[j].1 == sp.input {
                            found = true;
                            assert((r@[j as int].0@, r@[j as int].1@) == p);
                        }
                        j += 1;
                    }
                    assert(note_files(next) =~= note_files(prev).insert(p)) by {
                        assert(next[i as int].1 is Some);
                        assert forall|q| note_files(next).contains(q) implies note_files(prev).insert(p).contains(q) by {
                            let k = choose|k: int| 0 <= k < next.len() && (#[trigger] next[k]).1 is Some
                                && q == (next[k].1->Some_0.file@, next[k].1->Some_0.input@);
                            if k < i {
                                assert(prev[k] == next[k]);
                            }
                        }
                        assert forall|q| note_files(prev).insert(p).contains(q) implies note_files(next).contains(q) by {
                            if q != p {
                                let k = choose|k: int| 0 <= k < prev.len() && (#[trigger] prev[k]).1 is Some
                                    && q == (prev[k].1->Some_0.file@, prev[k].1->Some_0.input@);
                                assert(prev[k] == next[k]);
                            }
                        }
                    }
                    if !found {
                        r.push((sp.file.clone(), sp.input.clone()));
                        let ghost mb = before.map_values(|p: (String, String)| (p.0@, p.1@));
                        assert(r@.map_values(|p: (String, String)| (p.0@, p.1@)) =~= mb.push(p));
                        proof { mb.lemma_push_to_set_commute(p); }
                    } else {
                        assert(before.map_values(|p: (String, String)| (p.0@, p.1@)).to_set() =~=
                            before.map_values(|p: (String, String)| (p.0@, p.1@)).to_set().insert(p)) by {
                            let k = choose|k: int| 0 <= k < r.len() && (r@[k].0@, r@[k].1@) == p;
                            assert(before.map_values(|p: (String, String)| (p.0@, p.1@))[k] == p);
                        }
                    }
                },
            }
            i += 1;
        }
        assert(self.notes@.take(self.notes.len() as int) =~= self.notes@);
        r
    }

    /// This error with one more note.
    pub fn add_note(self, msg: String, pos: Option<Span>) -> (r: Self)
        ensures
            r.kind == self.kind,
            r.notes@ == self.notes@.push((msg, pos)),
    {
        let mut notes = self.notes;
        notes.push((msg, pos));
        Error { kind: self.kind, notes }
    }

    pub fn parse_error(msg: String) -> (r: Self)
        ensures
            fresh_error(r, ErrorKind::ParseError(msg)),
    {
        Error { kind: Box::new(ErrorKind::ParseError(msg)), notes: Vec::new() }
    }

    pub fn invalid_file(f: String) -> (r: Self)
        ensures
            fresh_error(r, ErrorKind::InvalidFile(f)),
    {
        Error { kind: Box::new(ErrorKind::InvalidFile(f)), notes: Vec::new() }
    }

    pub fn write_error(e: String) -> (r: Self)
        ensures
            fresh_error(r, ErrorKind::WriteError(e)),
    {
        Error { kind: Box::new(ErrorKind::WriteError(e)), notes: Vec::new() }
    }

    pub fn malformed(msg: String) -> (r: Self)
        ensures
            fresh_error(r, ErrorKind::Malformed(msg)),
    {
        Error { kind: Box::new(ErrorKind::Malformed(msg)), notes: Vec::new() }
    }

    pub fn undefined(name: Id, kind: String) -> (r: Self)
        ensures
            fresh_error(r, ErrorKind::Undefined(name, kind)),
    {
        Error { kind: Box::new(ErrorKind::Undefined(name, kind)), notes: Vec::new() }
    }

    pub fn already_bound(name: Id, kind: String) -> (r: Self)
        ensures
            fresh_error(r, ErrorKind::AlreadyBound(name, kind)),
    {
        Error { kind: Box::new(ErrorKind::AlreadyBound(name, kind)), notes: Vec::new() }
    }

    pub fn unproven(fact: String, model: Option<String>) -> (r: Self)
        ensures
            fresh_error(r, ErrorKind::Unproven(fact, model)),
    {
        Error { kind: Box::new(ErrorKind::Unproven(fact, model)), notes: Vec::new() }
    }

    pub fn misc(msg: String) -> (r: Self)
        ensures
            fresh_error(r, ErrorKind::Misc(msg)),
    {
        Error { kind: Box::new(ErrorKind::Misc(msg)), notes: Vec::new() }
    }
}

} // verus!
