//! Facts: the containments and equalities between intervals that a
//! component's body demands.
use vstd::prelude::*;
use vstd::string::StringExecFns;
use crate::interval::{Interval, bounded};
use crate::time::{Assignment, eval, syntactic_le, time_le, smt_text, push_smt};

verus! {

/// Type of the fact.
#[derive(Clone, Copy, Debug, PartialEq, Eq, Structural, Hash)]
pub enum FactType {
    /// Represents set equality.
    Equality,
    /// Represents subset.
    Subset,
}

/// A fact between two intervals.
#[derive(Debug)]
pub struct Fact {
    pub tag: FactType,
    pub left: Interval,
    pub right: Interval,
}

/// What the fact means under `env`: for a subset, `right` starts no later and
/// ends no earlier than `left`; for an equality, both endpoints agree.
pub open spec fn fact_holds(f: Fact, env: Assignment) -> bool {
    let (ls, le) = (eval(f.left.start, env), eval(f.left.end, env));
    let (rs, re) = (eval(f.right.start, env), eval(f.right.end, env));
    match f.tag {
        FactType::Subset => rs <= ls && le <= re,
        FactType::Equality => ls == rs && le == re,
    }
}

/// The fact holds as the normal forms of its endpoints show, with no solver.
pub open spec fn holds_syntactically(f: Fact) -> bool {
    match f.tag {
        FactType::Subset => syntactic_le(f.right.start, f.left.start) && syntactic_le(f.left.end, f.right.end),
        FactType::Equality => syntactic_le(f.left.start, f.right.start) && syntactic_le(f.right.start, f.left.start)
            && syntactic_le(f.left.end, f.right.end) && syntactic_le(f.right.end, f.left.end),
    }
}

pub open spec fn fact_bounded(f: Fact) -> bool {
    bounded(f.left.start) && bounded(f.left.end) && bounded(f.right.start) && bounded(f.right.end)
}

/// The S-expression that states the fact.
pub open spec fn fact_smt(f: Fact) -> Seq<char> {
    let (ls, le) = (smt_text(f.left.start), smt_text(f.left.end));
    let (rs, re) = (smt_text(f.right.start), smt_text(f.right.end));
    match f.tag {
        FactType::Subset => seq!['(', 'a', 'n', 'd', ' ', '(', '<', '=', ' '] + rs + seq![' '] + ls + seq![
            ')',
            ' ',
            '(',
            '>',
            '=',
            ' ',
        ] + re + seq![' '] + le + seq![')', ')'],
        FactType::Equality => seq!['(', 'a', 'n', 'd', ' ', '(', '=', ' '] + ls + seq![' '] + rs + seq![
            ')',
            ' ',
            '(',
            '=',
            ' ',
        ] + le + seq![' '] + re + seq![')', ')'],
    }
}

/// How a fact reads: `[start, end] ⊆ [start, end]`, or `==` for an equality,
/// each endpoint as an S-expression.
pub open spec fn fact_text(f: Fact) -> Seq<char> {
    "["@ + smt_text(f.left.start) + ", "@ + smt_text(f.left.end) + "]"@ + (match f.tag {
        FactType::Equality => " == "@,
        FactType::Subset => " ⊆ "@,
    }) + "["@ + smt_text(f.right.start) + ", "@ + smt_text(f.right.end) + "]"@
}

impl Fact {
    /// Construct a [Fact] with `tag` set to [FactType::Equality].
    pub fn equality(left: Interval, right: Interval) -> (r: Self)
        ensures
            r == (Fact { tag: FactType::Equality, left, right }),
    {
        Fact { tag: FactType::Equality, left, right }
    }

    /// Construct a [Fact] with `tag` set to [FactType::Subset].
    pub fn subset(left: Interval, right: Interval) -> (r: Self)
        ensures
            r == (Fact { tag: FactType::Subset, left, right }),
    {
        Fact { tag: FactType::Subset, left, right }
    }

    pub fn copy(&self) -> (r: Fact)
        ensures
            r == *self,
    {
        Fact { tag: self.tag, left: self.left.copy(), right: self.right.copy() }
    }

    /// Whether the fact holds syntactically; then it holds under every
    /// assignment and needs no solver.
    pub fn trivially_holds(&self) -> (r: bool)
        requires
            fact_bounded(*self),
        ensures
            r == holds_syntactically(*self),
            r ==> forall|env: Assignment| #[trigger] fact_holds(*self, env),
    {
        match self.tag {
            FactType::Subset => time_le(&self.right.start, &self.left.start) && time_le(
                &self.left.end,
                &self.right.end,
            ),
            FactType::Equality => time_le(&self.left.start, &self.right.start) && time_le(
                &self.right.start,
                &self.left.start,
            ) && time_le(&self.left.end, &self.right.end) && time_le(&self.right.end, &self.left.end),
        }
    }

    /// How this fact reads.
    pub fn to_text(&self) -> (r: String)
        ensures
            r@ == fact_text(*self),
    {
        proof {
            reveal_strlit("["); reveal_strlit(", "); reveal_strlit("]"); reveal_strlit(" == "); reveal_strlit(" ⊆ ");
        }
        let mut out = String::new();
        out.append("[");
        push_smt(&mut out, &self.left.start);
        out.append(", ");
        push_smt(&mut out, &self.left.end);
        out.append("]");
        match self.tag {
            FactType::Equality => out.append(" == "),
            FactType::Subset => out.append(" ⊆ "),
        }
        out.append("[");
        push_smt(&mut out, &self.right.start);
        out.append(", ");
        push_smt(&mut out, &self.right.end);
        out.append("]");
        assert(out@ =~= fact_text(*self));
        out
    }

    /// The S-expression that states this fact.
    pub fn to_smt(&self) -> (r: String)
        ensures
            r@ == fact_smt(*self),
    {
        proof {
            reveal_strlit("(and (<= "); reveal_strlit("(and (= "); reveal_strlit(" ");
            reveal_strlit(") (>= "); reveal_strlit(") (= "); reveal_strlit("))");
        }
        let mut out = String::new();
        match self.tag {
            FactType::Subset => {
                out.append("(and (<= ");
                push_smt(&mut out, &self.right.start);
                out.append(" ");
                push_smt(&mut out, &self.left.start);
                out.append(") (>= ");
                push_smt(&mut out, &self.right.end);
                out.append(" ");
                push_smt(&mut out, &self.left.end);
                out.append("))");
            },
            FactType::Equality => {
                out.append("(and (= ");
                push_smt(&mut out, &self.left.start);
                out.append(" ");
                push_smt(&mut out, &self.right.start);
                out.append(") (= ");
                push_smt(&mut out, &self.left.end);
                out.append(" ");
                push_smt(&mut out, &self.right.end);
                out.append("))");
            },
        }
        assert(out@ =~= fact_smt(*self));
        out
    }
}

/// Every interval is a subset of itself, as the normal forms alone show.
pub proof fn law_subset_reflexive(iv: Interval)
    requires
        bounded(iv.start),
        bounded(iv.end),
    ensures
        holds_syntactically(Fact { tag: FactType::Subset, left: iv, right: iv }),
{
    crate::time::lemma_syntactic_le_refl(iv.start);
    crate::time::lemma_syntactic_le_refl(iv.end);
}

} // verus!
