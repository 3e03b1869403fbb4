//! The transition system that parsing yields.

use crate::model::has_key;
use crate::sort::Sort;
use crate::term::{node_sort, table_wf, NodeView, Term, TermTable};
use vstd::prelude::*;

verus! {

/// A word-level transition system over the terms of its own table.
pub struct Btor {
    pub tm: TermTable,
    /// Free inputs, in order of declaration, then the states that have no
    /// transition.
    pub input: Vec<Term>,
    /// The states that have a transition.
    pub latch: Vec<Term>,
    /// Initial values of states.
    pub init: Vec<(Term, Term)>,
    /// Transition functions of states.
    pub next: Vec<(Term, Term)>,
    /// Safety properties: each term true in a bad state.
    pub bad: Vec<Term>,
    /// Invariant constraints.
    pub constraint: Vec<Term>,
    /// Names given to terms, in the order they were met.
    pub symbols: Vec<(Term, String)>,
}

/// A transition system as a value.
pub ghost struct BtorModel {
    pub tm: Seq<NodeView>,
    pub input: Seq<Term>,
    pub latch: Seq<Term>,
    pub init: Seq<(Term, Term)>,
    pub next: Seq<(Term, Term)>,
    pub bad: Seq<Term>,
    pub constraint: Seq<Term>,
    pub symbols: Seq<(Term, Seq<char>)>,
}

impl View for Btor {
    type V = BtorModel;

    open spec fn view(&self) -> BtorModel {
        BtorModel {
            tm: self.tm@,
            input: self.input@,
            latch: self.latch@,
            init: self.init@,
            next: self.next@,
            bad: self.bad@,
            constraint: self.constraint@,
            symbols: self.symbols@.map_values(|p: (Term, String)| (p.0, p.1@)),
        }
    }
}

pub open spec fn terms_in(s: Seq<Term>, n: int) -> bool {
    forall|i: int| 0 <= i < s.len() ==> (#[trigger] s[i]).node < n
}

pub open spec fn pairs_in(s: Seq<(Term, Term)>, n: int) -> bool {
    forall|i: int| 0 <= i < s.len() ==> (#[trigger] s[i]).0.node < n && s[i].1.node < n
}

/// Every term names a node of the table, and the table is well formed.
pub open spec fn btor_wf(b: BtorModel) -> bool {
    let n = b.tm.len() as int;
    &&& table_wf(b.tm)
    &&& terms_in(b.input, n)
    &&& terms_in(b.latch, n)
    &&& pairs_in(b.init, n)
    &&& pairs_in(b.next, n)
    &&& terms_in(b.bad, n)
    &&& terms_in(b.constraint, n)
    &&& forall|i: int| 0 <= i < b.symbols.len() ==> (#[trigger] b.symbols[i]).0.node < n
}

/// Latches and transitions correspond one to one, and only latches have
/// initial values.
pub open spec fn latch_invariants(b: BtorModel) -> bool {
    &&& forall|i: int| 0 <= i < b.latch.len() ==> has_key(b.next, #[trigger] b.latch[i])
    &&& forall|i: int| 0 <= i < b.next.len() ==> b.latch.contains((#[trigger] b.next[i]).0)
    &&& forall|i: int| 0 <= i < b.init.len() ==> b.latch.contains((#[trigger] b.init[i]).0)
}

/// The sort of term `t` in the system's table.
pub open spec fn term_sort(b: BtorModel, t: Term) -> Sort {
    node_sort(b.tm[t.node as int])
}

/// Inputs and latches are distinct terms, and each transition and each initial
/// value has the sort of its latch.
pub open spec fn system_invariants(b: BtorModel) -> bool {
    &&& latch_invariants(b)
    &&& (b.input + b.latch).no_duplicates()
    &&& forall|i: int| 0 <= i < b.next.len() ==> term_sort(b, (#[trigger] b.next[i]).0) == term_sort(b, b.next[i].1)
    &&& forall|i: int| 0 <= i < b.init.len() ==> term_sort(b, (#[trigger] b.init[i]).0) == term_sort(b, b.init[i].1)
}

impl Btor {
    pub open spec fn wf(&self) -> bool {
        &&& btor_wf(self@)
        &&& self.tm.wf()
    }
}

} // verus!
