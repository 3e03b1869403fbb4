//! Terms: a table of structurally shared nodes, and handles into it that carry
//! a polarity flag for the complement.

use crate::op::{BiOpType, TriOpType, UniOpType};
use crate::sort::Sort;
use crate::text::ErrorKind;
use vstd::prelude::*;

verus! {

/// A handle on a node of a [`TermTable`]; `neg` marks its complement.
#[derive(Debug, Clone, Copy, PartialEq, Eq, Structural, Hash)]
pub struct Term {
    pub node: usize,
    pub neg: bool,
}

impl Term {
    pub open spec fn spec_not(self) -> Term {
        Term { node: self.node, neg: !self.neg }
    }

    /// The complement: the same node with the polarity flag flipped.
    pub fn not(self) -> (r: Term)
        ensures
            r == self.spec_not(),
    {
        Term { node: self.node, neg: !self.neg }
    }
}

/// Complementing twice gives back the term itself.
pub proof fn lemma_not_not(t: Term)
    ensures
        t.spec_not().spec_not() == t,
{
}

/// The operator of an operation node. Extension lengths and slice bounds are
/// plain integers of the operator.
#[derive(Debug, Clone, Copy, PartialEq, Eq, Structural)]
pub enum OpKind {
    Uni(UniOpType),
    Bi(BiOpType),
    Tri(TriOpType),
    Uext(usize),
    Sext(usize),
    Slice(usize, usize),
}

impl OpKind {
    pub open spec fn arity(self) -> nat {
        match self {
            OpKind::Bi(_) => 2,
            OpKind::Tri(_) => 3,
            _ => 1,
        }
    }
}

/// A node of the table.
#[derive(Debug)]
pub enum TermNode {
    /// A free variable; the integer tells variables of one sort apart.
    Var(Sort, usize),
    /// A constant, least significant bit first.
    Const(Vec<bool>),
    /// An operator applied to operands, with the sort of its result.
    Op(OpKind, Sort, Vec<Term>),
}

/// What a node is, as a value.
pub ghost enum NodeView {
    Var(Sort, usize),
    Const(Seq<bool>),
    Op(OpKind, Sort, Seq<Term>),
}

impl View for TermNode {
    type V = NodeView;

    open spec fn view(&self) -> NodeView {
        match self {
            TermNode::Var(s, k) => NodeView::Var(*s, *k),
            TermNode::Const(b) => NodeView::Const(b@),
            TermNode::Op(o, s, a) => NodeView::Op(*o, *s, a@),
        }
    }
}

pub open spec fn node_sort(n: NodeView) -> Sort {
    match n {
        NodeView::Var(s, _) => s,
        NodeView::Const(b) => Sort::Bv(b.len() as usize),
        NodeView::Op(_, s, _) => s,
    }
}

pub open spec fn uni_sort(op: UniOpType, a: Sort) -> Option<Sort> {
    match a {
        Sort::Bv(w) => match op {
            UniOpType::Redand | UniOpType::Redor | UniOpType::Redxor => Some(Sort::Bv(1)),
            _ => Some(a),
        },
        Sort::Array(_, _) => None,
    }
}

/// Operators of two equal bit-vector operands with a one-bit result.
pub open spec fn is_predicate(op: BiOpType) -> bool {
    match op {
        BiOpType::Sgt | BiOpType::Ugt | BiOpType::Sgte | BiOpType::Ugte | BiOpType::Slt
        | BiOpType::Ult | BiOpType::Slte | BiOpType::Ulte | BiOpType::Saddo | BiOpType::Uaddo
        | BiOpType::Sdivo | BiOpType::Udivo | BiOpType::Smulo | BiOpType::Umulo
        | BiOpType::Ssubo | BiOpType::Usubo => true,
        _ => false,
    }
}

pub open spec fn bi_sort(op: BiOpType, a: Sort, b: Sort) -> Option<Sort> {
    match op {
        BiOpType::Iff | BiOpType::Implies => if a == Sort::Bv(1) && b == Sort::Bv(1) {
            Some(Sort::Bv(1))
        } else {
            None
        },
        BiOpType::Eq | BiOpType::Neq => if a == b {
            Some(Sort::Bv(1))
        } else {
            None
        },
        BiOpType::Concat => match (a, b) {
            (Sort::Bv(n), Sort::Bv(m)) => if n + m <= usize::MAX {
                Some(Sort::Bv((n + m) as usize))
            } else {
                None
            },
            _ => None,
        },
        BiOpType::Read => match (a, b) {
            (Sort::Array(i, e), Sort::Bv(j)) => if i == j {
                Some(Sort::Bv(e))
            } else {
                None
            },
            _ => None,
        },
        _ => if a == b && a is Bv {
            if is_predicate(op) {
                Some(Sort::Bv(1))
            } else {
                Some(a)
            }
        } else {
            None
        },
    }
}

pub open spec fn tri_sort(op: TriOpType, a: Sort, b: Sort, c: Sort) -> Option<Sort> {
    match op {
        TriOpType::Ite => if a == Sort::Bv(1) && b == c {
            Some(b)
        } else {
            None
        },
        TriOpType::Write => match (a, b, c) {
            (Sort::Array(i, e), Sort::Bv(j), Sort::Bv(f)) => if i == j && e == f {
                Some(a)
            } else {
                None
            },
            _ => None,
        },
    }
}

/// The sort of `op` applied to operands of the sorts `s`, or `None` where they
/// do not fit it.
pub open spec fn op_sort(op: OpKind, s: Seq<Sort>) -> Option<Sort> {
    if s.len() != op.arity() {
        None
    } else {
        match op {
            OpKind::Uni(u) => uni_sort(u, s[0]),
            OpKind::Bi(b) => bi_sort(b, s[0], s[1]),
            OpKind::Tri(t) => tri_sort(t, s[0], s[1], s[2]),
            OpKind::Uext(n) | OpKind::Sext(n) => match s[0] {
                Sort::Bv(w) => if w + n <= usize::MAX {
                    Some(Sort::Bv((w + n) as usize))
                } else {
                    None
                },
                _ => None,
            },
            OpKind::Slice(u, l) => match s[0] {
                Sort::Bv(w) => if l <= u && u < w {
                    Some(Sort::Bv((u - l + 1) as usize))
                } else {
                    None
                },
                _ => None,
            },
        }
    }
}

fn uni_sort_exec(op: UniOpType, a: Sort) -> (r: Option<Sort>)
    ensures
        r == uni_sort(op, a),
{
    match a {
        Sort::Bv(_) => match op {
            UniOpType::Redand | UniOpType::Redor | UniOpType::Redxor => Some(Sort::Bv(1)),
            _ => Some(a),
        },
        Sort::Array(_, _) => None,
    }
}

fn bi_sort_exec(op: BiOpType, a: Sort, b: Sort) -> (r: Option<Sort>)
    ensures
        r == bi_sort(op, a, b),
{
    match op {
        BiOpType::Iff | BiOpType::Implies => if a == Sort::Bv(1) && b == Sort::Bv(1) {
            Some(Sort::Bv(1))
        } else {
            None
        },
        BiOpType::Eq | BiOpType::Neq => if a == b {
            Some(Sort::Bv(1))
        } else {
            None
        },
        BiOpType::Concat => match (a, b) {
            (Sort::Bv(n), Sort::Bv(m)) => if n <= usize::MAX - m {
                Some(Sort::Bv(n + m))
            } else {
                None
            },
            _ => None,
        },
        BiOpType::Read => match (a, b) {
            (Sort::Array(i, e), Sort::Bv(j)) => if i == j {
                Some(Sort::Bv(e))
            } else {
                None
            },
            _ => None,
        },
        _ => if a == b && !a.is_array() {
            let p = match op {
                BiOpType::Sgt | BiOpType::Ugt | BiOpType::Sgte | BiOpType::Ugte | BiOpType::Slt
                | BiOpType::Ult | BiOpType::Slte | BiOpType::Ulte | BiOpType::Saddo
                | BiOpType::Uaddo | BiOpType::Sdivo | BiOpType::Udivo | BiOpType::Smulo
                | BiOpType::Umulo | BiOpType::Ssubo | BiOpType::Usubo => true,
                _ => false,
            };
            if p {
                Some(Sort::Bv(1))
            } else {
                Some(a)
            }
        } else {
            None
        },
    }
}

fn tri_sort_exec(op: TriOpType, a: Sort, b: Sort, c: Sort) -> (r: Option<Sort>)
    ensures
        r == tri_sort(op, a, b, c),
{
    match op {
        TriOpType::Ite => if a == Sort::Bv(1) && b == c {
            Some(b)
        } else {
            None
        },
        TriOpType::Write => match (a, b, c) {
            (Sort::Array(i, e), Sort::Bv(j), Sort::Bv(f)) => if i == j && e == f {
                Some(a)
            } else {
                None
            },
            _ => None,
        },
    }
}

/// The sort of `op` applied to operands of the sorts `s`.
pub fn op_sort_exec(op: OpKind, s: &Vec<Sort>) -> (r: Option<Sort>)
    ensures
        r == op_sort(op, s@),
{
    let n: usize = match op {
        OpKind::Bi(_) => 2,
        OpKind::Tri(_) => 3,
        _ => 1,
    };
    if s.len() != n {
        return None;
    }
    match op {
        OpKind::Uni(u) => uni_sort_exec(u, s[0]),
        OpKind::Bi(b) => bi_sort_exec(b, s[0], s[1]),
        OpKind::Tri(t) => tri_sort_exec(t, s[0], s[1], s[2]),
        OpKind::Uext(n) | OpKind::Sext(n) => match s[0] {
            Sort::Bv(w) => if w <= usize::MAX - n {
                Some(Sort::Bv(w + n))
            } else {
                None
            },
            _ => None,
        },
        OpKind::Slice(u, l) => match s[0] {
            Sort::Bv(w) => if l <= u && u < w {
                Some(Sort::Bv(u - l + 1))
            } else {
                None
            },
            _ => None,
        },
    }
}


/// The node table: each node is stored once, and a request for a node that is
/// already there returns the existing one.
pub struct TermTable {
    pub nodes: Vec<TermNode>,
}

impl View for TermTable {
    type V = Seq<NodeView>;

    open spec fn view(&self) -> Seq<NodeView> {
        self.nodes@.map_values(|n: TermNode| n@)
    }
}

/// A node that may stand at position `at` of a table: operands refer to
/// earlier nodes, and a variable carries its own position.
pub open spec fn node_fits(n: NodeView, at: int) -> bool {
    match n {
        NodeView::Var(_, k) => k == at,
        NodeView::Const(b) => b.len() > 0,
        NodeView::Op(_, _, a) => forall|k: int| 0 <= k < a.len() ==> (#[trigger] a[k]).node < at,
    }
}

/// Nodes are pairwise distinct and each fits its position.
pub open spec fn table_wf(t: Seq<NodeView>) -> bool {
    &&& forall|i: int, j: int| 0 <= i < j < t.len() ==> t[i] != t[j]
    &&& forall|i: int| 0 <= i < t.len() ==> node_fits(#[trigger] t[i], i)
    &&& forall|i: int| 0 <= i < t.len() ==> node_sorted(#[trigger] t[i], t)
}

/// The sorts of the operands `a` in table `t`.
pub open spec fn arg_sorts(t: Seq<NodeView>, a: Seq<Term>) -> Seq<Sort> {
    a.map_values(|x: Term| node_sort(t[x.node as int]))
}

/// An operation node carries the sort that its operator gives its operands.
pub open spec fn node_sorted(n: NodeView, t: Seq<NodeView>) -> bool {
    match n {
        NodeView::Op(op, s, a) => op_sort(op, arg_sorts(t, a)) == Some(s),
        _ => true,
    }
}

/// Appending a new node that fits and is well sorted keeps a table well formed.
proof fn lemma_push_wf(t: Seq<NodeView>, n: NodeView)
    requires
        table_wf(t),
        node_fits(n, t.len() as int),
        node_sorted(n, t),
        forall|i: int| 0 <= i < t.len() ==> t[i] != n,
    ensures
        table_wf(t.push(n)),
{
    let u = t.push(n);
    assert forall|i: int| 0 <= i < u.len() implies node_sorted(#[trigger] u[i], u) by {
        let m = u[i];
        assert(node_fits(m, i));
        if i < t.len() {
            assert(node_sorted(t[i], t));
        }
        match m {
            NodeView::Op(op, s, a) => {
                assert(arg_sorts(u, a) =~= arg_sorts(t, a)) by {
                    assert forall|k: int| 0 <= k < a.len() implies u[(#[trigger] a[k]).node as int]
                        == t[a[k].node as int] by {
                        assert(a[k].node < i);
                    }
                }
            },
            _ => {},
        }
    }
    assert forall|i: int| 0 <= i < u.len() implies node_fits(#[trigger] u[i], i) by {
        if i < t.len() {
            assert(u[i] == t[i]);
        }
    }
}

/// `b` holds the nodes of `a` at the same positions, and perhaps more.
pub open spec fn extends(a: Seq<NodeView>, b: Seq<NodeView>) -> bool {
    &&& a.len() <= b.len()
    &&& forall|i: int| 0 <= i < a.len() ==> b[i] == a[i]
}

/// The table after a request for node `n`, and the position that answers it.
pub open spec fn interned(t: Seq<NodeView>, n: NodeView) -> (Seq<NodeView>, int) {
    if exists|i: int| 0 <= i < t.len() && t[i] == n {
        (t, choose|i: int| 0 <= i < t.len() && t[i] == n)
    } else {
        (t.push(n), t.len() as int)
    }
}

fn bits_eq(a: &Vec<bool>, b: &Vec<bool>) -> (r: bool)
    ensures
        r == (a@ == b@),
{
    if a.len() != b.len() {
        return false;
    }
    let mut i: usize = 0;
    while i < a.len()
        invariant
            i <= a.len() == b.len(),
            a@.take(i as int) == b@.take(i as int),
        decreases a.len() - i,
    {
        if a[i] != b[i] {
            return false;
        }
        assert(a@.take(i + 1) == a@.take(i as int).push(a@[i as int]));
        assert(b@.take(i + 1) == b@.take(i as int).push(b@[i as int]));
        i = i + 1;
    }
    assert(a@.take(i as int) == a@);
    assert(b@.take(i as int) == b@);
    true
}

fn terms_eq(a: &Vec<Term>, b: &Vec<Term>) -> (r: bool)
    ensures
        r == (a@ == b@),
{
    if a.len() != b.len() {
        return false;
    }
    let mut i: usize = 0;
    while i < a.len()
        invariant
            i <= a.len() == b.len(),
            a@.take(i as int) == b@.take(i as int),
        decreases a.len() - i,
    {
        if a[i] != b[i] {
            return false;
        }
        assert(a@.take(i + 1) == a@.take(i as int).push(a@[i as int]));
        assert(b@.take(i + 1) == b@.take(i as int).push(b@[i as int]));
        i = i + 1;
    }
    assert(a@.take(i as int) == a@);
    assert(b@.take(i as int) == b@);
    true
}

/// Structural equality of nodes.
pub fn node_eq(a: &TermNode, b: &TermNode) -> (r: bool)
    ensures
        r == (a@ == b@),
{
    match (a, b) {
        (TermNode::Var(s1, k1), TermNode::Var(s2, k2)) => *s1 == *s2 && *k1 == *k2,
        (TermNode::Const(x), TermNode::Const(y)) => bits_eq(x, y),
        (TermNode::Op(o1, s1, x), TermNode::Op(o2, s2, y)) => *o1 == *o2 && *s1 == *s2
            && terms_eq(x, y),
        _ => false,
    }
}

impl TermTable {
    pub open spec fn wf(&self) -> bool {
        table_wf(self@)
    }

    pub open spec fn valid(&self, t: Term) -> bool {
        t.node < self@.len()
    }

    /// The sort of a term; a complement has the sort of its node.
    pub open spec fn spec_sort(&self, t: Term) -> Sort {
        node_sort(self@[t.node as int])
    }

    pub fn new() -> (r: TermTable)
        ensures
            r@ == Seq::<NodeView>::empty(),
            r.wf(),
    {
        TermTable { nodes: Vec::new() }
    }

    pub fn len(&self) -> (r: usize)
        ensures
            r == self@.len(),
    {
        self.nodes.len()
    }

    pub fn node(&self, t: Term) -> (r: &TermNode)
        requires
            self.valid(t),
        ensures
            r@ == self@[t.node as int],
    {
        &self.nodes[t.node]
    }

    pub fn sort(&self, t: Term) -> (r: Sort)
        requires
            self.valid(t),
        ensures
            r == self.spec_sort(t),
    {
        match &self.nodes[t.node] {
            TermNode::Var(s, _) => *s,
            TermNode::Const(b) => Sort::Bv(b.len()),
            TermNode::Op(_, s, _) => *s,
        }
    }

    /// A fresh variable of sort `s`, distinct from every node so far.
    pub fn new_var(&mut self, s: Sort) -> (r: Term)
        requires
            old(self).wf(),
        ensures
            final(self).wf(),
            final(self)@ == old(self)@.push(NodeView::Var(s, old(self)@.len() as usize)),
            r == (Term { node: old(self)@.len() as usize, neg: false }),
            r.node == old(self)@.len(),
            extends(old(self)@, final(self)@),
    {
        let k = self.nodes.len();
        let ghost t0 = self@;
        assert forall|i: int| 0 <= i < t0.len() implies t0[i] != NodeView::Var(s, k) by {
            assert(node_fits(t0[i], i));
        }
        proof {
            lemma_push_wf(t0, NodeView::Var(s, k));
        }
        self.nodes.push(TermNode::Var(s, k));
        assert(self@ == t0.push(NodeView::Var(s, k)));
        Term { node: k, neg: false }
    }

    /// The term for node `n`: the existing one where the table holds it, a new
    /// one otherwise.
    pub fn intern(&mut self, n: TermNode) -> (r: Term)
        requires
            old(self).wf(),
            !(n@ is Var),
            node_fits(n@, old(self)@.len() as int),
            node_sorted(n@, old(self)@),
        ensures
            final(self).wf(),
            final(self)@ == interned(old(self)@, n@).0,
            r.node == interned(old(self)@, n@).1,
            !r.neg,
            final(self).valid(r),
            final(self)@[r.node as int] == n@,
            extends(old(self)@, final(self)@),
    {
        let mut i: usize = 0;
        while i < self.nodes.len()
            invariant
                i <= self.nodes.len(),
                self@ == old(self)@,
                self.wf(),
                forall|k: int| 0 <= k < i ==> self@[k] != n@,
            decreases self.nodes.len() - i,
        {
            if node_eq(&self.nodes[i], &n) {
                proof {
                    assert(self@[i as int] == n@);
                    assert(exists|j: int| 0 <= j < self@.len() && self@[j] == n@);
                    let j = choose|j: int| 0 <= j < self@.len() && self@[j] == n@;
                    assert(self@[i as int] == n@);
                    if j < i {
                        assert(self@[j] != self@[i as int]);
                    } else if j > i {
                        assert(self@[i as int] != self@[j]);
                    }
                }
                return Term { node: i, neg: false };
            }
            i = i + 1;
        }
        let ghost t0 = self@;
        proof {
            lemma_push_wf(t0, n@);
        }
        let k = self.nodes.len();
        self.nodes.push(n);
        assert(self@ == t0.push(n@));
        Term { node: k, neg: false }
    }

    /// The sorts of the terms `a`.
    pub open spec fn sorts_of(&self, a: Seq<Term>) -> Seq<Sort> {
        a.map_values(|t: Term| self.spec_sort(t))
    }

    pub open spec fn all_valid(&self, a: Seq<Term>) -> bool {
        forall|k: int| 0 <= k < a.len() ==> self.valid(#[trigger] a[k])
    }

    /// The constant with the bits `b`, least significant first.
    pub fn bv_const(&mut self, b: Vec<bool>) -> (r: Term)
        requires
            old(self).wf(),
            b@.len() > 0,
        ensures
            final(self).wf(),
            final(self)@ == interned(old(self)@, NodeView::Const(b@)).0,
            r.node == interned(old(self)@, NodeView::Const(b@)).1,
            !r.neg,
            final(self).valid(r),
            final(self)@[r.node as int] == NodeView::Const(b@),
            extends(old(self)@, final(self)@),
    {
        self.intern(TermNode::Const(b))
    }

    /// The operation `op` on the operands `args`; it fails with a sort
    /// mismatch where their sorts do not fit the operator.
    pub fn new_op(&mut self, op: OpKind, args: Vec<Term>) -> (r: Result<Term, ErrorKind>)
        requires
            old(self).wf(),
            old(self).all_valid(args@),
        ensures
            final(self).wf(),
            extends(old(self)@, final(self)@),
            match op_sort(op, old(self).sorts_of(args@)) {
                None => r == Err::<Term, ErrorKind>(ErrorKind::SortMismatch) && final(self)@
                    == old(self)@,
                Some(s) => r matches Ok(t) && !t.neg && final(self).valid(t) && t.node
                    == interned(old(self)@, NodeView::Op(op, s, args@)).1 && final(self)@
                    == interned(old(self)@, NodeView::Op(op, s, args@)).0 && final(self)@[t.node as int]
                    == NodeView::Op(op, s, args@),
            },
    {
        let mut sorts: Vec<Sort> = Vec::new();
        let mut i: usize = 0;
        while i < args.len()
            invariant
                i <= args.len(),
                self.all_valid(args@),
                sorts@ == self.sorts_of(args@.take(i as int)),
            decreases args.len() - i,
        {
            sorts.push(self.sort(args[i]));
            assert(args@.take(i + 1) == args@.take(i as int).push(args@[i as int]));
            i = i + 1;
        }
        assert(args@.take(i as int) == args@);
        match op_sort_exec(op, &sorts) {
            None => Err(ErrorKind::SortMismatch),
            Some(s) => {
                let ghost a = args@;
                assert(arg_sorts(self@, a) == self.sorts_of(a));
                let n = TermNode::Op(op, s, args);
                Ok(self.intern(n))
            },
        }
    }
}

} // verus!
