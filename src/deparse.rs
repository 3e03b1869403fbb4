//! The deparser: writes a transition system as canonical BTOR2 text. Sorts and
//! terms are emitted once each, operands before the lines that use them, and
//! lines are numbered densely from one.

use crate::literal::{binary_digits, body_value, decode_spec, digit_val, lit_body, lit_ok, padded_bits, zeros, ConstType};
use crate::model::get_key;
use crate::parse::{lemma_get_key_in, lookup_pair};
use crate::sort::Sort;
use crate::system::{btor_wf, Btor, BtorModel};
use crate::term::{node_fits, node_sort, table_wf, NodeView, OpKind, Term, TermNode, TermTable};
use crate::text::{chars_to_string, decimal, push_chars, push_decimal, push_str, ErrorKind};
use std::collections::HashMap;
use vstd::prelude::*;

verus! {

broadcast use vstd::std_specs::hash::group_hash_axioms;

/// The deparser's memo tables and the lines emitted so far (without ids).
pub ghost struct DState {
    pub sorts: Seq<(Sort, usize)>,
    pub terms: Map<usize, usize>,
    pub content: Seq<Seq<char>>,
}

/// The line number memoised for sort `k`, the latest entry first.
pub open spec fn sort_memo(s: Seq<(Sort, usize)>, k: Sort) -> Option<usize>
    decreases s.len(),
{
    if s.len() == 0 {
        None
    } else if s.last().0 == k {
        Some(s.last().1)
    } else {
        sort_memo(s.drop_last(), k)
    }
}

/// Appends a line; its number is the new count of lines.
pub open spec fn emit(st: DState, line: Seq<char>) -> (DState, usize) {
    let c = st.content.push(line);
    (DState { content: c, ..st }, c.len() as usize)
}

pub open spec fn sort_rank(s: Sort) -> nat {
    match s {
        Sort::Bv(_) => 0,
        Sort::Array(_, _) => 1,
    }
}

/// The line number of sort `s`, emitting its line (and those of its parts)
/// where it has none yet.
pub open spec fn emit_sort(st: DState, s: Sort) -> (DState, usize)
    decreases sort_rank(s),
{
    match sort_memo(st.sorts, s) {
        Some(id) => (st, id),
        None => match s {
            Sort::Bv(w) => {
                let (st1, id) = emit(st, "sort bitvec "@ + decimal(w as nat));
                (DState { sorts: st1.sorts.push((s, id)), ..st1 }, id)
            },
            Sort::Array(i, e) => {
                let (st1, a) = emit_sort(st, Sort::Bv(i));
                let (st2, b) = emit_sort(st1, Sort::Bv(e));
                let (st3, id) = emit(
                    st2,
                    "sort array "@ + decimal(a as nat) + " "@ + decimal(b as nat),
                );
                (DState { sorts: st3.sorts.push((s, id)), ..st3 }, id)
            },
        },
    }
}

/// A reference to line `id`; a complement is the negated id.
pub open spec fn ref_text(id: usize, neg: bool) -> Seq<char> {
    if neg {
        "-"@ + decimal(id as nat)
    } else {
        decimal(id as nat)
    }
}

/// Bits written most significant first.
pub open spec fn bits_text(b: Seq<bool>) -> Seq<char>
    decreases b.len(),
{
    if b.len() == 0 {
        Seq::empty()
    } else {
        bits_text(b.drop_first()).push(if b[0] { '1' } else { '0' })
    }
}

/// The value of bits read least significant first.
pub open spec fn bits_value(b: Seq<bool>) -> nat
    decreases b.len(),
{
    if b.len() == 0 {
        0
    } else {
        (if b[0] { 1nat } else { 0nat }) + 2 * bits_value(b.drop_first())
    }
}

proof fn lemma_bits_text_body(b: Seq<bool>)
    ensures
        bits_text(b).len() == b.len(),
        forall|i: int| 0 <= i < bits_text(b).len() ==> (#[trigger] bits_text(b)[i] == '0' || bits_text(b)[i] == '1'),
        body_value(bits_text(b), 2) == bits_value(b),
    decreases b.len(),
{
    if b.len() > 0 {
        let r = b.drop_first();
        lemma_bits_text_body(r);
        let t = bits_text(b);
        assert(t.drop_last() == bits_text(r));
        assert forall|i: int| 0 <= i < t.len() implies (#[trigger] t[i] == '0' || t[i] == '1') by {
            if i < t.len() - 1 {
                assert(t[i] == bits_text(r)[i]);
            }
        }
    }
}

proof fn lemma_bits_value_zero(b: Seq<bool>)
    requires
        bits_value(b) == 0,
    ensures
        b == zeros(b.len()),
    decreases b.len(),
{
    if b.len() > 0 {
        lemma_bits_value_zero(b.drop_first());
        assert(b == seq![false] + b.drop_first());
    }
}

proof fn lemma_bits_digits(b: Seq<bool>)
    requires
        b.len() > 0,
    ensures
        binary_digits(bits_value(b)).len() <= b.len(),
        padded_bits(bits_value(b), b.len()) == b,
    decreases b.len(),
{
    let r = b.drop_first();
    let n = bits_value(b);
    let v = bits_value(r);
    let b0: nat = if b[0] { 1 } else { 0 };
    assert(n == b0 + 2 * v);
    if v == 0 {
        lemma_bits_value_zero(r);
        assert(binary_digits(n) == seq![b0 as u8]);
        assert(padded_bits(n, b.len()) =~= b);
    } else {
        lemma_bits_digits(r);
        assert(n % 2 == b0 && n / 2 == v) by (nonlinear_arith)
            requires
                n == b0 + 2 * v,
                b0 < 2,
        ;
        assert(binary_digits(n) == seq![b0 as u8] + binary_digits(v));
        let d = binary_digits(v).map_values(|x: u8| x == 1);
        assert(binary_digits(n).map_values(|x: u8| x == 1) =~= seq![b[0]] + d);
        assert(padded_bits(v, r.len()) == d + zeros((r.len() - d.len()) as nat));
        assert(padded_bits(n, b.len()) =~= seq![b[0]] + padded_bits(v, r.len()));
        assert(b =~= seq![b[0]] + r);
    }
}

/// A constant written by the deparser reads back as the same bits: the
/// binary token of `b`, decoded at the width of `b`, is `b`.
pub proof fn lemma_constant_round_trip(b: Seq<bool>)
    requires
        b.len() > 0,
    ensures
        decode_spec(ConstType::Const, b.len(), bits_text(b)) == Some(b),
{
    let t = bits_text(b);
    lemma_bits_text_body(b);
    lemma_bits_digits(b);
    assert(t[0] == '0' || t[0] == '1');
    assert(lit_body(t) == t);
    assert forall|i: int| 0 <= i < t.len() implies #[trigger] t[i] == '_' || digit_val(t[i]) < 2 by {
        assert(t[i] == '0' || t[i] == '1');
    }
    assert(lit_ok(t, 2));
}

/// The keyword of an operator.
pub open spec fn op_text(op: OpKind) -> Seq<char> {
    match op {
        OpKind::Uni(u) => u.spec_name(),
        OpKind::Bi(b) => b.spec_name(),
        OpKind::Tri(t) => t.spec_name(),
        OpKind::Uext(_) => "uext"@,
        OpKind::Sext(_) => "sext"@,
        OpKind::Slice(_, _) => "slice"@,
    }
}

/// The integer fields that follow the operand of an extension or a slice.
pub open spec fn op_params(op: OpKind) -> Seq<char> {
    match op {
        OpKind::Uext(n) | OpKind::Sext(n) => " "@ + decimal(n as nat),
        OpKind::Slice(u, l) => " "@ + decimal(u as nat) + " "@ + decimal(l as nat),
        _ => Seq::empty(),
    }
}

/// The line number of node `k` of table `tm`, emitting its line (after its
/// sort and its operands) where it has none yet. A variable must have been
/// declared as an input or a state before.
pub open spec fn emit_term(st: DState, tm: Seq<NodeView>, k: usize) -> Result<(DState, usize), ErrorKind>
    decreases k, 2nat, 0nat,
{
    if st.terms.contains_key(k) {
        Ok((st, st.terms[k]))
    } else if k >= tm.len() {
        Err(ErrorKind::UndeclaredReference)
    } else {
        let (st1, sid) = emit_sort(st, node_sort(tm[k as int]));
        match tm[k as int] {
            NodeView::Var(_, _) => Err(ErrorKind::UndeclaredReference),
            NodeView::Const(b) => {
                let (st2, id) = emit(st1, "const "@ + decimal(sid as nat) + " "@ + bits_text(b));
                Ok((DState { terms: st2.terms.insert(k, id), ..st2 }, id))
            },
            NodeView::Op(op, _, args) => match emit_args(st1, tm, k, args, args.len()) {
                Err(e) => Err(e),
                Ok((st2, refs)) => {
                    let (st3, id) = emit(
                        st2,
                        op_text(op) + " "@ + decimal(sid as nat) + refs + op_params(op),
                    );
                    Ok((DState { terms: st3.terms.insert(k, id), ..st3 }, id))
                },
            },
        }
    }
}

/// The references to the first `n` operands of node `k`, each preceded by a
/// space, emitting their lines in order.
pub open spec fn emit_args(st: DState, tm: Seq<NodeView>, k: usize, args: Seq<Term>, n: nat) -> Result<
    (DState, Seq<char>),
    ErrorKind,
>
    decreases k, 1nat, n,
{
    if n == 0 || n > args.len() {
        Ok((st, Seq::empty()))
    } else {
        match emit_args(st, tm, k, args, (n - 1) as nat) {
            Err(e) => Err(e),
            Ok((st1, refs)) => {
                let a = args[n - 1];
                if a.node >= k {
                    Err(ErrorKind::UndeclaredReference)
                } else {
                    match emit_term(st1, tm, a.node) {
                        Err(e) => Err(e),
                        Ok((st2, id)) => Ok((st2, refs + " "@ + ref_text(id, a.neg))),
                    }
                }
            },
        }
    }
}

/// A reference to term `t`, emitting what it needs.
pub open spec fn emit_ref(st: DState, tm: Seq<NodeView>, t: Term) -> Result<(DState, Seq<char>), ErrorKind> {
    match emit_term(st, tm, t.node) {
        Err(e) => Err(e),
        Ok((st1, id)) => Ok((st1, ref_text(id, t.neg))),
    }
}


/// Declares an input: its sort, then an `input` line that the term's node
/// refers to from then on.
pub open spec fn input_step(st: DState, tm: Seq<NodeView>, t: Term) -> DState {
    let (st1, sid) = emit_sort(st, node_sort(tm[t.node as int]));
    let (st2, id) = emit(st1, "input "@ + decimal(sid as nat));
    DState { terms: st2.terms.insert(t.node, id), ..st2 }
}

/// The passes over the latches, in the order they run.
#[derive(Clone, Copy, PartialEq, Eq, Structural)]
pub enum LatchPass {
    /// The lines of each initial value, so that they precede the states.
    InitValue,
    /// The `state` line of each latch, which its node refers to from then on.
    State,
    /// The `init` line of each latch that has an initial value.
    Init,
    /// The `next` line of each latch.
    Next,
}

/// A line `kw <sid> <latch> <value>` for the latch `l` and the value `v`.
pub open spec fn rel_step(st: DState, b: BtorModel, l: Term, v: Term, kw: Seq<char>) -> Result<
    DState,
    ErrorKind,
> {
    let (st1, sid) = emit_sort(st, node_sort(b.tm[l.node as int]));
    match emit_ref(st1, b.tm, l) {
        Err(e) => Err(e),
        Ok((st2, lr)) => match emit_ref(st2, b.tm, v) {
            Err(e) => Err(e),
            Ok((st3, vr)) => Ok(emit(st3, kw + " "@ + decimal(sid as nat) + " "@ + lr + " "@ + vr).0),
        },
    }
}

/// What one pass does for the latch `l`.
pub open spec fn latch_step(st: DState, b: BtorModel, l: Term, pass: LatchPass) -> Result<
    DState,
    ErrorKind,
> {
    match pass {
        LatchPass::InitValue => match get_key(b.init, l) {
            None => Ok(st),
            Some(v) => {
                let (st1, _) = emit_sort(st, node_sort(b.tm[v.node as int]));
                match emit_ref(st1, b.tm, v) {
                    Err(e) => Err(e),
                    Ok((st2, _)) => Ok(st2),
                }
            },
        },
        LatchPass::State => {
            let (st1, sid) = emit_sort(st, node_sort(b.tm[l.node as int]));
            let (st2, lid) = emit(st1, "state "@ + decimal(sid as nat));
            Ok(DState { terms: st2.terms.insert(l.node, lid), ..st2 })
        },
        LatchPass::Init => match get_key(b.init, l) {
            None => Ok(st),
            Some(v) => rel_step(st, b, l, v, "init"@),
        },
        LatchPass::Next => match get_key(b.next, l) {
            None => Ok(st),
            Some(v) => rel_step(st, b, l, v, "next"@),
        },
    }
}

/// A `bad` or `constraint` line, after the lines its term needs.
pub open spec fn prop_step(st: DState, tm: Seq<NodeView>, t: Term, kw: Seq<char>) -> Result<
    DState,
    ErrorKind,
> {
    match emit_ref(st, tm, t) {
        Err(e) => Err(e),
        Ok((st1, r)) => Ok(emit(st1, kw + " "@ + r).0),
    }
}

pub open spec fn fold_inputs(st: DState, b: BtorModel, n: nat) -> DState
    decreases n,
{
    if n == 0 || n > b.input.len() {
        st
    } else {
        input_step(fold_inputs(st, b, (n - 1) as nat), b.tm, b.input[n - 1])
    }
}

/// One pass over the first `n` latches.
pub open spec fn fold_latches(st: DState, b: BtorModel, pass: LatchPass, n: nat) -> Result<
    DState,
    ErrorKind,
>
    decreases n,
{
    if n == 0 || n > b.latch.len() {
        Ok(st)
    } else {
        match fold_latches(st, b, pass, (n - 1) as nat) {
            Err(e) => Err(e),
            Ok(s1) => latch_step(s1, b, b.latch[n - 1], pass),
        }
    }
}

pub open spec fn fold_props(st: DState, tm: Seq<NodeView>, ts: Seq<Term>, kw: Seq<char>, n: nat) -> Result<
    DState,
    ErrorKind,
>
    decreases n,
{
    if n == 0 || n > ts.len() {
        Ok(st)
    } else {
        match fold_props(st, tm, ts, kw, (n - 1) as nat) {
            Err(e) => Err(e),
            Ok(s1) => prop_step(s1, tm, ts[n - 1], kw),
        }
    }
}

pub open spec fn empty_state() -> DState {
    DState { sorts: Seq::empty(), terms: Map::empty(), content: Seq::empty() }
}

/// The lines of a system in emission order: inputs; the initial values of
/// the latches; their states; their `init` lines; their transitions; bad
/// properties; constraints.
pub open spec fn deparse_state(b: BtorModel) -> Result<DState, ErrorKind> {
    let n = b.latch.len();
    let s1 = fold_inputs(empty_state(), b, b.input.len());
    match fold_latches(s1, b, LatchPass::InitValue, n) {
        Err(e) => Err(e),
        Ok(s2) => match fold_latches(s2, b, LatchPass::State, n) {
            Err(e) => Err(e),
            Ok(s3) => match fold_latches(s3, b, LatchPass::Init, n) {
                Err(e) => Err(e),
                Ok(s4) => match fold_latches(s4, b, LatchPass::Next, n) {
                    Err(e) => Err(e),
                    Ok(s5) => match fold_props(s5, b.tm, b.bad, "bad"@, b.bad.len()) {
                        Err(e) => Err(e),
                        Ok(s6) => fold_props(
                            s6,
                            b.tm,
                            b.constraint,
                            "constraint"@,
                            b.constraint.len(),
                        ),
                    },
                },
            },
        },
    }
}

/// The first `n` lines, each prefixed by its number and ended by a line break.
pub open spec fn numbered(c: Seq<Seq<char>>, n: nat) -> Seq<char>
    decreases n,
{
    if n == 0 || n > c.len() {
        Seq::empty()
    } else {
        numbered(c, (n - 1) as nat) + decimal(n) + " "@ + c[n - 1] + "\n"@
    }
}

/// The text of a system, or why it cannot be written.
pub open spec fn deparse_spec(b: BtorModel) -> Result<Seq<char>, ErrorKind> {
    match deparse_state(b) {
        Err(e) => Err(e),
        Ok(st) => Ok(numbered(st.content, st.content.len())),
    }
}

/// Writes bits most significant first.
fn push_bits(out: &mut Vec<char>, b: &Vec<bool>)
    ensures
        final(out)@ == old(out)@ + bits_text(b@),
{
    let ghost start = out@;
    let mut i: usize = b.len();
    assert(b@.skip(i as int) == Seq::<bool>::empty());
    while i > 0
        invariant
            i <= b.len(),
            out@ == start + bits_text(b@.skip(i as int)),
        decreases i,
    {
        let ghost sfx = b@.skip(i - 1);
        assert(sfx.drop_first() == b@.skip(i as int));
        assert(sfx[0] == b@[i - 1]);
        if b[i - 1] {
            out.push('1');
        } else {
            out.push('0');
        }
        i = i - 1;
    }
    assert(b@.skip(0) == b@);
}

/// Writes a reference to line `id`.
fn push_ref(out: &mut Vec<char>, id: usize, neg: bool)
    ensures
        final(out)@ == old(out)@ + ref_text(id, neg),
{
    let ghost start = out@;
    if neg {
        out.push('-');
        proof {
            reveal_strlit("-");
        }
        assert(out@ == start + "-"@);
    }
    push_decimal(out, id);
    if neg {
        assert(out@ == start + ("-"@ + decimal(id as nat)));
    }
}

fn op_keyword(op: OpKind) -> (r: &'static str)
    ensures
        r@ == op_text(op),
{
    match op {
        OpKind::Uni(u) => u.name(),
        OpKind::Bi(b) => b.name(),
        OpKind::Tri(t) => t.name(),
        OpKind::Uext(_) => "uext",
        OpKind::Sext(_) => "sext",
        OpKind::Slice(_, _) => "slice",
    }
}

fn push_op_params(out: &mut Vec<char>, op: OpKind)
    ensures
        final(out)@ == old(out)@ + op_params(op),
{
    let ghost start = out@;
    match op {
        OpKind::Uext(n) | OpKind::Sext(n) => {
            push_str(out, " ");
            push_decimal(out, n);
            assert(out@ == start + (" "@ + decimal(n as nat)));
        },
        OpKind::Slice(u, l) => {
            push_str(out, " ");
            push_decimal(out, u);
            push_str(out, " ");
            push_decimal(out, l);
            assert(out@ == start + (" "@ + decimal(u as nat) + " "@ + decimal(l as nat)));
        },
        _ => {
            assert(out@ == start + Seq::<char>::empty());
        },
    }
}

proof fn lemma_emit_args_err(
    st: DState,
    tm: Seq<NodeView>,
    k: usize,
    args: Seq<Term>,
    j: nat,
    n: nat,
)
    requires
        j <= n <= args.len(),
        emit_args(st, tm, k, args, j) is Err,
    ensures
        emit_args(st, tm, k, args, n) == emit_args(st, tm, k, args, j),
    decreases n - j,
{
    if j < n {
        lemma_emit_args_err(st, tm, k, args, j, (n - 1) as nat);
    }
}

proof fn lemma_fold_latches_err(st: DState, b: BtorModel, pass: LatchPass, j: nat, n: nat)
    requires
        j <= n <= b.latch.len(),
        fold_latches(st, b, pass, j) is Err,
    ensures
        fold_latches(st, b, pass, n) == fold_latches(st, b, pass, j),
    decreases n - j,
{
    if j < n {
        lemma_fold_latches_err(st, b, pass, j, (n - 1) as nat);
    }
}

proof fn lemma_fold_props_err(
    st: DState,
    tm: Seq<NodeView>,
    ts: Seq<Term>,
    kw: Seq<char>,
    j: nat,
    n: nat,
)
    requires
        j <= n <= ts.len(),
        fold_props(st, tm, ts, kw, j) is Err,
    ensures
        fold_props(st, tm, ts, kw, n) == fold_props(st, tm, ts, kw, j),
    decreases n - j,
{
    if j < n {
        lemma_fold_props_err(st, tm, ts, kw, j, (n - 1) as nat);
    }
}

/// Emits sorts and terms once each and numbers the lines.
pub struct Deparser {
    sorts: Vec<(Sort, usize)>,
    terms: HashMap<usize, usize>,
    content: Vec<Vec<char>>,
}

impl View for Deparser {
    type V = DState;

    closed spec fn view(&self) -> DState {
        DState {
            sorts: self.sorts@,
            terms: self.terms@,
            content: self.content@.map_values(|l: Vec<char>| l@),
        }
    }
}

impl Deparser {
    pub fn new() -> (r: Deparser)
        ensures
            r@ == empty_state(),
    {
        let r = Deparser { sorts: Vec::new(), terms: HashMap::new(), content: Vec::new() };
        assert(r@.content == Seq::<Seq<char>>::empty());
        r
    }

    fn find_sort(&self, s: Sort) -> (r: Option<usize>)
        ensures
            r == sort_memo(self@.sorts, s),
    {
        let mut i: usize = self.sorts.len();
        assert(self@.sorts.take(i as int) == self@.sorts);
        while i > 0
            invariant
                i <= self.sorts.len(),
                sort_memo(self@.sorts, s) == sort_memo(self@.sorts.take(i as int), s),
            decreases i,
        {
            let ghost t = self@.sorts.take(i as int);
            assert(t.drop_last() == self@.sorts.take(i - 1));
            if self.sorts[i - 1].0 == s {
                return Some(self.sorts[i - 1].1);
            }
            i = i - 1;
        }
        None
    }

    fn push_line(&mut self, line: Vec<char>) -> (r: usize)
        ensures
            (final(self)@, r) == emit(old(self)@, line@),
    {
        let ghost before = self@;
        self.content.push(line);
        assert(self@.content == before.content.push(line@));
        self.content.len()
    }

    fn get_sort_id(&mut self, s: Sort) -> (r: usize)
        ensures
            (final(self)@, r) == emit_sort(old(self)@, s),
        decreases sort_rank(s),
    {
        match self.find_sort(s) {
            Some(id) => id,
            None => {
                let mut line: Vec<char> = Vec::new();
                match s {
                    Sort::Bv(w) => {
                        push_str(&mut line, "sort bitvec ");
                        push_decimal(&mut line, w);
                    },
                    Sort::Array(i, e) => {
                        let a = self.get_sort_id(Sort::Bv(i));
                        let b = self.get_sort_id(Sort::Bv(e));
                        push_str(&mut line, "sort array ");
                        push_decimal(&mut line, a);
                        push_str(&mut line, " ");
                        push_decimal(&mut line, b);
                    },
                }
                let id = self.push_line(line);
                self.sorts.push((s, id));
                id
            },
        }
    }

    fn get_term_id(&mut self, tm: &TermTable, k: usize) -> (r: Result<usize, ErrorKind>)
        requires
            tm.wf(),
        ensures
            match emit_term(old(self)@, tm@, k) {
                Ok((st, id)) => r == Ok::<usize, ErrorKind>(id) && final(self)@ == st,
                Err(e) => r == Err::<usize, ErrorKind>(e),
            },
        decreases k,
    {
        let ghost s0 = self@;
        match self.terms.get(&k) {
            Some(id) => {
                return Ok(*id);
            },
            None => {},
        }
        if k >= tm.len() {
            return Err(ErrorKind::UndeclaredReference);
        }
        let me = Term { node: k, neg: false };
        let sid = self.get_sort_id(tm.sort(me));
        let ghost st1 = self@;
        match tm.node(me) {
            TermNode::Var(_, _) => Err(ErrorKind::UndeclaredReference),
            TermNode::Const(b) => {
                let mut line: Vec<char> = Vec::new();
                push_str(&mut line, "const ");
                push_decimal(&mut line, sid);
                push_str(&mut line, " ");
                push_bits(&mut line, b);
                let id = self.push_line(line);
                self.terms.insert(k, id);
                Ok(id)
            },
            TermNode::Op(op, _, args) => {
                assert(node_fits(tm@[k as int], k as int));
                let mut line: Vec<char> = Vec::new();
                push_str(&mut line, op_keyword(*op));
                push_str(&mut line, " ");
                push_decimal(&mut line, sid);
                let ghost head = line@;
                let ghost mut refs: Seq<char> = Seq::empty();
                let mut j: usize = 0;
                while j < args.len()
                    invariant
                        tm.wf(),
                        j <= args.len(),
                        k < tm@.len(),
                        tm@[k as int] == NodeView::Op(*op, node_sort(tm@[k as int]), args@),
                        st1 == emit_sort(s0, node_sort(tm@[k as int])).0,
                        !s0.terms.contains_key(k),
                        s0 == old(self)@,
                        forall|q: int| 0 <= q < args@.len() ==> (#[trigger] args@[q]).node < k,
                        emit_args(st1, tm@, k, args@, j as nat) == Ok::<(DState, Seq<char>), ErrorKind>(
                            (self@, refs),
                        ),
                        line@ == head + refs,
                    decreases args.len() - j,
                {
                    let a = args[j];
                    let ghost before = self@;
                    match self.get_term_id(tm, a.node) {
                        Ok(id) => {
                            push_str(&mut line, " ");
                            push_ref(&mut line, id, a.neg);
                            proof {
                                refs = refs + " "@ + ref_text(id, a.neg);
                            }
                        },
                        Err(e) => {
                            proof {
                                assert(emit_term(before, tm@, a.node) == Err::<(DState, usize), ErrorKind>(e));
                                assert(emit_args(st1, tm@, k, args@, (j + 1) as nat) == Err::<(DState, Seq<char>), ErrorKind>(e));
                                lemma_emit_args_err(st1, tm@, k, args@, (j + 1) as nat, args@.len());
                            }
                            return Err(e);
                        },
                    }
                    j = j + 1;
                }
                push_op_params(&mut line, *op);
                let id = self.push_line(line);
                self.terms.insert(k, id);
                Ok(id)
            },
        }
    }

    /// Appends to `line` a reference to `t`, emitting what it needs.
    fn term_ref(&mut self, tm: &TermTable, t: Term, line: &mut Vec<char>) -> (r: Result<(), ErrorKind>)
        requires
            tm.wf(),
        ensures
            match emit_ref(old(self)@, tm@, t) {
                Ok((st, txt)) => r is Ok && final(self)@ == st && final(line)@ == old(line)@ + txt,
                Err(e) => r == Err::<(), ErrorKind>(e),
            },
    {
        match self.get_term_id(tm, t.node) {
            Ok(id) => {
                push_ref(line, id, t.neg);
                Ok(())
            },
            Err(e) => Err(e),
        }
    }

    fn input_line(&mut self, tm: &TermTable, t: Term)
        requires
            tm.valid(t),
        ensures
            final(self)@ == input_step(old(self)@, tm@, t),
    {
        let sid = self.get_sort_id(tm.sort(t));
        let mut line: Vec<char> = Vec::new();
        push_str(&mut line, "input ");
        push_decimal(&mut line, sid);
        let id = self.push_line(line);
        self.terms.insert(t.node, id);
    }

    fn rel_line(&mut self, b: &Btor, l: Term, v: Term, kw: &str) -> (r: Result<(), ErrorKind>)
        requires
            b.wf(),
            b.tm.valid(l),
        ensures
            match rel_step(old(self)@, b@, l, v, kw@) {
                Ok(st) => r is Ok && final(self)@ == st,
                Err(e) => r == Err::<(), ErrorKind>(e),
            },
    {
        let sid = self.get_sort_id(b.tm.sort(l));
        let mut line: Vec<char> = Vec::new();
        push_str(&mut line, kw);
        push_str(&mut line, " ");
        push_decimal(&mut line, sid);
        push_str(&mut line, " ");
        match self.term_ref(&b.tm, l, &mut line) {
            Ok(()) => {},
            Err(e) => {
                return Err(e);
            },
        }
        push_str(&mut line, " ");
        match self.term_ref(&b.tm, v, &mut line) {
            Ok(()) => {},
            Err(e) => {
                return Err(e);
            },
        }
        self.push_line(line);
        Ok(())
    }

    fn latch_line(&mut self, b: &Btor, l: Term, pass: LatchPass) -> (r: Result<(), ErrorKind>)
        requires
            b.wf(),
            b.tm.valid(l),
        ensures
            match latch_step(old(self)@, b@, l, pass) {
                Ok(st) => r is Ok && final(self)@ == st,
                Err(e) => r == Err::<(), ErrorKind>(e),
            },
    {
        match pass {
            LatchPass::InitValue => match lookup_pair(&b.init, l) {
                None => Ok(()),
                Some(v) => {
                    proof {
                        lemma_get_key_in(b@.init, l);
                    }
                    self.get_sort_id(b.tm.sort(v));
                    let mut scratch: Vec<char> = Vec::new();
                    self.term_ref(&b.tm, v, &mut scratch)
                },
            },
            LatchPass::State => {
                let sid = self.get_sort_id(b.tm.sort(l));
                let mut line: Vec<char> = Vec::new();
                push_str(&mut line, "state ");
                push_decimal(&mut line, sid);
                let lid = self.push_line(line);
                self.terms.insert(l.node, lid);
                Ok(())
            },
            LatchPass::Init => match lookup_pair(&b.init, l) {
                None => Ok(()),
                Some(v) => self.rel_line(b, l, v, "init"),
            },
            LatchPass::Next => match lookup_pair(&b.next, l) {
                None => Ok(()),
                Some(v) => self.rel_line(b, l, v, "next"),
            },
        }
    }

    fn prop_line(&mut self, tm: &TermTable, t: Term, kw: &str) -> (r: Result<(), ErrorKind>)
        requires
            tm.wf(),
        ensures
            match prop_step(old(self)@, tm@, t, kw@) {
                Ok(st) => r is Ok && final(self)@ == st,
                Err(e) => r == Err::<(), ErrorKind>(e),
            },
    {
        let mut line: Vec<char> = Vec::new();
        push_str(&mut line, kw);
        push_str(&mut line, " ");
        match self.term_ref(tm, t, &mut line) {
            Ok(()) => {},
            Err(e) => {
                return Err(e);
            },
        }
        self.push_line(line);
        Ok(())
    }

    fn props(&mut self, tm: &TermTable, ts: &Vec<Term>, kw: &str) -> (r: Result<(), ErrorKind>)
        requires
            tm.wf(),
        ensures
            match fold_props(old(self)@, tm@, ts@, kw@, ts@.len()) {
                Ok(st) => r is Ok && final(self)@ == st,
                Err(e) => r == Err::<(), ErrorKind>(e),
            },
    {
        let mut i: usize = 0;
        while i < ts.len()
            invariant
                tm.wf(),
                i <= ts.len(),
                fold_props(old(self)@, tm@, ts@, kw@, i as nat) == Ok::<DState, ErrorKind>(self@),
            decreases ts.len() - i,
        {
            match self.prop_line(tm, ts[i], kw) {
                Ok(()) => {},
                Err(e) => {
                    proof {
                        lemma_fold_props_err(old(self)@, tm@, ts@, kw@, (i + 1) as nat, ts@.len());
                    }
                    return Err(e);
                },
            }
            i = i + 1;
        }
        Ok(())
    }

    fn inputs(&mut self, b: &Btor)
        requires
            b.wf(),
        ensures
            final(self)@ == fold_inputs(old(self)@, b@, b@.input.len()),
    {
        let mut i: usize = 0;
        while i < b.input.len()
            invariant
                b.wf(),
                i <= b.input.len(),
                fold_inputs(old(self)@, b@, i as nat) == self@,
            decreases b.input.len() - i,
        {
            self.input_line(&b.tm, b.input[i]);
            i = i + 1;
        }
    }

    fn latches(&mut self, b: &Btor, pass: LatchPass) -> (r: Result<(), ErrorKind>)
        requires
            b.wf(),
        ensures
            match fold_latches(old(self)@, b@, pass, b@.latch.len()) {
                Ok(st) => r is Ok && final(self)@ == st,
                Err(e) => r == Err::<(), ErrorKind>(e),
            },
    {
        let mut i: usize = 0;
        while i < b.latch.len()
            invariant
                b.wf(),
                i <= b.latch.len(),
                fold_latches(old(self)@, b@, pass, i as nat) == Ok::<DState, ErrorKind>(self@),
            decreases b.latch.len() - i,
        {
            match self.latch_line(b, b.latch[i], pass) {
                Ok(()) => {},
                Err(e) => {
                    proof {
                        lemma_fold_latches_err(old(self)@, b@, pass, (i + 1) as nat, b@.latch.len());
                    }
                    return Err(e);
                },
            }
            i = i + 1;
        }
        Ok(())
    }

    fn render(&self) -> (r: Vec<char>)
        ensures
            r@ == numbered(self@.content, self@.content.len()),
    {
        let mut out: Vec<char> = Vec::new();
        let mut k: usize = 0;
        while k < self.content.len()
            invariant
                k <= self.content.len(),
                out@ == numbered(self@.content, k as nat),
            decreases self.content.len() - k,
        {
            push_decimal(&mut out, k + 1);
            push_str(&mut out, " ");
            push_chars(&mut out, &self.content[k]);
            push_str(&mut out, "\n");
            k = k + 1;
        }
        out
    }

    /// The BTOR2 text of `btor`, with lines numbered from one; it fails where
    /// a term refers to a variable that is neither an input nor a latch.
    pub fn deparse(&mut self, btor: &Btor) -> (r: Result<String, ErrorKind>)
        requires
            btor.wf(),
        ensures
            match deparse_spec(btor@) {
                Ok(t) => r matches Ok(s) && s@ == t,
                Err(e) => r == Err::<String, ErrorKind>(e),
            },
    {
        self.sorts = Vec::new();
        self.terms = HashMap::new();
        self.content = Vec::new();
        assert(self@.content == Seq::<Seq<char>>::empty());
        assert(self@ == empty_state());
        self.inputs(btor);
        match self.latches(btor, LatchPass::InitValue) {
            Ok(()) => {},
            Err(e) => {
                return Err(e);
            },
        }
        match self.latches(btor, LatchPass::State) {
            Ok(()) => {},
            Err(e) => {
                return Err(e);
            },
        }
        match self.latches(btor, LatchPass::Init) {
            Ok(()) => {},
            Err(e) => {
                return Err(e);
            },
        }
        match self.latches(btor, LatchPass::Next) {
            Ok(()) => {},
            Err(e) => {
                return Err(e);
            },
        }
        match self.props(&btor.tm, &btor.bad, "bad") {
            Ok(()) => {},
            Err(e) => {
                return Err(e);
            },
        }
        match self.props(&btor.tm, &btor.constraint, "constraint") {
            Ok(()) => {},
            Err(e) => {
                return Err(e);
            },
        }
        let out = self.render();
        Ok(chars_to_string(&out))
    }
}

} // verus!
