//! The parser's state as a value, and what each line of BTOR2 text does to it.

use crate::literal::{decode_spec, one, ones, zeros, ConstType};
use crate::op::{BiOpType, TriOpType, UniOpType};
use crate::sort::Sort;
use crate::system::{latch_invariants, BtorModel};
use crate::term::{interned, node_sort, op_sort, NodeView, OpKind, Term};
use crate::text::{isize_value, lines, tokens, usize_value, ErrorKind};
use vstd::prelude::*;

verus! {

/// What the parser has read so far.
pub ghost struct ParseState {
    pub sorts: Map<usize, Sort>,
    pub nodes: Map<usize, Term>,
    pub tm: Seq<NodeView>,
    pub input: Seq<Term>,
    pub latch: Seq<Term>,
    pub init: Seq<(Term, Term)>,
    pub next: Seq<(Term, Term)>,
    pub output: Seq<Term>,
    pub bad: Seq<Term>,
    pub constraint: Seq<Term>,
    pub symbols: Seq<(Term, Seq<char>)>,
}

/// Bit-vector widths are positive.
pub open spec fn sort_ok(s: Sort) -> bool {
    match s {
        Sort::Bv(w) => w > 0,
        Sort::Array(i, e) => i > 0 && e > 0,
    }
}

pub open spec fn sort_of(m: ParseState, t: Term) -> Sort {
    node_sort(m.tm[t.node as int])
}

/// Whether the pairs `s` have a pair with key `k`.
pub open spec fn has_key<V>(s: Seq<(Term, V)>, k: Term) -> bool {
    exists|i: int| 0 <= i < s.len() && (#[trigger] s[i]).0 == k
}

/// The first position of key `k` in `s`.
pub open spec fn first_key<V>(s: Seq<(Term, V)>, k: Term, i: int) -> bool {
    &&& 0 <= i < s.len()
    &&& s[i].0 == k
    &&& forall|j: int| 0 <= j < i ==> (#[trigger] s[j]).0 != k
}

/// The value of key `k` in `s`, if any.
pub open spec fn get_key<V>(s: Seq<(Term, V)>, k: Term) -> Option<V> {
    if has_key(s, k) {
        Some(s[choose|i: int| first_key(s, k, i)].1)
    } else {
        None
    }
}

/// `s` with key `k` mapped to `v`: its pair replaced where it has one,
/// appended otherwise.
pub open spec fn set_key<V>(s: Seq<(Term, V)>, k: Term, v: V) -> Seq<(Term, V)> {
    if has_key(s, k) {
        s.update(choose|i: int| first_key(s, k, i), (k, v))
    } else {
        s.push((k, v))
    }
}

/// The token at position `i`, if the line has one.
pub open spec fn tok(toks: Seq<Seq<char>>, i: int) -> Option<Seq<char>> {
    if 0 <= i < toks.len() {
        Some(toks[i])
    } else {
        None
    }
}

/// An unsigned field at position `i`.
pub open spec fn field(toks: Seq<Seq<char>>, i: int) -> Option<usize> {
    match tok(toks, i) {
        Some(t) => usize_value(t),
        None => None,
    }
}

/// The sort named by the field at position `i`.
pub open spec fn get_sort(m: ParseState, toks: Seq<Seq<char>>, i: int) -> Result<Sort, ErrorKind> {
    match field(toks, i) {
        None => Err(ErrorKind::MalformedLine),
        Some(s) => if m.sorts.contains_key(s) {
            Ok(m.sorts[s])
        } else {
            Err(ErrorKind::UndeclaredReference)
        },
    }
}

/// The term named by the signed reference at position `i`: a negative
/// reference is the complement of the node.
pub open spec fn get_node(m: ParseState, toks: Seq<Seq<char>>, i: int) -> Result<Term, ErrorKind> {
    match tok(toks, i) {
        None => Err(ErrorKind::MalformedLine),
        Some(t) => match isize_value(t) {
            None => Err(ErrorKind::MalformedLine),
            Some(n) => {
                let a = (if n < 0 {
                    -n
                } else {
                    n as int
                }) as usize;
                if m.nodes.contains_key(a) {
                    if n < 0 {
                        Ok(m.nodes[a].spec_not())
                    } else {
                        Ok(m.nodes[a])
                    }
                } else {
                    Err(ErrorKind::UndeclaredReference)
                }
            },
        },
    }
}

/// A symbol at position `i`, unless the line ends there or a comment starts.
pub open spec fn symbol(m: ParseState, t: Term, toks: Seq<Seq<char>>, i: int) -> ParseState {
    match tok(toks, i) {
        Some(s) => if s.len() > 0 && s[0] != ';' {
            ParseState { symbols: m.symbols.push((t, s)), ..m }
        } else {
            m
        },
        None => m,
    }
}

/// Records `t` under node id `id`, which must be new.
pub open spec fn define(m: ParseState, id: usize, t: Term) -> Result<ParseState, ErrorKind> {
    if m.nodes.contains_key(id) {
        Err(ErrorKind::DuplicateId)
    } else {
        Ok(ParseState { nodes: m.nodes.insert(id, t), ..m })
    }
}

/// `sort bitvec <w>` or `sort array <i> <e>`.
pub open spec fn sort_line(m: ParseState, id: usize, toks: Seq<Seq<char>>) -> Result<
    ParseState,
    ErrorKind,
> {
    let s: Result<Sort, ErrorKind> = if tok(toks, 2) == Some("bitvec"@) {
        match field(toks, 3) {
            Some(w) => if w > 0 {
                Ok(Sort::Bv(w))
            } else {
                Err(ErrorKind::InvalidSort)
            },
            None => Err(ErrorKind::InvalidSort),
        }
    } else if tok(toks, 2) == Some("array"@) {
        match (field(toks, 3), field(toks, 4)) {
            (Some(i), Some(e)) => if !m.sorts.contains_key(i) || !m.sorts.contains_key(e) {
                Err(ErrorKind::UndeclaredReference)
            } else {
                match (m.sorts[i], m.sorts[e]) {
                    (Sort::Bv(a), Sort::Bv(b)) => Ok(Sort::Array(a, b)),
                    _ => Err(ErrorKind::InvalidSort),
                }
            },
            _ => Err(ErrorKind::InvalidSort),
        }
    } else {
        Err(ErrorKind::InvalidSort)
    };
    match s {
        Err(e) => Err(e),
        Ok(s) => if m.sorts.contains_key(id) {
            Err(ErrorKind::DuplicateId)
        } else {
            Ok(ParseState { sorts: m.sorts.insert(id, s), ..m })
        },
    }
}

/// `input <sid>` or `state <sid>`: a fresh variable of the sort.
pub open spec fn var_line(m: ParseState, id: usize, toks: Seq<Seq<char>>, is_state: bool) -> Result<
    ParseState,
    ErrorKind,
> {
    match get_sort(m, toks, 2) {
        Err(e) => Err(e),
        Ok(s) => {
            let v = Term { node: m.tm.len() as usize, neg: false };
            let tm = m.tm.push(NodeView::Var(s, m.tm.len() as usize));
            let m1 = if is_state {
                ParseState { tm, latch: m.latch.push(v), ..m }
            } else {
                ParseState { tm, input: m.input.push(v), ..m }
            };
            define(symbol(m1, v, toks, 3), id, v)
        },
    }
}

/// `init <sid> <state> <value>` or `next <sid> <state> <value>`: the state and
/// the value both have the declared sort.
pub open spec fn rel_line(m: ParseState, toks: Seq<Seq<char>>, is_next: bool) -> Result<
    ParseState,
    ErrorKind,
> {
    match (get_sort(m, toks, 2), get_node(m, toks, 3), get_node(m, toks, 4)) {
        (Err(e), _, _) => Err(e),
        (_, Err(e), _) => Err(e),
        (_, _, Err(e)) => Err(e),
        (Ok(s), Ok(st), Ok(v)) => if sort_of(m, st) != s || sort_of(m, v) != s {
            Err(ErrorKind::SortMismatch)
        } else if is_next {
            Ok(ParseState { next: set_key(m.next, st, v), ..m })
        } else {
            Ok(ParseState { init: set_key(m.init, st, v), ..m })
        },
    }
}

/// Which list an `output`, `bad` or `constraint` line adds to.
#[derive(Clone, Copy)]
pub enum Role {
    Output,
    Bad,
    Constraint,
}

/// `output <ref>`, `bad <ref>` or `constraint <ref>`.
pub open spec fn role_line(m: ParseState, toks: Seq<Seq<char>>, role: Role) -> Result<
    ParseState,
    ErrorKind,
> {
    match get_node(m, toks, 2) {
        Err(e) => Err(e),
        Ok(t) => {
            let m1 = symbol(m, t, toks, 3);
            Ok(
                match role {
                    Role::Output => ParseState { output: m1.output.push(t), ..m1 },
                    Role::Bad => ParseState { bad: m1.bad.push(t), ..m1 },
                    Role::Constraint => ParseState { constraint: m1.constraint.push(t), ..m1 },
                },
            )
        },
    }
}

/// The state after interning the constant `b` and defining `id` as it, with a
/// symbol at position `i`.
pub open spec fn const_node(m: ParseState, id: usize, b: Seq<bool>, toks: Seq<Seq<char>>, i: int) -> Result<
    ParseState,
    ErrorKind,
> {
    let (tm, k) = interned(m.tm, NodeView::Const(b));
    let t = Term { node: k as usize, neg: false };
    define(symbol(ParseState { tm, ..m }, t, toks, i), id, t)
}

/// The constant sugar of a line: `zero`, `one` or `ones`.
#[derive(Clone, Copy)]
pub enum Sugar {
    Zero,
    One,
    Ones,
}

/// `const`, `constd`, `consth` (with a literal) and `zero`, `one`, `ones`.
pub open spec fn const_line(m: ParseState, id: usize, toks: Seq<Seq<char>>, lit: Option<ConstType>, sugar: Sugar) -> Result<
    ParseState,
    ErrorKind,
> {
    match get_sort(m, toks, 2) {
        Err(e) => Err(e),
        Ok(Sort::Array(_, _)) => Err(ErrorKind::SortMismatch),
        Ok(Sort::Bv(w)) => match lit {
            Some(ty) => match tok(toks, 3) {
                None => Err(ErrorKind::MalformedLiteral),
                Some(t) => match decode_spec(ty, w as nat, t) {
                    None => Err(ErrorKind::MalformedLiteral),
                    Some(b) => const_node(m, id, b, toks, 4),
                },
            },
            None => const_node(
                m,
                id,
                match sugar {
                    Sugar::Zero => zeros(w as nat),
                    Sugar::One => one(w as nat),
                    Sugar::Ones => ones(w as nat),
                },
                toks,
                3,
            ),
        },
    }
}

/// The node for `op` on `args`, whose sort must be the declared `s`, defined
/// as `id`; a symbol may follow at position `i`.
pub open spec fn op_node(m: ParseState, id: usize, s: Sort, op: OpKind, args: Seq<Term>, toks: Seq<Seq<char>>, i: int) -> Result<
    ParseState,
    ErrorKind,
> {
    match op_sort(op, args.map_values(|t: Term| sort_of(m, t))) {
        None => Err(ErrorKind::SortMismatch),
        Some(r) => if r != s {
            Err(ErrorKind::SortMismatch)
        } else {
            let (tm, k) = interned(m.tm, NodeView::Op(op, r, args));
            let t = Term { node: k as usize, neg: false };
            define(symbol(ParseState { tm, ..m }, t, toks, i), id, t)
        },
    }
}

/// The operands at positions 3 up to 3 + `k`.
pub open spec fn operands(m: ParseState, toks: Seq<Seq<char>>, k: nat) -> Result<Seq<Term>, ErrorKind>
    decreases k,
{
    if k == 0 {
        Ok(Seq::empty())
    } else {
        match operands(m, toks, (k - 1) as nat) {
            Err(e) => Err(e),
            Ok(a) => match get_node(m, toks, 3 + k - 1) {
                Err(e) => Err(e),
                Ok(t) => Ok(a.push(t)),
            },
        }
    }
}

/// An operator family named by a keyword.
#[derive(Clone, Copy)]
pub enum OpName {
    Uni(UniOpType),
    Bi(BiOpType),
    Tri(TriOpType),
    Uext,
    Sext,
    Slice,
}

pub open spec fn op_name(kw: Seq<char>) -> Option<OpName> {
    match (UniOpType::spec_from_name(kw), BiOpType::spec_from_name(kw), TriOpType::spec_from_name(kw)) {
        (Some(u), _, _) => Some(OpName::Uni(u)),
        (_, Some(b), _) => Some(OpName::Bi(b)),
        (_, _, Some(t)) => Some(OpName::Tri(t)),
        _ => if kw == "uext"@ {
            Some(OpName::Uext)
        } else if kw == "sext"@ {
            Some(OpName::Sext)
        } else if kw == "slice"@ {
            Some(OpName::Slice)
        } else {
            None
        },
    }
}

/// An operator line. An extension by zero bits builds no node: the id names
/// the operand itself, which takes the symbol.
pub open spec fn op_line(m: ParseState, id: usize, toks: Seq<Seq<char>>) -> Result<
    ParseState,
    ErrorKind,
> {
    match op_name(toks[1]) {
        None => Err(ErrorKind::MalformedLine),
        Some(name) => match get_sort(m, toks, 2) {
            Err(e) => Err(e),
            Ok(s) => match name {
                OpName::Uext | OpName::Sext => match get_node(m, toks, 3) {
                    Err(e) => Err(e),
                    Ok(a) => match field(toks, 4) {
                        None => Err(ErrorKind::MalformedLine),
                        Some(n) => if n == 0 {
                            if sort_of(m, a) != s {
                                Err(ErrorKind::SortMismatch)
                            } else {
                                define(symbol(m, a, toks, 5), id, a)
                            }
                        } else {
                            op_node(
                                m,
                                id,
                                s,
                                if name is Uext {
                                    OpKind::Uext(n)
                                } else {
                                    OpKind::Sext(n)
                                },
                                seq![a],
                                toks,
                                5,
                            )
                        },
                    },
                },
                OpName::Slice => match get_node(m, toks, 3) {
                    Err(e) => Err(e),
                    Ok(a) => match (field(toks, 4), field(toks, 5)) {
                        (Some(u), Some(l)) => op_node(m, id, s, OpKind::Slice(u, l), seq![a], toks, 6),
                        _ => Err(ErrorKind::MalformedLine),
                    },
                },
                OpName::Uni(u) => match operands(m, toks, 1) {
                    Err(e) => Err(e),
                    Ok(a) => op_node(m, id, s, OpKind::Uni(u), a, toks, 4),
                },
                OpName::Bi(b) => match operands(m, toks, 2) {
                    Err(e) => Err(e),
                    Ok(a) => op_node(m, id, s, OpKind::Bi(b), a, toks, 5),
                },
                OpName::Tri(t) => match operands(m, toks, 3) {
                    Err(e) => Err(e),
                    Ok(a) => op_node(m, id, s, OpKind::Tri(t), a, toks, 6),
                },
            },
        },
    }
}

/// One line, split into its tokens (at least one).
pub open spec fn stmt(m: ParseState, toks: Seq<Seq<char>>) -> Result<ParseState, ErrorKind> {
    match (usize_value(toks[0]), tok(toks, 1)) {
        (None, _) => Err(ErrorKind::MalformedLine),
        (_, None) => Err(ErrorKind::MalformedLine),
        (Some(id), Some(kw)) => if kw == "sort"@ {
            sort_line(m, id, toks)
        } else if kw == "input"@ {
            var_line(m, id, toks, false)
        } else if kw == "state"@ {
            var_line(m, id, toks, true)
        } else if kw == "init"@ {
            rel_line(m, toks, false)
        } else if kw == "next"@ {
            rel_line(m, toks, true)
        } else if kw == "output"@ {
            role_line(m, toks, Role::Output)
        } else if kw == "bad"@ {
            role_line(m, toks, Role::Bad)
        } else if kw == "constraint"@ {
            role_line(m, toks, Role::Constraint)
        } else if kw == "const"@ {
            const_line(m, id, toks, Some(ConstType::Const), Sugar::Zero)
        } else if kw == "constd"@ {
            const_line(m, id, toks, Some(ConstType::Constd), Sugar::Zero)
        } else if kw == "consth"@ {
            const_line(m, id, toks, Some(ConstType::Consth), Sugar::Zero)
        } else if kw == "zero"@ {
            const_line(m, id, toks, None, Sugar::Zero)
        } else if kw == "one"@ {
            const_line(m, id, toks, None, Sugar::One)
        } else if kw == "ones"@ {
            const_line(m, id, toks, None, Sugar::Ones)
        } else {
            op_line(m, id, toks)
        },
    }
}

/// One line of text: comment lines and blank lines change nothing.
#[verifier::opaque]
pub open spec fn line_step(m: ParseState, line: Seq<char>) -> Result<ParseState, ErrorKind> {
    if line.len() > 0 && line[0] == ';' {
        Ok(m)
    } else if tokens(line).len() == 0 {
        Ok(m)
    } else {
        stmt(m, tokens(line))
    }
}


/// Where parsing failed: the 1-based number of the offending line (0 for a
/// fault of the system as a whole), and the kind of failure.
#[derive(Debug, Clone, Copy, PartialEq, Eq, Structural)]
pub struct ParseError {
    pub line: usize,
    pub kind: ErrorKind,
}

/// The state after the lines `ls` from position `i` on, or the first error.
pub open spec fn run(m: ParseState, ls: Seq<Seq<char>>, i: int) -> Result<ParseState, ParseError>
    decreases ls.len() - i,
{
    if i < 0 || i >= ls.len() {
        Ok(m)
    } else {
        match line_step(m, ls[i]) {
            Err(e) => Err(ParseError { line: (i + 1) as usize, kind: e }),
            Ok(m2) => run(m2, ls, i + 1),
        }
    }
}

/// The states kept as latches: those with a transition.
pub open spec fn kept(m: ParseState) -> Seq<Term> {
    m.latch.filter(|l: Term| has_key(m.next, l))
}

/// The states that become inputs: those without a transition.
pub open spec fn freed(m: ParseState) -> Seq<Term> {
    m.latch.filter(|l: Term| !has_key(m.next, l))
}

/// The system once all lines are read. A state without a transition becomes
/// an input; an initial value for anything but a state with a transition, or
/// a transition of anything but a state, is inconsistent.
pub open spec fn finish(m: ParseState) -> Result<BtorModel, ErrorKind> {
    if exists|i: int| 0 <= i < m.init.len() && !kept(m).contains((#[trigger] m.init[i]).0) {
        Err(ErrorKind::InconsistentLatch)
    } else if exists|i: int| 0 <= i < m.next.len() && !m.latch.contains((#[trigger] m.next[i]).0) {
        Err(ErrorKind::InconsistentLatch)
    } else {
        Ok(
            BtorModel {
                tm: m.tm,
                input: m.input + freed(m),
                latch: kept(m),
                init: m.init,
                next: m.next,
                bad: m.bad,
                constraint: m.constraint,
                symbols: m.symbols,
            },
        )
    }
}

/// The system that the text `s` describes, read from the state `m`, or the
/// first error.
pub open spec fn parse_spec(m: ParseState, s: Seq<char>) -> Result<BtorModel, ParseError> {
    match run(m, lines(s), 0) {
        Err(e) => Err(e),
        Ok(m2) => match finish(m2) {
            Err(k) => Err(ParseError { line: 0, kind: k }),
            Ok(b) => Ok(b),
        },
    }
}

/// An extension by zero bits builds no node: the line's id names the operand's
/// own term, the node table is left as it was, and a symbol on the line goes
/// to the operand's term.
pub proof fn lemma_extension_elision(m: ParseState, id: usize, toks: Seq<Seq<char>>, a: Term)
    requires
        op_name(toks[1]) == Some(OpName::Uext) || op_name(toks[1]) == Some(OpName::Sext),
        get_sort(m, toks, 2) == Ok::<Sort, ErrorKind>(sort_of(m, a)),
        get_node(m, toks, 3) == Ok::<Term, ErrorKind>(a),
        field(toks, 4) == Some(0usize),
        !m.nodes.contains_key(id),
    ensures
        op_line(m, id, toks) == Ok::<ParseState, ErrorKind>(
            ParseState { nodes: m.nodes.insert(id, a), ..symbol(m, a, toks, 5) },
        ),
        op_line(m, id, toks)->Ok_0.tm == m.tm,
        op_line(m, id, toks)->Ok_0.nodes[id] == a,
{
}

/// A negative reference `-k` names the complement of node `k`'s term, and
/// complementing that again gives the term itself.
pub proof fn lemma_signed_reference(m: ParseState, toks: Seq<Seq<char>>, i: int, n: isize, k: usize)
    requires
        0 <= i < toks.len(),
        isize_value(toks[i]) == Some(n),
        n < 0,
        k == -n,
        m.nodes.contains_key(k),
    ensures
        get_node(m, toks, i) == Ok::<Term, ErrorKind>(m.nodes[k].spec_not()),
        get_node(m, toks, i)->Ok_0.spec_not() == m.nodes[k],
{
}

/// Every system that parsing yields keeps latches and transitions in one to
/// one correspondence, and gives initial values to latches only.
pub proof fn lemma_finish_invariants(m: ParseState)
    requires
        finish(m) is Ok,
    ensures
        latch_invariants(finish(m)->Ok_0),
{
    broadcast use vstd::seq_lib::group_filter_ensures;

    let b = finish(m)->Ok_0;
    let kp = |x: Term| has_key(m.next, x);
    assert forall|i: int| 0 <= i < b.latch.len() implies has_key(b.next, #[trigger] b.latch[i]) by {
        assert(kp(kept(m)[i]));
    }
    assert forall|i: int| 0 <= i < b.next.len() implies b.latch.contains((#[trigger] b.next[i]).0) by {
        let l = m.next[i].0;
        assert(m.latch.contains(l));
        let j = choose|j: int| 0 <= j < m.latch.len() && m.latch[j] == l;
        assert(has_key(m.next, l));
        assert(kp(m.latch[j]));
    }
}

/// A state with a transition stays a latch; one without becomes an input and
/// is no latch; one with an initial value and no transition is refused.
pub proof fn lemma_reclassify(m: ParseState, l: Term)
    requires
        m.latch.contains(l),
    ensures
        has_key(m.next, l) && finish(m) is Ok ==> finish(m)->Ok_0.latch.contains(l),
        !has_key(m.next, l) && finish(m) is Ok ==> finish(m)->Ok_0.input.contains(l)
            && !finish(m)->Ok_0.latch.contains(l),
        !has_key(m.next, l) && has_key(m.init, l) ==> finish(m) == Err::<BtorModel, ErrorKind>(
            ErrorKind::InconsistentLatch,
        ),
{
    broadcast use vstd::seq_lib::group_filter_ensures;

    let i = choose|i: int| 0 <= i < m.latch.len() && m.latch[i] == l;
    let kp = |x: Term| has_key(m.next, x);
    let fp = |x: Term| !has_key(m.next, x);
    if has_key(m.next, l) {
        assert(kp(m.latch[i]));
    } else {
        assert(fp(m.latch[i]));
        assert(freed(m).contains(l));
        let b = m.input + freed(m);
        let j = choose|j: int| 0 <= j < freed(m).len() && freed(m)[j] == l;
        assert(b[m.input.len() + j] == l);
        if kept(m).contains(l) {
            let k = choose|k: int| 0 <= k < kept(m).len() && kept(m)[k] == l;
            assert(kp(kept(m)[k]));
        }
        if has_key(m.init, l) {
            let k = choose|k: int| 0 <= k < m.init.len() && (#[trigger] m.init[k]).0 == l;
            assert(!kept(m).contains(m.init[k].0));
        }
    }
}

} // verus!
