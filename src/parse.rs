//! The parser: one pass over the lines of BTOR2 text, building the sort table,
//! the node table and the parts of the transition system.

use crate::literal::{decode_literal, lemma_decode_len, one_bits, ones_bits, zero_bits, ConstType};
use crate::op::{BiOpType, TriOpType, UniOpType};
use crate::term::OpKind;
use crate::model::{
    const_node, op_node, op_name, operands, OpName, sort_of,
    const_line, define, field, first_key, get_node, get_sort, has_key, op_line, rel_line, role_line,
    get_key, lemma_finish_invariants, set_key, sort_line, sort_ok, finish, freed, kept, parse_spec, run, ParseError, stmt, symbol, var_line, line_step, ParseState, Role, Sugar,
};
use crate::sort::Sort;
use crate::term::{extends, table_wf, Term, TermTable};
use crate::system::{system_invariants, Btor, BtorModel};
use crate::text::{lines, chars_of, split_lines, split_tokens, tok_is, parse_signed_id, parse_id, ErrorKind};
use std::collections::HashMap;
use vstd::prelude::*;

verus! {

broadcast use vstd::std_specs::hash::group_hash_axioms;

/// The tokens of a line as values.
pub open spec fn tv(toks: &Vec<Vec<char>>) -> Seq<Seq<char>> {
    toks@.map_values(|t: Vec<char>| t@)
}

pub open spec fn all_below(s: Seq<Term>, n: int) -> bool {
    forall|i: int| 0 <= i < s.len() ==> (#[trigger] s[i]).node < n
}

pub open spec fn pairs_below<V>(s: Seq<(Term, V)>, n: int) -> bool {
    forall|i: int| 0 <= i < s.len() ==> (#[trigger] s[i]).0.node < n
}

pub open spec fn values_below(s: Seq<(Term, Term)>, n: int) -> bool {
    forall|i: int| 0 <= i < s.len() ==> (#[trigger] s[i]).1.node < n
}

/// Every term the state holds names a node of its table.
pub open spec fn state_ok(m: ParseState) -> bool {
    let n = m.tm.len() as int;
    &&& table_wf(m.tm)
    &&& forall|k: usize| #[trigger] m.sorts.contains_key(k) ==> sort_ok(m.sorts[k])
    &&& forall|k: usize| #[trigger] m.nodes.contains_key(k) ==> m.nodes[k].node < n
    &&& all_below(m.input, n)
    &&& all_below(m.latch, n)
    &&& pairs_below(m.init, n)
    &&& values_below(m.init, n)
    &&& pairs_below(m.next, n)
    &&& values_below(m.next, n)
    &&& all_below(m.output, n)
    &&& all_below(m.bad, n)
    &&& all_below(m.constraint, n)
    &&& pairs_below(m.symbols, n)
    &&& pairs_sorted(m, m.init)
    &&& pairs_sorted(m, m.next)
    &&& (m.input + m.latch).no_duplicates()
}

/// Each pair joins terms of one sort.
pub open spec fn pairs_sorted(m: ParseState, s: Seq<(Term, Term)>) -> bool {
    forall|i: int| 0 <= i < s.len() ==> sort_of(m, (#[trigger] s[i]).0) == sort_of(m, s[i].1)
}

proof fn lemma_set_key_sorted(m: ParseState, s: Seq<(Term, Term)>, k: Term, v: Term)
    requires
        pairs_sorted(m, s),
        sort_of(m, k) == sort_of(m, v),
    ensures
        pairs_sorted(m, set_key(s, k, v)),
{
    let r = set_key(s, k, v);
    if has_key(s, k) {
        lemma_first_key_exists(s, k);
        let i = choose|i: int| first_key(s, k, i);
        assert forall|j: int| 0 <= j < r.len() implies sort_of(m, (#[trigger] r[j]).0) == sort_of(
            m,
            r[j].1,
        ) by {
            if j != i {
                assert(r[j] == s[j]);
            }
        }
    } else {
        assert forall|j: int| 0 <= j < r.len() implies sort_of(m, (#[trigger] r[j]).0) == sort_of(
            m,
            r[j].1,
        ) by {
            if j < s.len() {
                assert(r[j] == s[j]);
            }
        }
    }
}

/// Adding a new element to either part of a sequence without duplicates
/// keeps it without duplicates.
proof fn lemma_no_dup_push(a: Seq<Term>, b: Seq<Term>, x: Term)
    requires
        (a + b).no_duplicates(),
        !a.contains(x),
        !b.contains(x),
    ensures
        (a.push(x) + b).no_duplicates(),
        (a + b.push(x)).no_duplicates(),
{
    let s = a + b;
    let u = a.push(x) + b;
    let w = a + b.push(x);
    assert forall|i: int, j: int|
        0 <= i < u.len() && 0 <= j < u.len() && i != j implies u[i] != u[j] by {
        let na = a.len() as int;
        if i == na {
            if j < na {
                assert(u[j] == a[j]);
            } else {
                assert(u[j] == b[j - na - 1]);
            }
        } else if j == na {
            if i < na {
                assert(u[i] == a[i]);
            } else {
                assert(u[i] == b[i - na - 1]);
            }
        } else {
            let i2 = if i < na { i } else { i - 1 };
            let j2 = if j < na { j } else { j - 1 };
            assert(u[i] == s[i2] && u[j] == s[j2]);
        }
    }
    assert forall|i: int, j: int|
        0 <= i < w.len() && 0 <= j < w.len() && i != j implies w[i] != w[j] by {
        let n = s.len() as int;
        let na = a.len() as int;
        if i == n {
            if j < na {
                assert(w[j] == a[j]);
            } else {
                assert(w[j] == b[j - na]);
            }
        } else if j == n {
            if i < na {
                assert(w[i] == a[i]);
            } else {
                assert(w[i] == b[i - na]);
            }
        } else {
            assert(w[i] == s[i] && w[j] == s[j]);
        }
    }
}

/// Sorts of terms already in a table stay as they are when the table grows.
proof fn lemma_grown_sorted(a: ParseState, b: ParseState, s: Seq<(Term, Term)>)
    requires
        pairs_sorted(a, s),
        pairs_below(s, a.tm.len() as int),
        values_below(s, a.tm.len() as int),
        extends(a.tm, b.tm),
    ensures
        pairs_sorted(b, s),
{
    assert forall|i: int| 0 <= i < s.len() implies sort_of(b, (#[trigger] s[i]).0) == sort_of(
        b,
        s[i].1,
    ) by {
        assert(b.tm[s[i].0.node as int] == a.tm[s[i].0.node as int]);
        assert(b.tm[s[i].1.node as int] == a.tm[s[i].1.node as int]);
    }
}

/// A parser: the tables of one parse, and what it has collected.
pub struct Parser {
    sorts: HashMap<usize, Sort>,
    nodes: HashMap<usize, Term>,
    tm: TermTable,
    input: Vec<Term>,
    latch: Vec<Term>,
    init: Vec<(Term, Term)>,
    next: Vec<(Term, Term)>,
    output: Vec<Term>,
    bad: Vec<Term>,
    constraint: Vec<Term>,
    symbols: Vec<(Term, String)>,
}

impl View for Parser {
    type V = ParseState;

    closed spec fn view(&self) -> ParseState {
        ParseState {
            sorts: self.sorts@,
            nodes: self.nodes@,
            tm: self.tm@,
            input: self.input@,
            latch: self.latch@,
            init: self.init@,
            next: self.next@,
            output: self.output@,
            bad: self.bad@,
            constraint: self.constraint@,
            symbols: self.symbols@.map_values(|p: (Term, String)| (p.0, p.1@)),
        }
    }
}

/// Reads the unsigned field at position `i`.
fn read_field(toks: &Vec<Vec<char>>, i: usize) -> (r: Option<usize>)
    ensures
        r == field(tv(toks), i as int),
{
    if i < toks.len() {
        parse_id(&toks[i])
    } else {
        None
    }
}

/// The position of the first pair with key `k`.
fn find_key<V>(s: &Vec<(Term, V)>, k: Term) -> (r: Option<usize>)
    ensures
        r matches Some(i) ==> first_key(s@, k, i as int),
        r is None ==> !has_key(s@, k),
{
    let mut i: usize = 0;
    while i < s.len()
        invariant
            i <= s.len(),
            forall|j: int| 0 <= j < i ==> (#[trigger] s@[j]).0 != k,
        decreases s.len() - i,
    {
        if s[i].0 == k {
            return Some(i);
        }
        i = i + 1;
    }
    None
}

proof fn lemma_first_key_unique<V>(s: Seq<(Term, V)>, k: Term, i: int, j: int)
    requires
        first_key(s, k, i),
        first_key(s, k, j),
    ensures
        i == j,
{
    if i < j {
        assert(s[i].0 != k);
    } else if j < i {
        assert(s[j].0 != k);
    }
}

proof fn lemma_first_key_exists<V>(s: Seq<(Term, V)>, k: Term)
    requires
        has_key(s, k),
    ensures
        exists|i: int| first_key(s, k, i),
    decreases s.len(),
{
    if s[0].0 == k {
        assert(first_key(s, k, 0));
    } else {
        let t = s.drop_first();
        let w = choose|i: int| 0 <= i < s.len() && (#[trigger] s[i]).0 == k;
        assert(t[w - 1] == s[w]);
        lemma_first_key_exists(t, k);
        let i = choose|i: int| first_key(t, k, i);
        assert forall|j: int| 0 <= j < i + 1 implies (#[trigger] s[j]).0 != k by {
            if j > 0 {
                assert(s[j] == t[j - 1]);
            }
        }
        assert(first_key(s, k, i + 1));
    }
}

proof fn lemma_set_key_below(s: Seq<(Term, Term)>, k: Term, v: Term, n: int)
    requires
        pairs_below(s, n),
        values_below(s, n),
        k.node < n,
        v.node < n,
    ensures
        pairs_below(set_key(s, k, v), n),
        values_below(set_key(s, k, v), n),
{
    let r = set_key(s, k, v);
    if has_key(s, k) {
        lemma_first_key_exists(s, k);
        let i = choose|i: int| first_key(s, k, i);
        assert forall|j: int| 0 <= j < r.len() implies (#[trigger] r[j]).0.node < n && r[j].1.node
            < n by {
            if j != i {
                assert(r[j] == s[j]);
            }
        }
    } else {
        assert forall|j: int| 0 <= j < r.len() implies (#[trigger] r[j]).0.node < n && r[j].1.node
            < n by {
            if j < s.len() {
                assert(r[j] == s[j]);
            }
        }
    }
}

proof fn lemma_operands_err(m: ParseState, toks: Seq<Seq<char>>, j: nat, k: nat)
    requires
        j <= k,
        operands(m, toks, j) is Err,
    ensures
        operands(m, toks, k) == operands(m, toks, j),
    decreases k - j,
{
    if j < k {
        lemma_operands_err(m, toks, j, (k - 1) as nat);
    }
}

fn contains_term(v: &Vec<Term>, t: Term) -> (r: bool)
    ensures
        r == v@.contains(t),
{
    let mut i: usize = 0;
    while i < v.len()
        invariant
            i <= v.len(),
            forall|j: int| 0 <= j < i ==> v@[j] != t,
        decreases v.len() - i,
    {
        if v[i] == t {
            return true;
        }
        i = i + 1;
    }
    false
}

/// A value that `get_key` finds is the value of one of the pairs.
pub(crate) proof fn lemma_get_key_in<V>(s: Seq<(Term, V)>, k: Term)
    requires
        has_key(s, k),
    ensures
        exists|i: int| 0 <= i < s.len() && (#[trigger] s[i]).1 == get_key(s, k)->Some_0,
{
    lemma_first_key_exists(s, k);
    let i = choose|i: int| first_key(s, k, i);
    assert(s[i].1 == get_key(s, k)->Some_0);
}

/// The value of key `k` in the pairs `s`.
pub(crate) fn lookup_pair(s: &Vec<(Term, Term)>, k: Term) -> (r: Option<Term>)
    ensures
        r == get_key(s@, k),
{
    match find_key(s, k) {
        Some(i) => {
            proof {
                let j = choose|j: int| first_key(s@, k, j);
                lemma_first_key_unique(s@, k, i as int, j);
            }
            Some(s[i].1)
        },
        None => None,
    }
}

/// Maps `k` to `v` in the pairs `s`.
fn set_pair(s: &mut Vec<(Term, Term)>, k: Term, v: Term)
    ensures
        final(s)@ == set_key(old(s)@, k, v),
{
    match find_key(s, k) {
        Some(i) => {
            proof {
                let j = choose|j: int| first_key(old(s)@, k, j);
                lemma_first_key_unique(old(s)@, k, i as int, j);
            }
            s.set(i, (k, v));
        },
        None => {
            s.push((k, v));
        },
    }
}

impl Parser {
    pub closed spec fn inv(&self) -> bool {
        &&& state_ok(self@)
        &&& self.tm.wf()
    }

    pub fn new() -> (r: Parser)
        ensures
            r.inv(),
            r@.sorts == Map::<usize, Sort>::empty(),
            r@.nodes == Map::<usize, Term>::empty(),
            r@.tm.len() == 0,
            r@.input.len() == 0,
            r@.latch.len() == 0,
            r@.init.len() == 0,
            r@.next.len() == 0,
            r@.output.len() == 0,
            r@.bad.len() == 0,
            r@.constraint.len() == 0,
            r@.symbols.len() == 0,
    {
        Parser {
            sorts: HashMap::new(),
            nodes: HashMap::new(),
            tm: TermTable::new(),
            input: Vec::new(),
            latch: Vec::new(),
            init: Vec::new(),
            next: Vec::new(),
            output: Vec::new(),
            bad: Vec::new(),
            constraint: Vec::new(),
            symbols: Vec::new(),
        }
    }

    fn get_sort(&self, toks: &Vec<Vec<char>>, i: usize) -> (r: Result<Sort, ErrorKind>)
        requires
            self.inv(),
        ensures
            r == get_sort(self@, tv(toks), i as int),
            r matches Ok(s) ==> sort_ok(s),
    {
        match read_field(toks, i) {
            None => Err(ErrorKind::MalformedLine),
            Some(s) => match self.sorts.get(&s) {
                Some(x) => Ok(*x),
                None => Err(ErrorKind::UndeclaredReference),
            },
        }
    }

    fn get_node(&self, toks: &Vec<Vec<char>>, i: usize) -> (r: Result<Term, ErrorKind>)
        requires
            self.inv(),
        ensures
            r == get_node(self@, tv(toks), i as int),
            r matches Ok(t) ==> self.tm.valid(t),
    {
        if i >= toks.len() {
            return Err(ErrorKind::MalformedLine);
        }
        match parse_signed_id(&toks[i]) {
            None => Err(ErrorKind::MalformedLine),
            Some(n) => {
                let a: usize = if n >= 0 {
                    n as usize
                } else if n == isize::MIN {
                    (isize::MAX as usize) + 1
                } else {
                    (-n) as usize
                };
                match self.nodes.get(&a) {
                    Some(t) => {
                        if n < 0 {
                            Ok(t.not())
                        } else {
                            Ok(*t)
                        }
                    },
                    None => Err(ErrorKind::UndeclaredReference),
                }
            },
        }
    }

    /// Attaches the symbol at position `i`, if there is one, to `t`.
    fn parse_symbol(&mut self, t: Term, toks: &Vec<Vec<char>>, i: usize)
        requires
            old(self).inv(),
            old(self).tm.valid(t),
        ensures
            final(self)@ == symbol(old(self)@, t, tv(toks), i as int),
            final(self).inv(),
    {
        if i < toks.len() {
            let s = &toks[i];
            if s.len() > 0 && s[0] != ';' {
                let name = crate::text::chars_to_string(s);
                let ghost before = self.symbols@;
                self.symbols.push((t, name));
                assert(self.symbols@.map_values(|p: (Term, String)| (p.0, p.1@))
                    == before.map_values(|p: (Term, String)| (p.0, p.1@)).push((t, s@)));
            }
        }
    }

    /// Records `t` under node id `id`.
    fn define(&mut self, id: usize, t: Term) -> (r: Result<(), ErrorKind>)
        requires
            old(self).inv(),
            old(self).tm.valid(t),
        ensures
            match define(old(self)@, id, t) {
                Ok(m) => r is Ok && final(self)@ == m,
                Err(e) => r == Err::<(), ErrorKind>(e),
            },
            r is Ok ==> final(self).inv(),
    {
        if self.nodes.contains_key(&id) {
            return Err(ErrorKind::DuplicateId);
        }
        self.nodes.insert(id, t);
        Ok(())
    }

    fn sort_line(&mut self, id: usize, toks: &Vec<Vec<char>>) -> (r: Result<(), ErrorKind>)
        requires
            old(self).inv(),
        ensures
            match sort_line(old(self)@, id, tv(toks)) {
                Ok(m) => r is Ok && final(self)@ == m,
                Err(e) => r == Err::<(), ErrorKind>(e),
            },
            r is Ok ==> final(self).inv(),
    {
        let s: Sort;
        if toks.len() > 2 && tok_is(&toks[2], "bitvec") {
            match read_field(toks, 3) {
                Some(w) => {
                    if w > 0 {
                        s = Sort::Bv(w);
                    } else {
                        return Err(ErrorKind::InvalidSort);
                    }
                },
                None => {
                    return Err(ErrorKind::InvalidSort);
                },
            }
        } else if toks.len() > 2 && tok_is(&toks[2], "array") {
            match (read_field(toks, 3), read_field(toks, 4)) {
                (Some(i), Some(e)) => {
                    match (self.sorts.get(&i), self.sorts.get(&e)) {
                        (Some(a), Some(b)) => match (*a, *b) {
                            (Sort::Bv(x), Sort::Bv(y)) => {
                                assert(self@.sorts.contains_key(i) && self@.sorts.contains_key(e));
                                assert(sort_ok(self@.sorts[i]) && sort_ok(self@.sorts[e]));
                                s = Sort::Array(x, y);
                            },
                            _ => {
                                return Err(ErrorKind::InvalidSort);
                            },
                        },
                        _ => {
                            return Err(ErrorKind::UndeclaredReference);
                        },
                    }
                },
                _ => {
                    return Err(ErrorKind::InvalidSort);
                },
            }
        } else {
            return Err(ErrorKind::InvalidSort);
        }
        if self.sorts.contains_key(&id) {
            return Err(ErrorKind::DuplicateId);
        }
        assert(sort_ok(s));
        let ghost before = self@;
        self.sorts.insert(id, s);
        assert forall|k: usize| #[trigger] self@.sorts.contains_key(k) implies sort_ok(
            self@.sorts[k],
        ) by {
            if k != id {
                assert(before.sorts.contains_key(k));
            }
        }
        assert(state_ok(self@));
        Ok(())
    }

    fn var_line(&mut self, id: usize, toks: &Vec<Vec<char>>, is_state: bool) -> (r: Result<
        (),
        ErrorKind,
    >)
        requires
            old(self).inv(),
        ensures
            match var_line(old(self)@, id, tv(toks), is_state) {
                Ok(m) => r is Ok && final(self)@ == m,
                Err(e) => r == Err::<(), ErrorKind>(e),
            },
            r is Ok ==> final(self).inv(),
    {
        let s = match self.get_sort(toks, 2) {
            Ok(s) => s,
            Err(e) => {
                return Err(e);
            },
        };
        let ghost m0 = self@;
        assert(m0.tm == self.tm@);
        let v = self.tm.new_var(s);
        assert(v.node == m0.tm.len());
        proof {
            lemma_grown_sorted(m0, self@, m0.init);
            lemma_grown_sorted(m0, self@, m0.next);
        }
        if is_state {
            self.latch.push(v);
        } else {
            self.input.push(v);
        }
        proof {
            let old_vars = m0.input + m0.latch;
            let vars = self@.input + self@.latch;
            assert forall|i: int| 0 <= i < old_vars.len() implies (#[trigger] old_vars[i]) != v by {
                assert(state_ok(m0));
                assert(v.node == m0.tm.len());
                if i < m0.input.len() {
                    assert(old_vars[i] == m0.input[i]);
                    assert(m0.input[i].node < m0.tm.len());
                } else {
                    assert(old_vars[i] == m0.latch[i - m0.input.len()]);
                    assert(m0.latch[i - m0.input.len()].node < m0.tm.len());
                }
            }
            assert forall|i: int, j: int|
                0 <= i < vars.len() && 0 <= j < vars.len() && i != j implies vars[i] != vars[j] by {
                if is_state {
                    assert(vars == old_vars.push(v));
                } else {
                    assert(vars == m0.input.push(v) + m0.latch);
                    if i < m0.input.len() && j < m0.input.len() {
                        assert(vars[i] == old_vars[i] && vars[j] == old_vars[j]);
                    } else if i == m0.input.len() {
                        if j < m0.input.len() {
                            assert(vars[j] == old_vars[j]);
                        } else {
                            assert(vars[j] == old_vars[j - 1]);
                        }
                    } else if j == m0.input.len() {
                        if i < m0.input.len() {
                            assert(vars[i] == old_vars[i]);
                        } else {
                            assert(vars[i] == old_vars[i - 1]);
                        }
                    } else {
                        let a = if i < m0.input.len() { i } else { i - 1 };
                        let b = if j < m0.input.len() { j } else { j - 1 };
                        assert(vars[i] == old_vars[a] && vars[j] == old_vars[b]);
                    }
                }
            }
        }
        self.parse_symbol(v, toks, 3);
        self.define(id, v)
    }

    fn rel_line(&mut self, toks: &Vec<Vec<char>>, is_next: bool) -> (r: Result<(), ErrorKind>)
        requires
            old(self).inv(),
        ensures
            match rel_line(old(self)@, tv(toks), is_next) {
                Ok(m) => r is Ok && final(self)@ == m,
                Err(e) => r == Err::<(), ErrorKind>(e),
            },
            r is Ok ==> final(self).inv(),
    {
        let s = self.get_sort(toks, 2);
        let st = self.get_node(toks, 3);
        let v = self.get_node(toks, 4);
        let (s, st, v) = match (s, st, v) {
            (Err(e), _, _) => {
                return Err(e);
            },
            (_, Err(e), _) => {
                return Err(e);
            },
            (_, _, Err(e)) => {
                return Err(e);
            },
            (Ok(s), Ok(st), Ok(v)) => (s, st, v),
        };
        if self.tm.sort(st) != s {
            return Err(ErrorKind::SortMismatch);
        }
        if self.tm.sort(v) != s {
            return Err(ErrorKind::SortMismatch);
        }
        if is_next {
            proof {
                lemma_set_key_below(self@.next, st, v, self@.tm.len() as int);
                lemma_set_key_sorted(self@, self@.next, st, v);
            }
            set_pair(&mut self.next, st, v);
        } else {
            proof {
                lemma_set_key_below(self@.init, st, v, self@.tm.len() as int);
                lemma_set_key_sorted(self@, self@.init, st, v);
            }
            set_pair(&mut self.init, st, v);
        }
        Ok(())
    }

    fn role_line(&mut self, toks: &Vec<Vec<char>>, role: Role) -> (r: Result<(), ErrorKind>)
        requires
            old(self).inv(),
        ensures
            match role_line(old(self)@, tv(toks), role) {
                Ok(m) => r is Ok && final(self)@ == m,
                Err(e) => r == Err::<(), ErrorKind>(e),
            },
            r is Ok ==> final(self).inv(),
    {
        let t = match self.get_node(toks, 2) {
            Ok(t) => t,
            Err(e) => {
                return Err(e);
            },
        };
        self.parse_symbol(t, toks, 3);
        match role {
            Role::Output => self.output.push(t),
            Role::Bad => self.bad.push(t),
            Role::Constraint => self.constraint.push(t),
        }
        Ok(())
    }

    fn const_node(&mut self, id: usize, b: Vec<bool>, toks: &Vec<Vec<char>>, i: usize) -> (r:
        Result<(), ErrorKind>)
        requires
            old(self).inv(),
            b@.len() > 0,
        ensures
            match const_node(old(self)@, id, b@, tv(toks), i as int) {
                Ok(m) => r is Ok && final(self)@ == m,
                Err(e) => r == Err::<(), ErrorKind>(e),
            },
            r is Ok ==> final(self).inv(),
    {
        let t = self.tm.bv_const(b);
        self.parse_symbol(t, toks, i);
        self.define(id, t)
    }

    fn const_line(
        &mut self,
        id: usize,
        toks: &Vec<Vec<char>>,
        lit: Option<ConstType>,
        sugar: Sugar,
    ) -> (r: Result<(), ErrorKind>)
        requires
            old(self).inv(),
        ensures
            match const_line(old(self)@, id, tv(toks), lit, sugar) {
                Ok(m) => r is Ok && final(self)@ == m,
                Err(e) => r == Err::<(), ErrorKind>(e),
            },
            r is Ok ==> final(self).inv(),
    {
        let w = match self.get_sort(toks, 2) {
            Err(e) => {
                return Err(e);
            },
            Ok(Sort::Array(_, _)) => {
                return Err(ErrorKind::SortMismatch);
            },
            Ok(Sort::Bv(w)) => w,
        };
        match lit {
            Some(ty) => {
                if toks.len() <= 3 {
                    return Err(ErrorKind::MalformedLiteral);
                }
                match decode_literal(ty, w, &toks[3]) {
                    Ok(b) => {
                        proof {
                            lemma_decode_len(ty, w as nat, toks@[3]@);
                        }
                        self.const_node(id, b, toks, 4)
                    },
                    Err(e) => Err(e),
                }
            },
            None => {
                let b = match sugar {
                    Sugar::Zero => zero_bits(w),
                    Sugar::One => one_bits(w),
                    Sugar::Ones => ones_bits(w),
                };
                self.const_node(id, b, toks, 3)
            },
        }
    }

    fn operands(&self, toks: &Vec<Vec<char>>, k: usize) -> (r: Result<Vec<Term>, ErrorKind>)
        requires
            self.inv(),
            k <= 3,
        ensures
            match operands(self@, tv(toks), k as nat) {
                Ok(a) => r matches Ok(v) && v@ == a,
                Err(e) => r == Err::<Vec<Term>, ErrorKind>(e),
            },
            r matches Ok(v) ==> self.tm.all_valid(v@),
    {
        let mut v: Vec<Term> = Vec::new();
        let mut j: usize = 0;
        while j < k
            invariant
                j <= k <= 3,
                self.inv(),
                operands(self@, tv(toks), j as nat) == Ok::<Seq<Term>, ErrorKind>(v@),
                self.tm.all_valid(v@),
            decreases k - j,
        {
            match self.get_node(toks, 3 + j) {
                Ok(t) => {
                    v.push(t);
                },
                Err(e) => {
                    proof {
                        lemma_operands_err(self@, tv(toks), (j + 1) as nat, k as nat);
                    }
                    return Err(e);
                },
            }
            j = j + 1;
        }
        Ok(v)
    }

    fn op_node(
        &mut self,
        id: usize,
        s: Sort,
        op: OpKind,
        args: Vec<Term>,
        toks: &Vec<Vec<char>>,
        i: usize,
    ) -> (r: Result<(), ErrorKind>)
        requires
            old(self).inv(),
            old(self).tm.all_valid(args@),
        ensures
            match op_node(old(self)@, id, s, op, args@, tv(toks), i as int) {
                Ok(m) => r is Ok && final(self)@ == m,
                Err(e) => r == Err::<(), ErrorKind>(e),
            },
            r is Ok ==> final(self).inv(),
    {
        let ghost a = args@;
        assert(self.tm.sorts_of(a) == a.map_values(|t: Term| sort_of(self@, t)));
        let t = match self.tm.new_op(op, args) {
            Ok(t) => t,
            Err(e) => {
                return Err(e);
            },
        };
        if self.tm.sort(t) != s {
            return Err(ErrorKind::SortMismatch);
        }
        self.parse_symbol(t, toks, i);
        self.define(id, t)
    }

    fn op_line(&mut self, id: usize, toks: &Vec<Vec<char>>) -> (r: Result<(), ErrorKind>)
        requires
            old(self).inv(),
            toks.len() >= 2,
        ensures
            match op_line(old(self)@, id, tv(toks)) {
                Ok(m) => r is Ok && final(self)@ == m,
                Err(e) => r == Err::<(), ErrorKind>(e),
            },
            r is Ok ==> final(self).inv(),
    {
        let kw = &toks[1];
        let name = match (UniOpType::from_name(kw), BiOpType::from_name(kw), TriOpType::from_name(kw)) {
            (Some(u), _, _) => OpName::Uni(u),
            (_, Some(b), _) => OpName::Bi(b),
            (_, _, Some(t)) => OpName::Tri(t),
            _ => {
                if tok_is(kw, "uext") {
                    OpName::Uext
                } else if tok_is(kw, "sext") {
                    OpName::Sext
                } else if tok_is(kw, "slice") {
                    OpName::Slice
                } else {
                    return Err(ErrorKind::MalformedLine);
                }
            },
        };
        assert(op_name(tv(toks)[1]) == Some(name));
        let s = match self.get_sort(toks, 2) {
            Ok(s) => s,
            Err(e) => {
                return Err(e);
            },
        };
        match name {
            OpName::Uext | OpName::Sext => {
                let a = match self.get_node(toks, 3) {
                    Ok(a) => a,
                    Err(e) => {
                        return Err(e);
                    },
                };
                let n = match read_field(toks, 4) {
                    Some(n) => n,
                    None => {
                        return Err(ErrorKind::MalformedLine);
                    },
                };
                if n == 0 {
                    if self.tm.sort(a) != s {
                        return Err(ErrorKind::SortMismatch);
                    }
                    self.parse_symbol(a, toks, 5);
                    self.define(id, a)
                } else {
                    let op = match name {
                        OpName::Uext => OpKind::Uext(n),
                        _ => OpKind::Sext(n),
                    };
                    let args = vec![a];
                    assert(args@ == seq![a]);
                    self.op_node(id, s, op, args, toks, 5)
                }
            },
            OpName::Slice => {
                let a = match self.get_node(toks, 3) {
                    Ok(a) => a,
                    Err(e) => {
                        return Err(e);
                    },
                };
                match (read_field(toks, 4), read_field(toks, 5)) {
                    (Some(u), Some(l)) => {
                        let args = vec![a];
                        assert(args@ == seq![a]);
                        self.op_node(id, s, OpKind::Slice(u, l), args, toks, 6)
                    },
                    _ => Err(ErrorKind::MalformedLine),
                }
            },
            OpName::Uni(u) => match self.operands(toks, 1) {
                Ok(a) => self.op_node(id, s, OpKind::Uni(u), a, toks, 4),
                Err(e) => Err(e),
            },
            OpName::Bi(b) => match self.operands(toks, 2) {
                Ok(a) => self.op_node(id, s, OpKind::Bi(b), a, toks, 5),
                Err(e) => Err(e),
            },
            OpName::Tri(t) => match self.operands(toks, 3) {
                Ok(a) => self.op_node(id, s, OpKind::Tri(t), a, toks, 6),
                Err(e) => Err(e),
            },
        }
    }

    fn stmt(&mut self, toks: &Vec<Vec<char>>) -> (r: Result<(), ErrorKind>)
        requires
            old(self).inv(),
            toks.len() >= 1,
        ensures
            match stmt(old(self)@, tv(toks)) {
                Ok(m) => r is Ok && final(self)@ == m,
                Err(e) => r == Err::<(), ErrorKind>(e),
            },
            r is Ok ==> final(self).inv(),
    {
        let id = match parse_id(&toks[0]) {
            Some(id) => id,
            None => {
                return Err(ErrorKind::MalformedLine);
            },
        };
        if toks.len() < 2 {
            return Err(ErrorKind::MalformedLine);
        }
        let kw = &toks[1];
        if tok_is(kw, "sort") {
            self.sort_line(id, toks)
        } else if tok_is(kw, "input") {
            self.var_line(id, toks, false)
        } else if tok_is(kw, "state") {
            self.var_line(id, toks, true)
        } else if tok_is(kw, "init") {
            self.rel_line(toks, false)
        } else if tok_is(kw, "next") {
            self.rel_line(toks, true)
        } else if tok_is(kw, "output") {
            self.role_line(toks, Role::Output)
        } else if tok_is(kw, "bad") {
            self.role_line(toks, Role::Bad)
        } else if tok_is(kw, "constraint") {
            self.role_line(toks, Role::Constraint)
        } else if tok_is(kw, "const") {
            self.const_line(id, toks, Some(ConstType::Const), Sugar::Zero)
        } else if tok_is(kw, "constd") {
            self.const_line(id, toks, Some(ConstType::Constd), Sugar::Zero)
        } else if tok_is(kw, "consth") {
            self.const_line(id, toks, Some(ConstType::Consth), Sugar::Zero)
        } else if tok_is(kw, "zero") {
            self.const_line(id, toks, None, Sugar::Zero)
        } else if tok_is(kw, "one") {
            self.const_line(id, toks, None, Sugar::One)
        } else if tok_is(kw, "ones") {
            self.const_line(id, toks, None, Sugar::Ones)
        } else {
            self.op_line(id, toks)
        }
    }

    fn step_line(&mut self, line: &Vec<char>) -> (r: Result<(), ErrorKind>)
        requires
            old(self).inv(),
        ensures
            match line_step(old(self)@, line@) {
                Ok(m) => r is Ok && final(self)@ == m,
                Err(e) => r == Err::<(), ErrorKind>(e),
            },
            r is Ok ==> final(self).inv(),
    {
        proof {
            reveal(line_step);
        }
        if line.len() > 0 && line[0] == ';' {
            return Ok(());
        }
        let toks = split_tokens(line);
        if toks.len() == 0 {
            return Ok(());
        }
        self.stmt(&toks)
    }

    /// Splits the states into latches and inputs once all lines are read.
    fn finish(self) -> (r: Result<Btor, ErrorKind>)
        requires
            self.inv(),
        ensures
            match finish(self@) {
                Ok(b) => r matches Ok(x) && x@ == b && x.wf(),
                Err(e) => r matches Err(k) && k == e,
            },
            r matches Ok(x) ==> (x@.input + x@.latch).no_duplicates(),
    {
        broadcast use vstd::seq_lib::group_filter_ensures;
        broadcast use vstd::seq::group_seq_axioms;

        let ghost m = self@;
        let mut stays: Vec<Term> = Vec::new();
        let mut input = self.input;
        let mut i: usize = 0;
        assert(stays@ + Seq::<Term>::empty() == stays@);
        assert(input@ + stays@ == m.input);
        assert(m.input == (m.input + m.latch).take(m.input.len() as int));
        while i < self.latch.len()
            invariant
                i <= self.latch.len(),
                self@ == m,
                state_ok(m),
                stays@ == m.latch.take(i as int).filter(|l: Term| has_key(m.next, l)),
                input@ == m.input + m.latch.take(i as int).filter(|l: Term| !has_key(m.next, l)),
                forall|k: int| 0 <= k < input@.len() ==> (#[trigger] input@[k]).node < m.tm.len(),
                forall|k: int| 0 <= k < stays@.len() ==> (#[trigger] stays@[k]).node < m.tm.len(),
                (input@ + stays@).no_duplicates(),
                forall|x: Term| #[trigger] input@.contains(x) ==> m.input.contains(x) || m.latch.take(
                    i as int,
                ).contains(x),
                forall|x: Term| #[trigger] stays@.contains(x) ==> m.latch.take(i as int).contains(x),
            decreases self.latch.len() - i,
        {
            let l = self.latch[i];
            assert(m.latch.contains(l));
            proof {
                let all = m.input + m.latch;
                assert(all[m.input.len() + i] == l);
                if m.input.contains(l) {
                    let j = choose|j: int| 0 <= j < m.input.len() && m.input[j] == l;
                    assert(all[j] == l);
                }
                if m.latch.take(i as int).contains(l) {
                    let j = choose|j: int| 0 <= j < i && m.latch.take(i as int)[j] == l;
                    assert(all[m.input.len() + j] == l);
                }
                lemma_no_dup_push(input@, stays@, l);
                assert forall|x: Term| m.latch.take(i as int).contains(x) implies m.latch.take(
                    i + 1,
                ).contains(x) by {
                    let j = choose|j: int| 0 <= j < i && m.latch.take(i as int)[j] == x;
                    assert(m.latch.take(i + 1)[j] == x);
                }
                assert(m.latch.take(i + 1)[i as int] == l);
            }
            assert(m.latch.take(i + 1) == m.latch.take(i as int).push(l));
            proof {
                m.latch.take(i as int).lemma_filter_push(l, |l: Term| has_key(m.next, l));
                m.latch.take(i as int).lemma_filter_push(l, |l: Term| !has_key(m.next, l));
            }
            let ghost in0 = input@;
            let ghost st0 = stays@;
            match find_key(&self.next, l) {
                Some(_) => stays.push(l),
                None => input.push(l),
            }
            proof {
                assert forall|x: Term| #[trigger] input@.contains(x) implies m.input.contains(x)
                    || m.latch.take(i + 1).contains(x) by {
                    if x == l {
                        assert(m.latch.take(i + 1)[i as int] == l);
                    } else {
                        let j = choose|j: int| 0 <= j < input@.len() && input@[j] == x;
                        assert(in0[j] == x);
                        assert(in0.contains(x));
                        if m.latch.take(i as int).contains(x) {
                            let q = choose|q: int| 0 <= q < i && m.latch.take(i as int)[q] == x;
                            assert(m.latch.take(i + 1)[q] == x);
                        }
                    }
                }
                assert forall|x: Term| #[trigger] stays@.contains(x) implies m.latch.take(
                    i + 1,
                ).contains(x) by {
                    if x == l {
                        assert(m.latch.take(i + 1)[i as int] == l);
                    } else {
                        let j = choose|j: int| 0 <= j < stays@.len() && stays@[j] == x;
                        assert(st0[j] == x);
                        assert(st0.contains(x));
                        if m.latch.take(i as int).contains(x) {
                            let q = choose|q: int| 0 <= q < i && m.latch.take(i as int)[q] == x;
                            assert(m.latch.take(i + 1)[q] == x);
                        }
                    }
                }
            }
            i = i + 1;
        }
        assert(m.latch.take(i as int) == m.latch);
        let mut j: usize = 0;
        while j < self.init.len()
            invariant
                j <= self.init.len(),
                self@ == m,
                stays@ == kept(m),
                forall|k: int| 0 <= k < j ==> kept(m).contains((#[trigger] m.init[k]).0),
            decreases self.init.len() - j,
        {
            if !contains_term(&stays, self.init[j].0) {
                return Err(ErrorKind::InconsistentLatch);
            }
            j = j + 1;
        }
        let mut j: usize = 0;
        while j < self.next.len()
            invariant
                j <= self.next.len(),
                self@ == m,
                forall|k: int| 0 <= k < j ==> m.latch.contains((#[trigger] m.next[k]).0),
            decreases self.next.len() - j,
        {
            if !contains_term(&self.latch, self.next[j].0) {
                return Err(ErrorKind::InconsistentLatch);
            }
            j = j + 1;
        }
        let b = Btor {
            tm: self.tm,
            input,
            latch: stays,
            init: self.init,
            next: self.next,
            bad: self.bad,
            constraint: self.constraint,
            symbols: self.symbols,
        };
        proof {
            let n = m.tm.len() as int;
        }
        Ok(b)
    }

    /// Reads the lines of `s` one by one, up to the first error.
    fn read_lines(&mut self, s: &str) -> (r: Result<(), ParseError>)
        requires
            old(self).inv(),
        ensures
            match run(old(self)@, lines(s@), 0) {
                Ok(m) => r is Ok && final(self)@ == m && final(self).inv(),
                Err(e) => r == Err::<(), ParseError>(e),
            },
    {
        let chars = chars_of(s);
        let ls = split_lines(&chars);
        let ghost lv = ls@.map_values(|l: Vec<char>| l@);
        let mut i: usize = 0;
        while i < ls.len()
            invariant
                i <= ls.len(),
                lv == lines(s@),
                lv == ls@.map_values(|l: Vec<char>| l@),
                self.inv(),
                run(old(self)@, lv, 0) == run(self@, lv, i as int),
            decreases ls.len() - i,
        {
            let line = &ls[i];
            assert(lv[i as int] == line@);
            let ghost before = self@;
            match self.step_line(line) {
                Ok(()) => {},
                Err(e) => {
                    assert(run(before, lv, i as int) == Err::<ParseState, ParseError>(
                        ParseError { line: (i + 1) as usize, kind: e },
                    ));
                    return Err(ParseError { line: i + 1, kind: e });
                },
            }
            i = i + 1;
        }
        Ok(())
    }

    /// Reads the whole text `s`: the transition system it describes, or the
    /// first error, with its line.
    pub fn parse(self, s: &str) -> (r: Result<Btor, ParseError>)
        requires
            self.inv(),
        ensures
            match parse_spec(self@, s@) {
                Ok(b) => r matches Ok(x) && x@ == b && x.wf(),
                Err(e) => r == Err::<Btor, ParseError>(e),
            },
            r matches Ok(x) ==> system_invariants(x@),
    {
        let mut p = self;
        match p.read_lines(s) {
            Err(e) => Err(e),
            Ok(()) => {
                let ghost mp = p@;
                assert(state_ok(mp));
                match p.finish() {
                Ok(b) => {
                    proof {
                        lemma_finish_invariants(mp);
                        assert(pairs_sorted(mp, mp.next) && pairs_sorted(mp, mp.init));
                        assert(b@.tm == mp.tm && b@.next == mp.next && b@.init == mp.init);
                    }
                    Ok(b)
                },
                Err(k) => Err(ParseError { line: 0, kind: k }),
                }
            },
        }
    }
}

} // verus!
