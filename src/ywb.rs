//! Witness descriptions: the named signals behind the flattened inputs and
//! states of a system, and their alignment with it.

use crate::system::Btor;
use crate::term::Term;
use crate::text::ErrorKind;
use vstd::prelude::*;

verus! {

/// A clock signal of the design.
#[derive(Clone, Debug, PartialEq, Eq, Hash)]
pub struct Clock {
    pub path: Vec<String>,
    pub offset: u32,
    pub edge: String,
}

/// A named slice of a flattened vector: a hierarchical path, a width and a bit
/// offset.
#[derive(Clone, Debug, PartialEq, Eq, Hash)]
pub struct SignalPart {
    pub path: Vec<String>,
    pub width: u32,
    pub offset: u32,
}

/// A witness description: the signals of each input and state, and the labels
/// of each assertion and assumption.
#[derive(Clone, Debug)]
pub struct YosysWitnessBTOR {
    pub version: String,
    pub generator: String,
    pub clocks: Vec<Clock>,
    pub inputs: Vec<Vec<SignalPart>>,
    pub states: Vec<Vec<SignalPart>>,
    pub asserts: Vec<Vec<String>>,
    pub assumes: Vec<Vec<String>>,
}

pub open spec fn strings_view(v: Seq<String>) -> Seq<Seq<char>> {
    v.map_values(|s: String| s@)
}

impl View for SignalPart {
    type V = (Seq<Seq<char>>, u32, u32);

    open spec fn view(&self) -> (Seq<Seq<char>>, u32, u32) {
        (strings_view(self.path@), self.width, self.offset)
    }
}

pub open spec fn parts_view(v: Seq<SignalPart>) -> Seq<(Seq<Seq<char>>, u32, u32)> {
    v.map_values(|p: SignalPart| p@)
}

fn clone_strings(v: &Vec<String>) -> (r: Vec<String>)
    ensures
        strings_view(r@) == strings_view(v@),
{
    let mut r: Vec<String> = Vec::new();
    let mut i: usize = 0;
    while i < v.len()
        invariant
            i <= v.len(),
            strings_view(r@) == strings_view(v@.take(i as int)),
        decreases v.len() - i,
    {
        let ghost before = r@;
        r.push(v[i].clone());
        assert(v@.take(i + 1) == v@.take(i as int).push(v@[i as int]));
        assert(strings_view(r@) =~= strings_view(before).push(v@[i as int]@));
        assert(strings_view(v@.take(i + 1)) =~= strings_view(v@.take(i as int)).push(v@[i as int]@));
        i = i + 1;
    }
    assert(v@.take(i as int) == v@);
    r
}

fn clone_parts(v: &Vec<SignalPart>) -> (r: Vec<SignalPart>)
    ensures
        parts_view(r@) == parts_view(v@),
{
    let mut r: Vec<SignalPart> = Vec::new();
    let mut i: usize = 0;
    while i < v.len()
        invariant
            i <= v.len(),
            parts_view(r@) == parts_view(v@.take(i as int)),
        decreases v.len() - i,
    {
        let p = &v[i];
        let ghost before = r@;
        r.push(SignalPart { path: clone_strings(&p.path), width: p.width, offset: p.offset });
        assert(v@.take(i + 1) == v@.take(i as int).push(v@[i as int]));
        assert(parts_view(r@) =~= parts_view(before).push(v@[i as int]@));
        assert(parts_view(v@.take(i + 1)) =~= parts_view(v@.take(i as int)).push(v@[i as int]@));
        i = i + 1;
    }
    assert(v@.take(i as int) == v@);
    r
}

/// The signal map of a system: its inputs, then its latches, each paired with
/// the signal parts at the same position of the witness.
pub open spec fn witness_pairs(
    input: Seq<Term>,
    latch: Seq<Term>,
    w_inputs: Seq<Seq<SignalPart>>,
    w_states: Seq<Seq<SignalPart>>,
) -> Seq<(Term, Seq<(Seq<Seq<char>>, u32, u32)>)> {
    Seq::new(
        input.len() + latch.len(),
        |i: int|
            if i < input.len() {
                (input[i], parts_view(w_inputs[i]))
            } else {
                (latch[i - input.len()], parts_view(w_states[i - input.len()]))
            },
    )
}

pub open spec fn map_view(m: Seq<(Term, Vec<SignalPart>)>) -> Seq<
    (Term, Seq<(Seq<Seq<char>>, u32, u32)>),
> {
    m.map_values(|p: (Term, Vec<SignalPart>)| (p.0, parts_view(p.1@)))
}

impl Btor {
    /// Checks a witness against the system: as many input, state, assertion
    /// and assumption lists as inputs, latches, bad properties and
    /// constraints. The witness comes back unchanged.
    pub fn ywb(&self, w: YosysWitnessBTOR) -> (r: Result<YosysWitnessBTOR, ErrorKind>)
        ensures
            r is Ok <==> (self.input.len() == w.inputs.len() && self.latch.len() == w.states.len()
                && self.bad.len() == w.asserts.len() && self.constraint.len() == w.assumes.len()),
            r matches Ok(x) ==> x == w,
            r matches Err(e) ==> e == ErrorKind::WitnessArityMismatch,
    {
        if self.input.len() != w.inputs.len() || self.latch.len() != w.states.len()
            || self.bad.len() != w.asserts.len() || self.constraint.len() != w.assumes.len() {
            return Err(ErrorKind::WitnessArityMismatch);
        }
        Ok(w)
    }

    /// Pairs each input and latch with its signal parts, by position; the
    /// witness must have one list per input and one per latch.
    pub fn witness_map(&self, w: &YosysWitnessBTOR) -> (r: Result<
        Vec<(Term, Vec<SignalPart>)>,
        ErrorKind,
    >)
        ensures
            r is Ok <==> (self.input.len() == w.inputs.len() && self.latch.len()
                == w.states.len()),
            r matches Ok(m) ==> map_view(m@) == witness_pairs(
                self.input@,
                self.latch@,
                w.inputs@.map_values(|v: Vec<SignalPart>| v@),
                w.states@.map_values(|v: Vec<SignalPart>| v@),
            ),
            r matches Err(e) ==> e == ErrorKind::WitnessArityMismatch,
    {
        if self.input.len() != w.inputs.len() || self.latch.len() != w.states.len() {
            return Err(ErrorKind::WitnessArityMismatch);
        }
        let ghost wi = w.inputs@.map_values(|v: Vec<SignalPart>| v@);
        let ghost ws = w.states@.map_values(|v: Vec<SignalPart>| v@);
        let ghost full = witness_pairs(self.input@, self.latch@, wi, ws);
        let mut m: Vec<(Term, Vec<SignalPart>)> = Vec::new();
        let mut i: usize = 0;
        while i < self.input.len()
            invariant
                i <= self.input.len() == w.inputs.len(),
                self.latch.len() == w.states.len(),
                full == witness_pairs(self.input@, self.latch@, wi, ws),
                wi == w.inputs@.map_values(|v: Vec<SignalPart>| v@),
                map_view(m@) == full.take(i as int),
            decreases self.input.len() - i,
        {
            let parts = clone_parts(&w.inputs[i]);
            let ghost before = m@;
            m.push((self.input[i], parts));
            assert(wi[i as int] == w.inputs@[i as int]@);
            assert(map_view(m@) =~= map_view(before).push(full[i as int]));
            assert(full.take(i + 1) =~= full.take(i as int).push(full[i as int]));
            i = i + 1;
        }
        let n = self.input.len();
        let mut j: usize = 0;
        while j < self.latch.len()
            invariant
                n == self.input.len() == w.inputs.len(),
                j <= self.latch.len() == w.states.len(),
                full == witness_pairs(self.input@, self.latch@, wi, ws),
                ws == w.states@.map_values(|v: Vec<SignalPart>| v@),
                map_view(m@) == full.take(n + j),
            decreases self.latch.len() - j,
        {
            let parts = clone_parts(&w.states[j]);
            let ghost before = m@;
            m.push((self.latch[j], parts));
            assert(ws[j as int] == w.states@[j as int]@);
            assert(map_view(m@) =~= map_view(before).push(full[n + j]));
            assert(full.take(n + j + 1) =~= full.take(n + j).push(full[n + j]));
            j = j + 1;
        }
        assert(full.take(n + j) == full);
        Ok(m)
    }
}

} // verus!
