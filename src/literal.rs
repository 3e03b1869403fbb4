//! Constant literals: reading a token in radix 2, 10 or 16 into a fixed-width
//! bit sequence, least significant bit first.

use crate::text::{chars_to_string, ErrorKind};
use num_bigint::{BigInt, Sign};
use num_traits::Num;
use vstd::prelude::*;

verus! {

/// The three spellings of a constant line and their radixes.
#[derive(Debug, Clone, Copy, PartialEq, Eq, Structural)]
pub enum ConstType {
    Const,
    Constd,
    Consth,
}

impl ConstType {
    pub open spec fn spec_radix(self) -> u32 {
        match self {
            ConstType::Const => 2,
            ConstType::Constd => 10,
            ConstType::Consth => 16,
        }
    }

    pub fn radix(&self) -> (r: u32)
        ensures
            r == self.spec_radix(),
    {
        match self {
            ConstType::Const => 2,
            ConstType::Constd => 10,
            ConstType::Consth => 16,
        }
    }
}

/// Value of a digit character as num-bigint reads it: `0-9`, then letters of
/// either case from ten on; anything else is out of every radix.
pub open spec fn digit_val(c: char) -> int {
    if '0' <= c && c <= '9' {
        c as int - '0' as int
    } else if 'a' <= c && c <= 'z' {
        c as int - 'a' as int + 10
    } else if 'A' <= c && c <= 'Z' {
        c as int - 'A' as int + 10
    } else {
        255
    }
}

/// Digits with `_` separators, not starting with one.
pub open spec fn body_ok(b: Seq<char>, radix: int) -> bool {
    &&& b.len() > 0
    &&& b[0] != '_'
    &&& forall|i: int| 0 <= i < b.len() ==> #[trigger] b[i] == '_' || digit_val(b[i]) < radix
}

/// The value of the digits of `b` (most significant first), separators skipped.
pub open spec fn body_value(b: Seq<char>, radix: int) -> nat
    decreases b.len(),
{
    if b.len() == 0 {
        0
    } else if b.last() == '_' {
        body_value(b.drop_last(), radix)
    } else {
        (body_value(b.drop_last(), radix) * radix + digit_val(b.last())) as nat
    }
}

pub open spec fn lit_negative(s: Seq<char>) -> bool {
    s.len() > 0 && s[0] == '-'
}

/// The token without its sign: a leading `-`, then a leading `+`.
pub open spec fn lit_body(s: Seq<char>) -> Seq<char> {
    let u = if lit_negative(s) {
        s.drop_first()
    } else {
        s
    };
    if u.len() > 0 && u[0] == '+' {
        u.drop_first()
    } else {
        u
    }
}

/// Whether num-bigint accepts `s` as an integer in `radix`. A `-` directly
/// followed by `+` is refused.
pub open spec fn lit_ok(s: Seq<char>, radix: int) -> bool {
    &&& !(lit_negative(s) && s.len() > 1 && s[1] == '+')
    &&& body_ok(lit_body(s), radix)
}

pub open spec fn lit_magnitude(s: Seq<char>, radix: int) -> nat {
    body_value(lit_body(s), radix)
}

/// Binary digits of `n`, least significant first, with no high zero digits;
/// zero is the single digit 0.
pub open spec fn binary_digits(n: nat) -> Seq<u8>
    decreases n,
{
    if n < 2 {
        seq![n as u8]
    } else {
        seq![(n % 2) as u8] + binary_digits(n / 2)
    }
}

/// Relies on num-bigint: `BigInt::from_str_radix` reads the token (refusing what
/// is not an integer in `radix`), and `BigInt::to_radix_le(2)` hands back its
/// sign and the binary digits of its magnitude. A zero has no sign.
#[verifier::external_body]
fn radix_bits(tok: &str, radix: u32) -> (r: Option<(bool, Vec<u8>)>)
    requires
        2 <= radix <= 36,
    ensures
        r is Some <==> lit_ok(tok@, radix as int),
        r matches Some(p) ==> p.1@ == binary_digits(lit_magnitude(tok@, radix as int)),
        r matches Some(p) ==> p.0 == (lit_negative(tok@) && lit_magnitude(tok@, radix as int)
            > 0),
{
    match BigInt::from_str_radix(tok, radix) {
        Ok(b) => {
            let (s, d) = b.to_radix_le(2);
            match s {
                Sign::Minus => Some((true, d)),
                Sign::NoSign => Some((false, d)),
                Sign::Plus => Some((false, d)),
            }
        },
        Err(_) => None,
    }
}

pub open spec fn invert(b: Seq<bool>) -> Seq<bool> {
    b.map_values(|x: bool| !x)
}

/// Adds one to a bit sequence (least significant first), dropping the last carry.
pub open spec fn increment(b: Seq<bool>) -> Seq<bool>
    decreases b.len(),
{
    if b.len() == 0 {
        b
    } else if !b[0] {
        seq![true] + b.drop_first()
    } else {
        seq![false] + increment(b.drop_first())
    }
}

/// Two's complement negation: invert every bit, then add one.
pub open spec fn negate(b: Seq<bool>) -> Seq<bool> {
    increment(invert(b))
}

pub open spec fn zeros(w: nat) -> Seq<bool> {
    Seq::new(w, |i: int| false)
}

pub open spec fn ones(w: nat) -> Seq<bool> {
    Seq::new(w, |i: int| true)
}

pub open spec fn one(w: nat) -> Seq<bool> {
    Seq::new(w, |i: int| i == 0)
}

/// The magnitude's bits, padded with zeros to width `w`.
pub open spec fn padded_bits(n: nat, w: nat) -> Seq<bool> {
    let d = binary_digits(n).map_values(|x: u8| x == 1);
    d + zeros((w - d.len()) as nat)
}

/// What a constant token denotes at width `w`, or `None` where it is malformed:
/// not an integer in the radix, a sign on a binary or hexadecimal token, or a
/// magnitude wider than `w`.
pub open spec fn decode_spec(ty: ConstType, w: nat, tok: Seq<char>) -> Option<Seq<bool>> {
    let radix = ty.spec_radix() as int;
    let n = lit_magnitude(tok, radix);
    if !lit_ok(tok, radix) || (radix != 10 && lit_negative(tok)) || binary_digits(n).len() > w {
        None
    } else if lit_negative(tok) && n > 0 {
        Some(negate(padded_bits(n, w)))
    } else {
        Some(padded_bits(n, w))
    }
}

proof fn lemma_increment_len(b: Seq<bool>)
    ensures
        increment(b).len() == b.len(),
    decreases b.len(),
{
    if b.len() > 0 && b[0] {
        lemma_increment_len(b.drop_first());
    }
}

/// A decoded literal has exactly the width asked for.
pub proof fn lemma_decode_len(ty: ConstType, w: nat, tok: Seq<char>)
    requires
        decode_spec(ty, w, tok) is Some,
    ensures
        decode_spec(ty, w, tok)->Some_0.len() == w,
{
    let n = lit_magnitude(tok, ty.spec_radix() as int);
    let p = padded_bits(n, w);
    assert(p.len() == w);
    lemma_increment_len(invert(p));
}

/// Adds one to `b` in place.
fn increment_in_place(b: &mut Vec<bool>)
    ensures
        final(b)@ == increment(old(b)@),
{
    let ghost orig = b@;
    let mut i: usize = 0;
    let mut carry = true;
    assert(b@.take(0) + b@.skip(0) == b@);
    while carry && i < b.len()
        invariant
            i <= b.len(),
            b@.len() == orig.len(),
            carry ==> increment(orig) == b@.take(i as int) + increment(b@.skip(i as int)),
            !carry ==> increment(orig) == b@,
        decreases b.len() - i, (if carry { 1int } else { 0int }),
    {
        let ghost before = b@;
        assert(before.skip(i as int).drop_first() == before.skip(i + 1));
        if b[i] {
            b.set(i, false);
            assert(b@.take(i + 1) == before.take(i as int).push(false));
            assert(b@.skip(i + 1) == before.skip(i + 1));
            i = i + 1;
        } else {
            b.set(i, true);
            assert(before.skip(i as int)[0] == false);
            assert(increment(before.skip(i as int)) == seq![true] + before.skip(i + 1));
            assert(b@ =~= before.take(i as int) + (seq![true] + before.skip(i + 1)));
            carry = false;
        }
    }
    if carry {
        assert(b@.skip(i as int) == Seq::<bool>::empty());
        assert(b@.take(i as int) == b@);
    }
}

/// Decodes a constant token of the given radix at width `w`.
pub fn decode_literal(ty: ConstType, w: usize, tok: &Vec<char>) -> (r: Result<Vec<bool>, ErrorKind>)
    ensures
        r is Ok <==> decode_spec(ty, w as nat, tok@) is Some,
        r matches Ok(b) ==> decode_spec(ty, w as nat, tok@) == Some(b@),
        r matches Err(e) ==> e == ErrorKind::MalformedLiteral,
{
    let radix = ty.radix();
    if radix != 10 && tok.len() > 0 && tok[0] == '-' {
        return Err(ErrorKind::MalformedLiteral);
    }
    let s = chars_to_string(tok);
    let (neg, digits) = match radix_bits(s.as_str(), radix) {
        Some(p) => p,
        None => {
            return Err(ErrorKind::MalformedLiteral);
        },
    };
    let ghost n = lit_magnitude(tok@, radix as int);
    if digits.len() > w {
        return Err(ErrorKind::MalformedLiteral);
    }
    let mut c: Vec<bool> = Vec::new();
    let mut i: usize = 0;
    while i < digits.len()
        invariant
            i <= digits.len(),
            c@ == digits@.take(i as int).map_values(|x: u8| x == 1),
        decreases digits.len() - i,
    {
        c.push(digits[i] == 1);
        assert(digits@.take(i + 1) == digits@.take(i as int).push(digits@[i as int]));
        i = i + 1;
    }
    assert(digits@.take(i as int) == digits@);
    let ghost d = c@;
    while c.len() < w
        invariant
            d.len() <= c.len() <= w,
            c@ == d + zeros((c.len() - d.len()) as nat),
        decreases w - c.len(),
    {
        c.push(false);
        assert(c@ == d + zeros((c.len() - d.len()) as nat));
    }
    assert(c@ == padded_bits(n, w as nat));
    if neg {
        let mut j: usize = 0;
        let ghost p = c@;
        while j < c.len()
            invariant
                j <= c.len(),
                c@.len() == p.len(),
                forall|k: int| 0 <= k < j ==> c@[k] == !p[k],
                forall|k: int| j <= k < c@.len() ==> c@[k] == p[k],
            decreases c.len() - j,
        {
            let x = c[j];
            c.set(j, !x);
            j = j + 1;
        }
        assert(c@ == invert(p));
        increment_in_place(&mut c);
    }
    Ok(c)
}

/// `w` zero bits.
pub fn zero_bits(w: usize) -> (r: Vec<bool>)
    ensures
        r@ == zeros(w as nat),
{
    let mut r: Vec<bool> = Vec::new();
    while r.len() < w
        invariant
            r.len() <= w,
            r@ == zeros(r.len() as nat),
        decreases w - r.len(),
    {
        r.push(false);
        assert(r@ == zeros(r.len() as nat));
    }
    r
}

/// `w` one bits.
pub fn ones_bits(w: usize) -> (r: Vec<bool>)
    ensures
        r@ == ones(w as nat),
{
    let mut r: Vec<bool> = Vec::new();
    while r.len() < w
        invariant
            r.len() <= w,
            r@ == ones(r.len() as nat),
        decreases w - r.len(),
    {
        r.push(true);
        assert(r@ == ones(r.len() as nat));
    }
    r
}

/// The value one at width `w`: the lowest bit set, the others clear.
pub fn one_bits(w: usize) -> (r: Vec<bool>)
    ensures
        r@ == one(w as nat),
{
    let mut r: Vec<bool> = Vec::new();
    while r.len() < w
        invariant
            r.len() <= w,
            r@ == one(r.len() as nat),
        decreases w - r.len(),
    {
        let b = r.len() == 0;
        r.push(b);
        assert(r@ == one(r.len() as nat));
    }
    r
}

} // verus!
