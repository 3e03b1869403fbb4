//! Character-level helpers: splitting text into lines and whitespace-separated
//! tokens, and reading and writing decimal numbers.

use vstd::prelude::*;

verus! {

/// Whitespace that separates the tokens of a line: the characters of
/// Unicode's `White_Space` property.
pub open spec fn is_ws(c: char) -> bool {
    let u = c as u32;
    (0x09 <= u && u <= 0x0d) || u == 0x20 || u == 0x85 || u == 0xa0 || u == 0x1680 || (0x2000 <= u
        && u <= 0x200a) || u == 0x2028 || u == 0x2029 || u == 0x202f || u == 0x205f || u == 0x3000
}

/// Index of the first whitespace character at or after `i` (or the length).
pub open spec fn token_end(s: Seq<char>, i: int) -> int
    decreases s.len() - i,
{
    if i >= s.len() || is_ws(s[i]) {
        i
    } else {
        token_end(s, i + 1)
    }
}

/// The whitespace-separated tokens of `s` from position `i` on.
pub open spec fn tokens_from(s: Seq<char>, i: int) -> Seq<Seq<char>>
    decreases s.len() - i, 1int,
{
    if i < 0 || i >= s.len() {
        Seq::empty()
    } else if is_ws(s[i]) {
        tokens_from(s, i + 1)
    } else {
        let e = token_end(s, i);
        if e <= i || e > s.len() {
            Seq::empty()
        } else {
            seq![s.subrange(i, e)] + tokens_from(s, e)
        }
    }
}

pub open spec fn tokens(s: Seq<char>) -> Seq<Seq<char>> {
    tokens_from(s, 0)
}

/// The characters of `s`, one by one.
pub fn chars_of(s: &str) -> (r: Vec<char>)
    ensures
        r@ == s@,
{
    let mut r: Vec<char> = Vec::new();
    for c in it: s.chars()
        invariant
            r@ == it.seq().take(it.index() as int),
    {
        r.push(c);
    }
    r
}


/// Index of the first line break at or after `i` (or the length).
pub open spec fn line_end(s: Seq<char>, i: int) -> int
    decreases s.len() - i,
{
    if i >= s.len() || s[i] == '\n' {
        i
    } else {
        line_end(s, i + 1)
    }
}

/// The lines of `s` from position `i` on, each without its line break.
pub open spec fn lines_from(s: Seq<char>, i: int) -> Seq<Seq<char>>
    decreases s.len() - i,
{
    if i < 0 || i >= s.len() {
        Seq::empty()
    } else {
        let e = line_end(s, i);
        if e < i || e > s.len() {
            Seq::empty()
        } else if e == s.len() {
            seq![s.subrange(i, e)]
        } else {
            seq![s.subrange(i, e)] + lines_from(s, e + 1)
        }
    }
}

pub open spec fn lines(s: Seq<char>) -> Seq<Seq<char>> {
    lines_from(s, 0)
}

proof fn lemma_line_end_bounds(s: Seq<char>, i: int)
    requires
        0 <= i <= s.len(),
    ensures
        i <= line_end(s, i) <= s.len(),
        line_end(s, i) < s.len() ==> s[line_end(s, i)] == '\n',
        forall|k: int| i <= k < line_end(s, i) ==> s[k] != '\n',
    decreases s.len() - i,
{
    if i < s.len() && s[i] != '\n' {
        lemma_line_end_bounds(s, i + 1);
    }
}

/// Splits `s` at its line breaks.
pub fn split_lines(s: &Vec<char>) -> (r: Vec<Vec<char>>)
    ensures
        r@.map_values(|l: Vec<char>| l@) == lines(s@),
{
    let mut r: Vec<Vec<char>> = Vec::new();
    let mut i: usize = 0;
    while i < s.len()
        invariant
            i <= s.len(),
            r@.map_values(|l: Vec<char>| l@) + lines_from(s@, i as int) == lines(s@),
        decreases s.len() - i,
    {
        let mut line: Vec<char> = Vec::new();
        let mut e: usize = i;
        while e < s.len() && s[e] != '\n'
            invariant
                i <= e <= s.len(),
                line@ == s@.subrange(i as int, e as int),
                line_end(s@, i as int) == line_end(s@, e as int),
            decreases s.len() - e,
        {
            line.push(s[e]);
            e = e + 1;
            assert(line@ == s@.subrange(i as int, e as int));
        }
        let ghost old_r = r@.map_values(|l: Vec<char>| l@);
        r.push(line);
        assert(r@.map_values(|l: Vec<char>| l@) == old_r.push(s@.subrange(i as int, e as int)));
        proof {
            lemma_line_end_bounds(s@, i as int);
            if e < s.len() {
                assert(lines_from(s@, i as int) == seq![s@.subrange(i as int, e as int)]
                    + lines_from(s@, e + 1));
                assert(r@.map_values(|l: Vec<char>| l@) + lines_from(s@, e + 1) == old_r
                    + lines_from(s@, i as int));
            } else {
                assert(lines_from(s@, i as int) == seq![s@.subrange(i as int, e as int)]);
                assert(r@.map_values(|l: Vec<char>| l@) == old_r + lines_from(s@, i as int));
            }
        }
        if e < s.len() {
            i = e + 1;
        } else {
            i = e;
            assert(lines_from(s@, i as int) == Seq::<Seq<char>>::empty());
        }
    }
    assert(lines_from(s@, i as int) == Seq::<Seq<char>>::empty());
    assert(r@.map_values(|l: Vec<char>| l@) == r@.map_values(|l: Vec<char>| l@) + lines_from(
        s@,
        i as int,
    ));
    r
}

/// Splits a line into its whitespace-separated tokens.
pub fn split_tokens(s: &Vec<char>) -> (r: Vec<Vec<char>>)
    ensures
        r@.map_values(|t: Vec<char>| t@) == tokens(s@),
{
    let mut r: Vec<Vec<char>> = Vec::new();
    let mut i: usize = 0;
    while i < s.len()
        invariant
            i <= s.len(),
            r@.map_values(|t: Vec<char>| t@) + tokens_from(s@, i as int) == tokens(s@),
        decreases s.len() - i,
    {
        if is_ws_char(s[i]) {
            assert(tokens_from(s@, i as int) == tokens_from(s@, i + 1));
            i = i + 1;
        } else {
            let mut tok: Vec<char> = Vec::new();
            let mut e: usize = i;
            while e < s.len() && !is_ws_char(s[e])
                invariant
                    i <= e <= s.len(),
                    tok@ == s@.subrange(i as int, e as int),
                    token_end(s@, i as int) == token_end(s@, e as int),
                decreases s.len() - e,
            {
                tok.push(s[e]);
                e = e + 1;
                assert(tok@ == s@.subrange(i as int, e as int));
            }
            let ghost old_r = r@.map_values(|t: Vec<char>| t@);
            r.push(tok);
            assert(r@.map_values(|t: Vec<char>| t@) == old_r.push(s@.subrange(i as int, e as int)));
            assert(tokens_from(s@, i as int) == seq![s@.subrange(i as int, e as int)]
                + tokens_from(s@, e as int));
            assert(r@.map_values(|t: Vec<char>| t@) + tokens_from(s@, e as int) == old_r
                + tokens_from(s@, i as int));
            i = e;
        }
    }
    assert(tokens_from(s@, i as int) == Seq::<Seq<char>>::empty());
    assert(r@.map_values(|t: Vec<char>| t@) == r@.map_values(|t: Vec<char>| t@) + tokens_from(
        s@,
        i as int,
    ));
    r
}

pub fn is_ws_char(c: char) -> (r: bool)
    ensures
        r == is_ws(c),
{
    let u = c as u32;
    (0x09 <= u && u <= 0x0d) || u == 0x20 || u == 0x85 || u == 0xa0 || u == 0x1680 || (0x2000 <= u
        && u <= 0x200a) || u == 0x2028 || u == 0x2029 || u == 0x202f || u == 0x205f || u == 0x3000
}


pub open spec fn is_digit(c: char) -> bool {
    '0' <= c && c <= '9'
}

pub open spec fn digit_of(c: char) -> int {
    c as int - '0' as int
}

/// A non-empty run of decimal digits.
pub open spec fn is_digits(s: Seq<char>) -> bool {
    s.len() > 0 && forall|i: int| 0 <= i < s.len() ==> is_digit(#[trigger] s[i])
}

/// The value of a run of decimal digits, most significant first.
pub open spec fn digits_value(s: Seq<char>) -> int
    decreases s.len(),
{
    if s.len() == 0 {
        0
    } else {
        digits_value(s.drop_last()) * 10 + digit_of(s.last())
    }
}

/// The digits of an unsigned decimal token: an optional leading `+` is dropped.
pub open spec fn unsigned_digits(t: Seq<char>) -> Seq<char> {
    if t.len() > 0 && t[0] == '+' {
        t.drop_first()
    } else {
        t
    }
}

/// The value of an unsigned decimal token, if it is one that fits a `usize`.
pub open spec fn usize_value(t: Seq<char>) -> Option<usize> {
    let d = unsigned_digits(t);
    if is_digits(d) && digits_value(d) <= usize::MAX {
        Some(digits_value(d) as usize)
    } else {
        None
    }
}

/// The value of a signed decimal token (optional `+` or `-`), if it fits an `isize`.
pub open spec fn isize_value(t: Seq<char>) -> Option<isize> {
    if t.len() > 0 && t[0] == '-' {
        let d = t.drop_first();
        if is_digits(d) && digits_value(d) <= isize::MAX + 1 {
            Some((-digits_value(d)) as isize)
        } else {
            None
        }
    } else {
        let d = unsigned_digits(t);
        if is_digits(d) && digits_value(d) <= isize::MAX {
            Some(digits_value(d) as isize)
        } else {
            None
        }
    }
}

proof fn lemma_digits_value_mono(s: Seq<char>, k: int)
    requires
        0 <= k <= s.len(),
        forall|i: int| 0 <= i < s.len() ==> is_digit(#[trigger] s[i]),
    ensures
        digits_value(s.take(k)) <= digits_value(s),
        0 <= digits_value(s.take(k)),
    decreases s.len(),
{
    if k == s.len() {
        assert(s.take(k) == s);
        if s.len() > 0 {
            lemma_digits_value_mono(s.drop_last(), 0);
            assert(s.drop_last().take(0) == s.take(0));
        }
    } else {
        let t = s.drop_last();
        assert(forall|i: int| 0 <= i < t.len() ==> is_digit(#[trigger] t[i])) by {
            assert(forall|i: int| 0 <= i < t.len() ==> t[i] == s[i]);
        };
        lemma_digits_value_mono(t, k);
        lemma_digits_value_mono(t, t.len() as int);
        assert(t.take(k) == s.take(k));
        assert(t.take(t.len() as int) == t);
    }
}

/// Reads a run of decimal digits into a `usize`; `None` if it is not one or
/// does not fit.
fn digits_to_usize(d: &[char]) -> (r: Option<usize>)
    ensures
        r == (if is_digits(d@) && digits_value(d@) <= usize::MAX {
            Some(digits_value(d@) as usize)
        } else {
            None::<usize>
        }),
        r matches Some(v) ==> v == digits_value(d@),
{
    if d.len() == 0 {
        return None;
    }
    let mut v: usize = 0;
    let mut i: usize = 0;
    while i < d.len()
        invariant
            i <= d.len(),
            forall|k: int| 0 <= k < i ==> is_digit(#[trigger] d@[k]),
            v == digits_value(d@.take(i as int)),
        decreases d.len() - i,
    {
        let c = d[i];
        if !('0' <= c && c <= '9') {
            return None;
        }
        let dig: usize = (c as u32 - '0' as u32) as usize;
        assert(d@.take(i + 1).drop_last() == d@.take(i as int));
        if v > (usize::MAX - dig) / 10 {
            proof {
                assert(forall|k: int| 0 <= k < i + 1 ==> is_digit(#[trigger] d@.take(i + 1)[k]));
                assert(digits_value(d@.take(i + 1)) > usize::MAX) by (nonlinear_arith)
                    requires
                        v > (usize::MAX - dig) / 10,
                        digits_value(d@.take(i + 1)) == v * 10 + dig,
                        dig <= 9,
                ;
                if forall|k: int| 0 <= k < d.len() ==> is_digit(#[trigger] d@[k]) {
                    lemma_digits_value_mono(d@, i + 1);
                }
            }
            return None;
        }
        assert(v * 10 + dig <= usize::MAX) by (nonlinear_arith)
            requires
                v <= (usize::MAX - dig) / 10,
                dig <= 9,
        ;
        v = v * 10 + dig;
        i = i + 1;
    }
    assert(d@.take(d.len() as int) == d@);
    Some(v)
}

/// Reads a node or sort id: an unsigned decimal token (an optional `+`, then
/// digits) that fits a `usize`.
pub fn parse_id(t: &Vec<char>) -> (r: Option<usize>)
    ensures
        r == usize_value(t@),
        r matches Some(v) ==> v == digits_value(unsigned_digits(t@)),
{
    if t.len() > 0 && t[0] == '+' {
        let d = t.as_slice().split_at(1).1;
        assert(d@ == t@.drop_first());
        digits_to_usize(d)
    } else {
        digits_to_usize(t.as_slice())
    }
}

/// Reads a signed node reference: a decimal token (an optional `+` or `-`,
/// then digits) that fits an `isize`.
pub fn parse_signed_id(t: &Vec<char>) -> (r: Option<isize>)
    ensures
        r == isize_value(t@),
{
    if t.len() > 0 && t[0] == '-' {
        let d = t.as_slice().split_at(1).1;
        assert(d@ == t@.drop_first());
        match digits_to_usize(d) {
            Some(m) => {
                if m == 0 {
                    Some(0)
                } else if m - 1 <= isize::MAX as usize {
                    Some(-((m - 1) as isize) - 1)
                } else {
                    None
                }
            },
            None => {
                None
            },
        }
    } else {
        match parse_id(t) {
            Some(m) => {
                if m <= isize::MAX as usize {
                    Some(m as isize)
                } else {
                    None
                }
            },
            None => None,
        }
    }
}

pub open spec fn digit_char(n: nat) -> char {
    (n + '0' as nat) as char
}

/// The decimal spelling of `n`, most significant digit first.
pub open spec fn decimal(n: nat) -> Seq<char>
    decreases n,
{
    if n < 10 {
        seq![digit_char(n)]
    } else {
        decimal(n / 10).push(digit_char(n % 10))
    }
}

proof fn lemma_decimal_digits(n: nat)
    ensures
        is_digits(decimal(n)),
        digits_value(decimal(n)) == n,
    decreases n,
{
    let d = n % 10;
    assert(digit_of(digit_char(d)) == d);
    assert(is_digit(digit_char(d)));
    assert(decimal(n).last() == digit_char(d));
    assert(digits_value(decimal(n)) == digits_value(decimal(n).drop_last()) * 10 + digit_of(
        decimal(n).last(),
    ));
    if n < 10 {
        assert(decimal(n).drop_last() == Seq::<char>::empty());
    } else {
        lemma_decimal_digits(n / 10);
        let s = decimal(n / 10);
        assert(decimal(n).drop_last() == s);
        assert((n / 10) * 10 + d == n) by (nonlinear_arith)
            requires
                d == n % 10,
        ;
        assert forall|i: int| 0 <= i < decimal(n).len() implies is_digit(#[trigger] decimal(n)[i]) by {
            if i < s.len() {
                assert(decimal(n)[i] == s[i]);
            }
        }
    }
}

/// A number written in decimal reads back as itself: the ids that the
/// deparser writes are the ids that the parser reads.
pub proof fn lemma_decimal_round_trip(n: usize)
    ensures
        usize_value(decimal(n as nat)) == Some(n),
{
    lemma_decimal_digits(n as nat);
    assert(unsigned_digits(decimal(n as nat)) == decimal(n as nat));
}

/// Appends the decimal spelling of `n` to `out`.
pub fn push_decimal(out: &mut Vec<char>, n: usize)
    ensures
        final(out)@ == old(out)@ + decimal(n as nat),
    decreases n,
{
    if n >= 10 {
        push_decimal(out, n / 10);
    }
    let c = char_from_digit((n % 10) as u32);
    out.push(c);
    assert(decimal(n as nat) == (if n < 10 {
        seq![digit_char(n as nat)]
    } else {
        decimal((n / 10) as nat).push(digit_char((n % 10) as nat))
    }));
}

fn char_from_digit(d: u32) -> (c: char)
    requires
        d < 10,
    ensures
        c == digit_char(d as nat),
{
    if d == 0 { '0' } else if d == 1 { '1' } else if d == 2 { '2' } else if d == 3 { '3' }
    else if d == 4 { '4' } else if d == 5 { '5' } else if d == 6 { '6' } else if d == 7 { '7' }
    else if d == 8 { '8' } else { '9' }
}

/// Appends the characters `v` to `out`.
pub fn push_chars(out: &mut Vec<char>, v: &Vec<char>)
    ensures
        final(out)@ == old(out)@ + v@,
{
    let ghost start = out@;
    let mut i: usize = 0;
    while i < v.len()
        invariant
            i <= v.len(),
            out@ == start + v@.take(i as int),
        decreases v.len() - i,
    {
        out.push(v[i]);
        assert(v@.take(i + 1) == v@.take(i as int).push(v@[i as int]));
        i = i + 1;
    }
    assert(v@.take(i as int) == v@);
}

/// Appends the characters of `s` to `out`.
pub fn push_str(out: &mut Vec<char>, s: &str)
    ensures
        final(out)@ == old(out)@ + s@,
{
    let ghost start = out@;
    for c in it: s.chars()
        invariant
            out@ == start + it.seq().take(it.index() as int),
    {
        out.push(c);
    }
}

} // verus!

verus! {

/// The kinds of failure of parsing, deparsing and witness mapping.
#[derive(Debug, Clone, Copy, PartialEq, Eq, Structural)]
pub enum ErrorKind {
    /// A sort or node id used before its definition.
    UndeclaredReference,
    /// An id defined twice.
    DuplicateId,
    /// A declared sort that disagrees with the sort of the term built.
    SortMismatch,
    /// A token that is not a literal of its radix, or too wide for its sort.
    MalformedLiteral,
    /// An array of arrays, or a malformed sort line.
    InvalidSort,
    /// A state with an initial value and no transition.
    InconsistentLatch,
    /// A witness whose lists disagree in length with the system.
    WitnessArityMismatch,
    /// A missing or unreadable field, or an unknown keyword.
    MalformedLine,
}

/// Relies on std's `FromIterator<char> for String`: the string holds the
/// characters in order.
#[verifier::external_body]
pub fn chars_to_string(v: &Vec<char>) -> (r: String)
    ensures
        r@ == v@,
{
    v.iter().collect()
}

} // verus!

verus! {

/// Whether the token `t` is the word `kw`.
pub fn tok_is(t: &Vec<char>, kw: &str) -> (r: bool)
    ensures
        r == (t@ == kw@),
{
    let mut i: usize = 0;
    let mut same = true;
    for c in it: kw.chars()
        invariant
            same ==> i == it.index(),
            it.seq() == kw@,
            same ==> i <= t.len() && t@.take(i as int) == it.seq().take(i as int),
            !same ==> t@ != kw@,
    {
        if same {
            if i < t.len() && t[i] == c {
                assert(t@.take(i + 1) == t@.take(i as int).push(c));
                i = i + 1;
            } else {
                if i < t.len() {
                    assert(t@[i as int] != kw@[i as int]);
                }
                same = false;
            }
        }
    }
    if same && i == t.len() {
        assert(t@.take(i as int) == t@);
        assert(kw@.take(i as int) == kw@);
        true
    } else {
        if same {
            assert(t@.take(i as int).len() == kw@.len());
        }
        false
    }
}

} // verus!
