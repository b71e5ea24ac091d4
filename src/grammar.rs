//! The grammar of dice expressions and its parser.
//!
//! An expression is read left to right as a sequence of terms separated by
//! optional whitespace. At each term the first form that fits is taken:
//!
//! - a dice term: an optional sign `+` or `-`, optional whitespace, optional
//!   decimal digits (the count, `1` when absent), the letter `d` or `D`, and
//!   one or more decimal digits (the number of sides);
//! - a constant: an optional sign, optional whitespace, one or more digits;
//! - anything else is an invalid token and fails the whole parse.
use vstd::prelude::*;
use crate::term::{DiceTerm, ParseError};

verus! {

/// Unicode whitespace (the `White_Space` property).
pub open spec fn is_space(c: char) -> bool {
    let u = c as u32;
    ||| 0x09 <= u <= 0x0d
    ||| u == 0x20
    ||| u == 0x85
    ||| u == 0xa0
    ||| u == 0x1680
    ||| 0x2000 <= u <= 0x200a
    ||| u == 0x2028
    ||| u == 0x2029
    ||| u == 0x202f
    ||| u == 0x205f
    ||| u == 0x3000
}

/// An ASCII decimal digit.
pub open spec fn is_digit(c: char) -> bool {
    0x30 <= (c as u32) <= 0x39
}

/// The value of an ASCII decimal digit.
pub open spec fn digit_value(c: char) -> nat {
    ((c as u32) - 0x30) as nat
}

pub open spec fn is_sign(c: char) -> bool {
    c == '+' || c == '-'
}

/// The letter that separates count and sides, in either case.
pub open spec fn is_die_letter(c: char) -> bool {
    c == 'd' || c == 'D'
}

/// The first index at or after `i` that holds no whitespace, or the length.
pub open spec fn skip_spaces(s: Seq<char>, i: int) -> int
    decreases s.len() - i,
{
    if 0 <= i < s.len() && is_space(s[i]) {
        skip_spaces(s, i + 1)
    } else {
        i
    }
}

/// The first index at or after `i` that holds no digit, or the length.
pub open spec fn digits_end(s: Seq<char>, i: int) -> int
    decreases s.len() - i,
{
    if 0 <= i < s.len() && is_digit(s[i]) {
        digits_end(s, i + 1)
    } else {
        i
    }
}

/// The number written by the digits `s[i..j]`.
pub open spec fn digits_value(s: Seq<char>, i: int, j: int) -> nat
    decreases j - i,
{
    if j <= i {
        0
    } else {
        digits_value(s, i, j - 1) * 10 + digit_value(s[j - 1])
    }
}

/// Where the digits of the term starting at `r` begin: past the sign and the
/// whitespace after it, if there is a sign.
pub open spec fn number_start(s: Seq<char>, r: int) -> int {
    if is_sign(s[r]) {
        skip_spaces(s, r + 1)
    } else {
        r
    }
}

/// `v` with the sign written at `r` applied.
pub open spec fn signed(s: Seq<char>, r: int, v: int) -> int {
    if s[r] == '-' {
        -v
    } else {
        v
    }
}

pub open spec fn fits_i32(v: int) -> bool {
    i32::MIN <= v <= i32::MAX
}

/// The term that starts at the non-whitespace index `r`, with the index just
/// past it.
pub open spec fn term_at(s: Seq<char>, r: int) -> Result<(DiceTerm, int), ParseError> {
    let a = number_start(s, r);
    let e = digits_end(s, a);
    if e < s.len() && is_die_letter(s[e]) && digits_end(s, e + 1) > e + 1 {
        let f = digits_end(s, e + 1);
        let count = signed(s, r, if e == a { 1 } else { digits_value(s, a, e) as int });
        let sides = digits_value(s, e + 1, f);
        if !fits_i32(count) || sides > u32::MAX {
            Err(ParseError::NumericOverflow)
        } else if sides == 0 {
            Err(ParseError::InvalidToken(r as usize))
        } else {
            Ok((DiceTerm::Dice { count: count as i32, sides: sides as u32 }, f))
        }
    } else if e > a {
        let v = signed(s, r, digits_value(s, a, e) as int);
        if !fits_i32(v) {
            Err(ParseError::NumericOverflow)
        } else {
            Ok((DiceTerm::Constant(v as i32), e))
        }
    } else {
        Err(ParseError::InvalidToken(r as usize))
    }
}

/// The terms of `s` from index `i` on.
pub open spec fn parse_from(s: Seq<char>, i: nat) -> Result<Seq<DiceTerm>, ParseError>
    decreases s.len() - i,
    via parse_from_decreases
{
    let r = skip_spaces(s, i as int);
    if r >= s.len() {
        Ok(Seq::empty())
    } else {
        match term_at(s, r) {
            Err(e) => Err(e),
            Ok((t, next)) => match parse_from(s, next as nat) {
                Err(e) => Err(e),
                Ok(rest) => Ok(seq![t] + rest),
            },
        }
    }
}

/// The terms of the expression `s`, or the first error met reading it.
pub open spec fn parse_terms(s: Seq<char>) -> Result<Seq<DiceTerm>, ParseError> {
    parse_from(s, 0)
}

proof fn lemma_skip_spaces_bounds(s: Seq<char>, i: int)
    requires
        0 <= i <= s.len(),
    ensures
        i <= skip_spaces(s, i) <= s.len(),
        skip_spaces(s, i) < s.len() ==> !is_space(s[skip_spaces(s, i)]),
    decreases s.len() - i,
{
    if i < s.len() && is_space(s[i]) {
        lemma_skip_spaces_bounds(s, i + 1);
    }
}

proof fn lemma_digits_end_bounds(s: Seq<char>, i: int)
    requires
        0 <= i <= s.len(),
    ensures
        i <= digits_end(s, i) <= s.len(),
        forall|k: int| i <= k < digits_end(s, i) ==> is_digit(#[trigger] s[k]),
    decreases s.len() - i,
{
    if i < s.len() && is_digit(s[i]) {
        lemma_digits_end_bounds(s, i + 1);
    }
}

/// A term read at a non-whitespace index ends past that index.
proof fn lemma_term_at_progress(s: Seq<char>, r: int)
    requires
        0 <= r < s.len(),
    ensures
        term_at(s, r) matches Ok((t, next)) ==> r < next <= s.len() && t.wf(),
{
    let a = number_start(s, r);
    lemma_skip_spaces_bounds(s, r + 1);
    lemma_digits_end_bounds(s, a);
    let e = digits_end(s, a);
    if e < s.len() {
        lemma_digits_end_bounds(s, e + 1);
    }
}

#[via_fn]
proof fn parse_from_decreases(s: Seq<char>, i: nat) {
    if i <= s.len() {
        lemma_skip_spaces_bounds(s, i as int);
        let r = skip_spaces(s, i as int);
        if r < s.len() {
            lemma_term_at_progress(s, r);
        }
    }
}

/// `prefix` followed by the terms of `rest`, or the error of `rest`.
pub open spec fn prepend(
    prefix: Seq<DiceTerm>,
    rest: Result<Seq<DiceTerm>, ParseError>,
) -> Result<Seq<DiceTerm>, ParseError> {
    match rest {
        Ok(terms) => Ok(prefix + terms),
        Err(e) => Err(e),
    }
}

fn is_space_char(c: char) -> (r: bool)
    ensures
        r == is_space(c),
{
    let u = c as u32;
    (0x09 <= u && u <= 0x0d) || u == 0x20 || u == 0x85 || u == 0xa0 || u == 0x1680 || (0x2000
        <= u && u <= 0x200a) || u == 0x2028 || u == 0x2029 || u == 0x202f || u == 0x205f || u
        == 0x3000
}

fn is_digit_char(c: char) -> (r: bool)
    ensures
        r == is_digit(c),
{
    let u = c as u32;
    0x30 <= u && u <= 0x39
}

fn chars_of(s: &str) -> (r: Vec<char>)
    ensures
        r@ == s@,
{
    let n = s.unicode_len();
    let mut cs: Vec<char> = Vec::new();
    let mut k: usize = 0;
    while k < n
        invariant
            n == s@.len(),
            k <= n,
            cs@ == s@.take(k as int),
        decreases n - k,
    {
        cs.push(s.get_char(k));
        k += 1;
        assert(cs@ =~= s@.take(k as int));
    }
    assert(cs@ =~= s@);
    cs
}

fn skip_spaces_at(cs: &Vec<char>, i: usize) -> (j: usize)
    requires
        i <= cs.len(),
    ensures
        j == skip_spaces(cs@, i as int),
{
    let mut j = i;
    while j < cs.len() && is_space_char(cs[j])
        invariant
            i <= j <= cs.len(),
            skip_spaces(cs@, j as int) == skip_spaces(cs@, i as int),
        decreases cs.len() - j,
    {
        j += 1;
    }
    j
}

fn digits_end_at(cs: &Vec<char>, i: usize) -> (j: usize)
    requires
        i <= cs.len(),
    ensures
        j == digits_end(cs@, i as int),
{
    let mut j = i;
    while j < cs.len() && is_digit_char(cs[j])
        invariant
            i <= j <= cs.len(),
            digits_end(cs@, j as int) == digits_end(cs@, i as int),
        decreases cs.len() - j,
    {
        j += 1;
    }
    j
}

/// The number written by the digits `cs[a..e]`, or `None` when it exceeds
/// `u32::MAX`.
fn read_number(cs: &Vec<char>, a: usize, e: usize) -> (r: Option<u64>)
    requires
        a <= e <= cs.len(),
        forall|k: int| a <= k < e ==> is_digit(#[trigger] cs@[k]),
    ensures
        r matches Some(v) ==> v == digits_value(cs@, a as int, e as int) && v <= u32::MAX,
        r is None ==> digits_value(cs@, a as int, e as int) > u32::MAX,
{
    let mut v: u64 = 0;
    let mut k: usize = a;
    while k < e
        invariant
            a <= k <= e <= cs.len(),
            forall|j: int| a <= j < e ==> is_digit(#[trigger] cs@[j]),
            v == digits_value(cs@, a as int, k as int),
            v <= u32::MAX,
        decreases e - k,
    {
        let d = (cs[k] as u32 - 0x30) as u64;
        assert(is_digit(cs@[k as int]));
        let next: u64 = v * 10 + d;
        k += 1;
        if next > 4294967295 {
            proof { lemma_digits_value_grows(cs@, a as int, k as int, e as int); }
            return None;
        }
        v = next;
    }
    Some(v)
}

proof fn lemma_digits_value_grows(s: Seq<char>, a: int, k: int, e: int)
    requires
        a <= k <= e,
    ensures
        digits_value(s, a, k) <= digits_value(s, a, e),
    decreases e - k,
{
    if k < e {
        lemma_digits_value_grows(s, a, k, e - 1);
    }
}

/// Reads the term that starts at the non-whitespace index `r`.
fn read_term(cs: &Vec<char>, r: usize) -> (res: Result<(DiceTerm, usize), ParseError>)
    requires
        r < cs.len(),
    ensures
        res matches Ok((t, n)) ==> term_at(cs@, r as int) == Ok::<(DiceTerm, int), ParseError>(
            (t, n as int),
        ),
        res matches Err(e) ==> term_at(cs@, r as int) == Err::<(DiceTerm, int), ParseError>(e),
{
    proof {
        lemma_skip_spaces_bounds(cs@, r + 1);
    }
    let c = cs[r];
    let negative = c == '-';
    let a = if c == '+' || c == '-' {
        skip_spaces_at(cs, r + 1)
    } else {
        r
    };
    let e = digits_end_at(cs, a);
    proof {
        lemma_digits_end_bounds(cs@, a as int);
    }
    let mut f = e;
    if e < cs.len() && (cs[e] == 'd' || cs[e] == 'D') {
        f = digits_end_at(cs, e + 1);
        proof {
            lemma_digits_end_bounds(cs@, e + 1);
        }
    }
    if f - e >= 2 {
        let count: i32 = if e == a {
            if negative {
                -1
            } else {
                1
            }
        } else {
            match read_number(cs, a, e) {
                None => {
                    return Err(ParseError::NumericOverflow);
                },
                Some(v) => {
                    if negative {
                        if v > 2147483648 {
                            return Err(ParseError::NumericOverflow);
                        }
                        (-(v as i64)) as i32
                    } else {
                        if v > 2147483647 {
                            return Err(ParseError::NumericOverflow);
                        }
                        v as i32
                    }
                },
            }
        };
        let sides = match read_number(cs, e + 1, f) {
            None => {
                return Err(ParseError::NumericOverflow);
            },
            Some(v) => v,
        };
        if sides == 0 {
            return Err(ParseError::InvalidToken(r));
        }
        Ok((DiceTerm::Dice { count, sides: sides as u32 }, f))
    } else if e > a {
        match read_number(cs, a, e) {
            None => Err(ParseError::NumericOverflow),
            Some(v) => {
                if negative {
                    if v > 2147483648 {
                        return Err(ParseError::NumericOverflow);
                    }
                    Ok((DiceTerm::Constant((-(v as i64)) as i32), e))
                } else {
                    if v > 2147483647 {
                        return Err(ParseError::NumericOverflow);
                    }
                    Ok((DiceTerm::Constant(v as i32), e))
                }
            },
        }
    } else {
        Err(ParseError::InvalidToken(r))
    }
}

impl DiceTerm {
    /// Parses the given string as dice terms, failing on the first token that
    /// is neither a dice term nor a constant, or whose numbers do not fit.
    pub fn parse(s: &str) -> (r: Result<Vec<DiceTerm>, ParseError>)
        ensures
            r matches Ok(terms) ==> parse_terms(s@) == Ok::<Seq<DiceTerm>, ParseError>(terms@),
            r matches Err(e) ==> parse_terms(s@) == Err::<Seq<DiceTerm>, ParseError>(e),
            r matches Ok(terms) ==> forall|k: int| 0 <= k < terms.len() ==> #[trigger] terms@[k].wf(),
    {
        let cs = chars_of(s);
        let mut terms: Vec<DiceTerm> = Vec::new();
        let mut i: usize = 0;
        loop
            invariant
                i <= cs.len(),
                cs@ == s@,
                prepend(terms@, parse_from(cs@, i as nat)) == parse_terms(cs@),
                forall|k: int| 0 <= k < terms.len() ==> #[trigger] terms@[k].wf(),
            decreases cs.len() - i,
        {
            let r = skip_spaces_at(&cs, i);
            proof {
                lemma_skip_spaces_bounds(cs@, i as int);
            }
            if r >= cs.len() {
                assert(terms@ + Seq::<DiceTerm>::empty() =~= terms@);
                return Ok(terms);
            }
            proof {
                lemma_term_at_progress(cs@, r as int);
            }
            match read_term(&cs, r) {
                Err(e) => {
                    return Err(e);
                },
                Ok((t, next)) => {
                    let ghost old_terms = terms@;
                    terms.push(t);
                    proof {
                        match parse_from(cs@, next as nat) {
                            Ok(rest) => {
                                assert(old_terms + (seq![t] + rest) =~= terms@ + rest);
                            },
                            Err(_) => {},
                        }
                    }
                    i = next;
                },
            }
        }
    }
}

} // verus!
