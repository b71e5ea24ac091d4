//! Laws of the notation: how text, terms and their rolls relate.
use vstd::prelude::*;
use crate::decimal::{digit_char, int_text, nat_text};
use crate::grammar::{
    digit_value, digits_end, digits_value, fits_i32, is_digit, is_space, parse_from,
    parse_terms, skip_spaces,
};
use crate::roll::{doubled_average_of, rolls_total, sum_of, terms_of, Roll};
use crate::term::{DiceTerm, ParseError};

verus! {

/// Every character of `s` is an ASCII digit.
pub open spec fn all_digits(s: Seq<char>) -> bool {
    forall|k: int| 0 <= k < s.len() ==> is_digit(#[trigger] s[k])
}

/// The count that `sign` and the digits `count` stand for: one when no digit
/// is written, negated under a `-`.
pub open spec fn written_count(sign: Seq<char>, count: Seq<char>) -> int {
    let v = if count.len() == 0 {
        1
    } else {
        digits_value(count, 0, count.len() as int) as int
    };
    if sign == seq!['-'] {
        -v
    } else {
        v
    }
}

/// A sign as written before a term: none, `+` or `-`.
pub open spec fn is_sign_text(sign: Seq<char>) -> bool {
    sign == Seq::<char>::empty() || sign == seq!['+'] || sign == seq!['-']
}

proof fn lemma_digit_char(d: nat)
    requires
        d < 10,
    ensures
        is_digit(digit_char(d)),
        digit_value(digit_char(d)) == d,
{
}

proof fn lemma_nat_text(n: nat)
    ensures
        nat_text(n).len() >= 1,
        all_digits(nat_text(n)),
        digits_value(nat_text(n), 0, nat_text(n).len() as int) == n,
    decreases n,
{
    lemma_digit_char(n % 10);
    let t = nat_text(n);
    if n >= 10 {
        lemma_nat_text(n / 10);
        let p = nat_text(n / 10);
        assert(t =~= p.push(digit_char(n % 10)));
        lemma_digits_value_local(t, 0, t.len() - 1);
        assert(t.subrange(0, t.len() - 1) =~= p);
        assert(digits_value(t, 0, t.len() as int) == (n / 10) * 10 + n % 10);
        assert(forall|k: int| 0 <= k < t.len() - 1 ==> t[k] == p[k]);
    } else {
        assert(digits_value(t, 0, 0) == 0);
        assert(digits_value(t, 0, 1) == n);
    }
}

/// The value of a run of digits depends on those digits alone.
proof fn lemma_digits_value_local(s: Seq<char>, i: int, j: int)
    requires
        0 <= i <= j <= s.len(),
    ensures
        digits_value(s, i, j) == digits_value(s.subrange(i, j), 0, j - i),
    decreases j - i,
{
    if i < j {
        let sub = s.subrange(i, j);
        lemma_digits_value_local(s, i, j - 1);
        lemma_digits_value_local(sub, 0, j - i - 1);
        assert(sub.subrange(0, j - i - 1) =~= s.subrange(i, j - 1));
    }
}

/// A run of digits `s[i..j]` that is not followed by a digit ends at `j`.
proof fn lemma_digits_end_at(s: Seq<char>, i: int, j: int)
    requires
        0 <= i <= j <= s.len(),
        forall|k: int| i <= k < j ==> is_digit(#[trigger] s[k]),
        j == s.len() || !is_digit(s[j]),
    ensures
        digits_end(s, i) == j,
    decreases j - i,
{
    if i < j {
        lemma_digits_end_at(s, i + 1, j);
    }
}

/// Reading a lone dice term written `[sign][count]d<sides>`, with no
/// whitespace, gives that one term, with the count and sides written.
pub proof fn lemma_dice_text(sign: Seq<char>, count: Seq<char>, sides: Seq<char>)
    requires
        is_sign_text(sign),
        all_digits(count),
        all_digits(sides),
        sides.len() >= 1,
        1 <= digits_value(sides, 0, sides.len() as int) <= u32::MAX,
        fits_i32(written_count(sign, count)),
    ensures
        parse_terms(sign + count + seq!['d'] + sides) == Ok::<Seq<DiceTerm>, ParseError>(
            seq![
                DiceTerm::Dice {
                    count: written_count(sign, count) as i32,
                    sides: digits_value(sides, 0, sides.len() as int) as u32,
                },
            ],
        ),
{
    let s = sign + count + seq!['d'] + sides;
    let a = sign.len() as int;
    let e = a + count.len();
    let f = s.len() as int;
    assert(s[0] == '+' || s[0] == '-' || s[0] == 'd' || is_digit(s[0]));
    assert(!is_space(s[0]));
    assert(skip_spaces(s, 0) == 0);
    if a == 1 {
        assert(s[1] == 'd' || is_digit(s[1]));
        assert(!is_space(s[1]));
        assert(skip_spaces(s, 1) == 1);
    }
    assert(s[e] == 'd');
    lemma_digits_end_at(s, a, e);
    lemma_digits_end_at(s, e + 1, f);
    lemma_digits_value_local(s, a, e);
    assert(s.subrange(a, e) =~= count);
    lemma_digits_value_local(s, e + 1, f);
    assert(s.subrange(e + 1, f) =~= sides);
    assert(s[0] == '-' <==> sign == seq!['-']);
    assert(skip_spaces(s, f) == f);
    assert(parse_from(s, f as nat) == Ok::<Seq<DiceTerm>, ParseError>(Seq::empty()));
    let t = DiceTerm::Dice {
        count: written_count(sign, count) as i32,
        sides: digits_value(sides, 0, sides.len() as int) as u32,
    };
    assert(seq![t] + Seq::<DiceTerm>::empty() =~= seq![t]);
}

/// Reading a lone constant written `[sign]<digits>`, with no whitespace,
/// gives that one constant.
pub proof fn lemma_constant_text(sign: Seq<char>, digits: Seq<char>)
    requires
        is_sign_text(sign),
        all_digits(digits),
        digits.len() >= 1,
        fits_i32(written_count(sign, digits)),
    ensures
        parse_terms(sign + digits) == Ok::<Seq<DiceTerm>, ParseError>(
            seq![DiceTerm::Constant(written_count(sign, digits) as i32)],
        ),
{
    let s = sign + digits;
    let a = sign.len() as int;
    let e = s.len() as int;
    assert(s[0] == '+' || s[0] == '-' || is_digit(s[0]));
    assert(!is_space(s[0]));
    assert(skip_spaces(s, 0) == 0);
    if a == 1 {
        assert(is_digit(s[1]));
        assert(!is_space(s[1]));
        assert(skip_spaces(s, 1) == 1);
    }
    lemma_digits_end_at(s, a, e);
    lemma_digits_value_local(s, a, e);
    assert(s.subrange(a, e) =~= digits);
    assert(s[0] == '-' <==> sign == seq!['-']);
    assert(skip_spaces(s, e) == e);
    assert(parse_from(s, e as nat) == Ok::<Seq<DiceTerm>, ParseError>(Seq::empty()));
    let t = DiceTerm::Constant(written_count(sign, digits) as i32);
    assert(seq![t] + Seq::<DiceTerm>::empty() =~= seq![t]);
}

/// Rendering a well-formed term and reading the text back gives the same
/// term: the canonical text keeps the signed count and the sides.
pub proof fn lemma_render_round_trip(t: DiceTerm)
    requires
        t.wf(),
    ensures
        parse_terms(t.text()) == Ok::<Seq<DiceTerm>, ParseError>(seq![t]),
{
    match t {
        DiceTerm::Dice { count, sides } => {
            let m = if count < 0 { -count } else { count as int };
            let sign = if count < 0 { seq!['-'] } else { Seq::<char>::empty() };
            lemma_nat_text(m as nat);
            lemma_nat_text(sides as nat);
            assert(int_text(count as int) =~= sign + nat_text(m as nat));
            lemma_dice_text(sign, nat_text(m as nat), nat_text(sides as nat));
        },
        DiceTerm::Constant(v) => {
            let m = if v < 0 { -v } else { v as int };
            let sign = if v < 0 { seq!['-'] } else { Seq::<char>::empty() };
            lemma_nat_text(m as nat);
            assert(int_text(v as int) =~= sign + nat_text(m as nat));
            lemma_constant_text(sign, nat_text(m as nat));
        },
    }
}

/// Every value rolled in an expression, term after term.
pub open spec fn all_values(rolls: Seq<(DiceTerm, Seq<i64>)>) -> Seq<i64> {
    rolls.map_values(|p: (DiceTerm, Seq<i64>)| p.1).flatten()
}

proof fn lemma_sum_concat(a: Seq<i64>, b: Seq<i64>)
    ensures
        sum_of(a + b) == sum_of(a) + sum_of(b),
    decreases b.len(),
{
    if b.len() == 0 {
        assert(a + b =~= a);
    } else {
        lemma_sum_concat(a, b.drop_last());
        assert((a + b).drop_last() =~= a + b.drop_last());
    }
}

/// The total of a rolled expression is the sum of all the values rolled for
/// all its terms.
pub proof fn lemma_total_sums_all_values(rolls: Seq<(DiceTerm, Seq<i64>)>)
    ensures
        rolls_total(rolls) == sum_of(all_values(rolls)),
    decreases rolls.len(),
{
    let vs = rolls.map_values(|p: (DiceTerm, Seq<i64>)| p.1);
    vs.lemma_flatten_and_flatten_alt_are_equivalent();
    if rolls.len() > 0 {
        let rest = rolls.drop_last();
        lemma_total_sums_all_values(rest);
        let ws = rest.map_values(|p: (DiceTerm, Seq<i64>)| p.1);
        ws.lemma_flatten_and_flatten_alt_are_equivalent();
        assert(vs.drop_last() =~= ws);
        lemma_sum_concat(ws.flatten_alt(), vs.last());
    } else {
        assert(vs.flatten() =~= Seq::<i64>::empty());
    }
}

/// Two rolls of the same expression may differ in their values and totals,
/// but their expected value is the same: it depends on the terms alone.
pub proof fn lemma_average_ignores_rolls(a: Roll, b: Roll)
    requires
        terms_of(a@) == terms_of(b@),
    ensures
        doubled_average_of(terms_of(a@)) == doubled_average_of(terms_of(b@)),
{
}

/// A dice term written without a count reads as one with the count `1`:
/// `d20` as `1d20`, `-d20` as `-1d20`.
pub proof fn lemma_implicit_count(sign: Seq<char>, sides: Seq<char>)
    requires
        is_sign_text(sign),
        all_digits(sides),
        sides.len() >= 1,
        1 <= digits_value(sides, 0, sides.len() as int) <= u32::MAX,
    ensures
        parse_terms(sign + seq!['d'] + sides) == parse_terms(sign + seq!['1', 'd'] + sides),
{
    let one = seq!['1'];
    assert(digits_value(one, 0, 0) == 0);
    assert(digits_value(one, 0, 1) == 1);
    lemma_dice_text(sign, Seq::empty(), sides);
    lemma_dice_text(sign, one, sides);
    assert(sign + Seq::<char>::empty() + seq!['d'] + sides =~= sign + seq!['d'] + sides);
    assert(sign + one + seq!['d'] + sides =~= sign + seq!['1', 'd'] + sides);
}

} // verus!
