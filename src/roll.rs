//! Rolled dice expressions: each term with the values its roll produced.
use vstd::prelude::*;
use crate::decimal::{int_text, push_int};
use crate::grammar::parse_terms;
use crate::term::{DiceTerm, ParseError};

verus! {

/// The sum of a sequence of values.
pub open spec fn sum_of(vs: Seq<i64>) -> int
    decreases vs.len(),
{
    if vs.len() == 0 {
        0
    } else {
        sum_of(vs.drop_last()) + vs.last()
    }
}

/// The pieces of text `items`, with `sep` between each two.
pub open spec fn join(items: Seq<Seq<char>>, sep: Seq<char>) -> Seq<char>
    decreases items.len(),
{
    if items.len() == 0 {
        Seq::empty()
    } else if items.len() == 1 {
        items[0]
    } else {
        join(items.drop_last(), sep) + sep + items.last()
    }
}

/// The display of a rolled term: `<count>d<sides> (<v1>, <v2>, ...)` for
/// dice, the value alone for a constant.
pub open spec fn single_text(term: DiceTerm, rolls: Seq<i64>) -> Seq<char> {
    match term {
        DiceTerm::Dice { .. } => term.text() + seq![' ', '('] + join(
            rolls.map_values(|v: i64| int_text(v as int)),
            seq![',', ' '],
        ) + seq![')'],
        DiceTerm::Constant(_) => term.text(),
    }
}

/// The sum of every value rolled, over all terms.
pub open spec fn rolls_total(rolls: Seq<(DiceTerm, Seq<i64>)>) -> int
    decreases rolls.len(),
{
    if rolls.len() == 0 {
        0
    } else {
        rolls_total(rolls.drop_last()) + sum_of(rolls.last().1)
    }
}

/// Twice the expected value of an expression: the sum over its terms.
pub open spec fn doubled_average_of(terms: Seq<DiceTerm>) -> int
    decreases terms.len(),
{
    if terms.len() == 0 {
        0
    } else {
        doubled_average_of(terms.drop_last()) + terms.last().doubled_average_spec()
    }
}

/// The terms of a rolled expression, in order.
pub open spec fn terms_of(rolls: Seq<(DiceTerm, Seq<i64>)>) -> Seq<DiceTerm> {
    rolls.map_values(|p: (DiceTerm, Seq<i64>)| p.0)
}

/// Each term is well formed and its values are a possible roll of it.
pub open spec fn rolls_wf(rolls: Seq<(DiceTerm, Seq<i64>)>) -> bool {
    forall|k: int|
        0 <= k < rolls.len() ==> (#[trigger] rolls[k]).0.wf() && rolls[k].0.valid_outcome(
            rolls[k].1,
        )
}

/// The display of a rolled expression: its total, ` = `, and each rolled
/// term, joined by ` + `.
pub open spec fn roll_text(rolls: Seq<(DiceTerm, Seq<i64>)>) -> Seq<char> {
    int_text(rolls_total(rolls)) + seq![' ', '=', ' '] + join(
        rolls.map_values(|p: (DiceTerm, Seq<i64>)| single_text(p.0, p.1)),
        seq![' ', '+', ' '],
    )
}

/// The rolled result of a single term.
pub struct SingleRoll {
    term: DiceTerm,
    rolls: Vec<i64>,
}

impl View for SingleRoll {
    type V = (DiceTerm, Seq<i64>);

    closed spec fn view(&self) -> (DiceTerm, Seq<i64>) {
        (self.term, self.rolls@)
    }
}

impl SingleRoll {
    pub open spec fn wf(&self) -> bool {
        self@.0.wf() && self@.0.valid_outcome(self@.1)
    }

    /// A term together with the values a roll of it produced.
    pub fn new(term: DiceTerm, rolls: Vec<i64>) -> (r: SingleRoll)
        requires
            term.wf(),
            term.valid_outcome(rolls@),
        ensures
            r@ == (term, rolls@),
            r.wf(),
    {
        SingleRoll { term, rolls }
    }

    /// Rolls `term` once.
    pub fn roll(term: DiceTerm) -> (r: SingleRoll)
        requires
            term.wf(),
        ensures
            r@.0 == term,
            r.wf(),
    {
        let rolls = term.roll();
        SingleRoll { term, rolls }
    }

    pub fn term(&self) -> (r: DiceTerm)
        ensures
            r == self@.0,
    {
        self.term
    }

    pub fn rolls(&self) -> (r: &Vec<i64>)
        ensures
            r@ == self@.1,
    {
        &self.rolls
    }

    /// The sum of the values rolled.
    pub fn total(&self) -> (r: i64)
        requires
            self.wf(),
        ensures
            r == sum_of(self@.1),
    {
        let n = self.rolls.len();
        assert(n <= 2147483648);
        assert(forall|j: int|
            0 <= j < n ==> -4294967295 <= #[trigger] self.rolls@[j] <= 4294967295);
        let mut total: i64 = 0;
        let mut k: usize = 0;
        while k < n
            invariant
                n == self.rolls.len(),
                n <= 2147483648,
                k <= n,
                forall|j: int| 0 <= j < n ==> -4294967295 <= #[trigger] self.rolls@[j] <= 4294967295,
                total == sum_of(self.rolls@.take(k as int)),
                -(k * 4294967295) <= total <= k * 4294967295,
            decreases n - k,
        {
            assert(self.rolls@.take(k + 1).drop_last() =~= self.rolls@.take(k as int));
            total = total + self.rolls[k];
            k += 1;
        }
        assert(self.rolls@.take(n as int) =~= self.rolls@);
        total
    }

    /// The display of this rolled term, such as `-2d8 (-1, -5)` or `5`.
    pub fn render(&self) -> (r: String)
        ensures
            r@ == single_text(self@.0, self@.1),
    {
        let mut out = self.term.render();
        if let DiceTerm::Dice { .. } = self.term {
            proof {
                reveal_strlit(" (");
            }
            out.append(" (");
            let ghost start = out@;
            let ghost sep = seq![',', ' '];
            let ghost items = self.rolls@.map_values(|v: i64| int_text(v as int));
            let mut k: usize = 0;
            while k < self.rolls.len()
                invariant
                    k <= self.rolls.len(),
                    sep == seq![',', ' '],
                    items == self.rolls@.map_values(|v: i64| int_text(v as int)),
                    out@ == start + join(items.take(k as int), sep),
                decreases self.rolls.len() - k,
            {
                let ghost before = out@;
                if k > 0 {
                    out.append(", ");
                }
                push_int(&mut out, self.rolls[k] as i128);
                proof {
                    let next = items.take(k + 1);
                    assert(next.drop_last() =~= items.take(k as int));
                    if k == 0 {
                        assert(items.take(0).len() == 0);
                        assert(before =~= start);
                        assert(join(next, sep) == next[0]);
                        assert(out@ =~= start + join(next, sep));
                    } else {
                        reveal_strlit(", ");
                        assert(join(next, sep) == join(items.take(k as int), sep) + sep + next.last());
                        assert(out@ =~= before + sep + next.last());
                        assert(out@ =~= start + join(next, sep));
                    }
                }
                k += 1;
            }
            assert(items.take(k as int) =~= items);
            proof {
                reveal_strlit(")");
            }
            out.append(")");
        }
        out
    }
}

/// The result of dice rolls: each term of an expression with its roll.
pub struct Roll {
    rolls: Vec<SingleRoll>,
}

impl View for Roll {
    type V = Seq<(DiceTerm, Seq<i64>)>;

    closed spec fn view(&self) -> Seq<(DiceTerm, Seq<i64>)> {
        self.rolls@.map_values(|r: SingleRoll| r@)
    }
}

impl Roll {
    pub open spec fn wf(&self) -> bool {
        rolls_wf(self@)
    }

    /// An expression rolled term by term.
    pub fn new(rolls: Vec<SingleRoll>) -> (r: Roll)
        requires
            forall|k: int| 0 <= k < rolls.len() ==> (#[trigger] rolls@[k]).wf(),
        ensures
            r@ == rolls@.map_values(|x: SingleRoll| x@),
            r.wf(),
    {
        Roll { rolls }
    }

    pub fn rolls(&self) -> (r: &Vec<SingleRoll>)
        ensures
            r@.map_values(|x: SingleRoll| x@) == self@,
    {
        &self.rolls
    }

    /// Parses the given string as dice terms and rolls each of them.
    pub fn parse(s: &str) -> (r: Result<Roll, ParseError>)
        ensures
            r matches Ok(roll) ==> parse_terms(s@) == Ok::<Seq<DiceTerm>, ParseError>(
                terms_of(roll@),
            ) && roll.wf(),
            r matches Err(e) ==> parse_terms(s@) == Err::<Seq<DiceTerm>, ParseError>(e),
    {
        let terms = match DiceTerm::parse(s) {
            Ok(terms) => terms,
            Err(e) => {
                return Err(e);
            },
        };
        let mut rolls: Vec<SingleRoll> = Vec::new();
        let mut k: usize = 0;
        while k < terms.len()
            invariant
                k <= terms.len(),
                forall|j: int| 0 <= j < terms.len() ==> #[trigger] terms@[j].wf(),
                rolls.len() == k,
                forall|j: int| 0 <= j < k ==> (#[trigger] rolls@[j]).wf() && rolls@[j]@.0 == terms@[j],
            decreases terms.len() - k,
        {
            rolls.push(SingleRoll::roll(terms[k]));
            k += 1;
        }
        let roll = Roll { rolls };
        assert(terms_of(roll@) =~= terms@);
        Ok(roll)
    }

    /// The sum of every value rolled, over all terms. It is computed in
    /// 128 bits, where it cannot overflow.
    pub fn total(&self) -> (r: i128)
        requires
            self.wf(),
        ensures
            r == rolls_total(self@),
    {
        let n = self.rolls.len();
        let mut total: i128 = 0;
        let mut k: usize = 0;
        while k < n
            invariant
                n == self.rolls.len(),
                k <= n,
                self.wf(),
                total == rolls_total(self@.take(k as int)),
                -(k * 9223372036854775808) <= total <= k * 9223372036854775808,
            decreases n - k,
        {
            assert(self@.take(k + 1).drop_last() =~= self@.take(k as int));
            assert(self@[k as int] == self.rolls@[k as int]@);
            let t = self.rolls[k].total();
            assert(k * 9223372036854775808 + 9223372036854775808 <= 18446744073709551615
                * 9223372036854775808);
            total = total + t as i128;
            k += 1;
        }
        assert(self@.take(n as int) =~= self@);
        total
    }

    /// Twice the expected value of the expression: the sum of the terms'
    /// doubled averages. It does not depend on the values rolled.
    pub fn doubled_average(&self) -> (r: i128)
        ensures
            r == doubled_average_of(terms_of(self@)),
    {
        let n = self.rolls.len();
        let ghost terms = terms_of(self@);
        let mut total: i128 = 0;
        let mut k: usize = 0;
        while k < n
            invariant
                n == self.rolls.len(),
                k <= n,
                terms == terms_of(self@),
                total == doubled_average_of(terms.take(k as int)),
                -(k * 9223372036854775808) <= total <= k * 9223372036854775808,
            decreases n - k,
        {
            assert(terms.take(k + 1).drop_last() =~= terms.take(k as int));
            assert(terms[k as int] == self.rolls@[k as int]@.0);
            let t = self.rolls[k].term.doubled_average();
            assert(k * 9223372036854775808 + 9223372036854775808 <= 18446744073709551615
                * 9223372036854775808);
            total = total + t as i128;
            k += 1;
        }
        assert(terms.take(n as int) =~= terms);
        total
    }

    /// The display of the rolled expression, such as `5 = 2d8 (1, 6) + -2`.
    pub fn render(&self) -> (r: String)
        requires
            self.wf(),
        ensures
            r@ == roll_text(self@),
    {
        let mut out = String::new();
        push_int(&mut out, self.total());
        proof {
            reveal_strlit(" = ");
        }
        out.append(" = ");
        let ghost start = out@;
        let ghost sep = seq![' ', '+', ' '];
        let ghost items = self@.map_values(|p: (DiceTerm, Seq<i64>)| single_text(p.0, p.1));
        let mut k: usize = 0;
        while k < self.rolls.len()
            invariant
                k <= self.rolls.len(),
                sep == seq![' ', '+', ' '],
                items == self@.map_values(|p: (DiceTerm, Seq<i64>)| single_text(p.0, p.1)),
                out@ == start + join(items.take(k as int), sep),
            decreases self.rolls.len() - k,
        {
            let ghost before = out@;
            if k > 0 {
                out.append(" + ");
            }
            let piece = self.rolls[k].render();
            out.append(piece.as_str());
            proof {
                let next = items.take(k + 1);
                assert(next.drop_last() =~= items.take(k as int));
                assert(self@[k as int] == self.rolls@[k as int]@);
                assert(next.last() == piece@);
                if k == 0 {
                    assert(items.take(0).len() == 0);
                    assert(before =~= start);
                    assert(join(next, sep) == next[0]);
                    assert(out@ =~= start + join(next, sep));
                } else {
                    reveal_strlit(" + ");
                    assert(join(next, sep) == join(items.take(k as int), sep) + sep + next.last());
                    assert(out@ =~= before + sep + next.last());
                    assert(out@ =~= start + join(next, sep));
                }
            }
            k += 1;
        }
        assert(items.take(k as int) =~= items);
        assert(out@ =~= roll_text(self@));
        out
    }
}

} // verus!
