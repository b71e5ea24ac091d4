//! A single term of a dice expression: a dice roll or a constant offset.
use vstd::prelude::*;
use vstd::math::abs;
use crate::decimal::{int_text, nat_text, push_int, push_nat};
use crate::random::gen_range;

verus! {

/// Represents a single term in a dice expression.
#[derive(Debug, Clone, Copy, PartialEq, Eq, Structural)]
pub enum DiceTerm {
    /// A dice roll like `2d20` or `-d20`: `|count|` dice of `sides` faces,
    /// negated when `count` is negative.
    Dice { count: i32, sides: u32 },
    /// A constant offset to a roll like `2` or `-5`.
    Constant(i32),
}

/// Why a dice expression could not be parsed.
#[derive(Debug, Clone, Copy, PartialEq, Eq, Structural)]
pub enum ParseError {
    /// The token starting at this character index is neither a dice term nor
    /// a constant.
    InvalidToken(usize),
    /// A count, a number of sides or a constant does not fit its integer type.
    NumericOverflow,
}

impl DiceTerm {
    /// A die has at least one face.
    pub open spec fn wf(self) -> bool {
        match self {
            DiceTerm::Dice { sides, .. } => sides >= 1,
            DiceTerm::Constant(_) => true,
        }
    }

    /// Twice the expected value of the term: `count * (sides + 1)` for dice,
    /// `2 * v` for a constant.
    pub open spec fn doubled_average_spec(self) -> int {
        match self {
            DiceTerm::Dice { count, sides } => count * (sides + 1),
            DiceTerm::Constant(v) => 2 * v,
        }
    }

    /// The canonical text of the term: `<count>d<sides>` or the constant.
    pub open spec fn text(self) -> Seq<char> {
        match self {
            DiceTerm::Dice { count, sides } => int_text(count as int) + seq!['d'] + nat_text(
                sides as nat,
            ),
            DiceTerm::Constant(v) => int_text(v as int),
        }
    }

    /// `draws` is a possible set of faces shown by the dice of this term.
    pub open spec fn valid_draws(self, draws: Seq<u32>) -> bool {
        match self {
            DiceTerm::Dice { count, sides } => {
                &&& draws.len() == abs(count as int)
                &&& forall|k: int| 0 <= k < draws.len() ==> 1 <= #[trigger] draws[k] <= sides
            },
            DiceTerm::Constant(_) => draws.len() == 0,
        }
    }

    /// The outcome of the term given the faces its dice showed: each face,
    /// negated when the count is negative; a constant yields itself.
    pub open spec fn outcome_spec(self, draws: Seq<u32>) -> Seq<i64> {
        match self {
            DiceTerm::Dice { count, .. } => draws.map_values(
                |d: u32| if count < 0 { -(d as int) } else { d as int } as i64,
            ),
            DiceTerm::Constant(v) => seq![v as i64],
        }
    }

    /// `rolls` is a possible outcome of rolling this term.
    pub open spec fn valid_outcome(self, rolls: Seq<i64>) -> bool {
        match self {
            DiceTerm::Dice { count, sides } => {
                &&& rolls.len() == abs(count as int)
                &&& forall|k: int|
                    0 <= k < rolls.len() ==> if count < 0 {
                        -(sides as int) <= #[trigger] rolls[k] <= -1
                    } else {
                        1 <= rolls[k] <= sides
                    }
            },
            DiceTerm::Constant(v) => rolls == seq![v as i64],
        }
    }

    /// Twice the expected value of this term, which is exact where the
    /// expected value itself may end in one half.
    pub fn doubled_average(&self) -> (r: i64)
        ensures
            r == self.doubled_average_spec(),
    {
        match *self {
            DiceTerm::Dice { count, sides } => {
                let faces: i64 = sides as i64 + 1;
                assert(-2147483648 * 4294967296 <= count * faces <= 2147483647 * 4294967296)
                    by (nonlinear_arith)
                    requires
                        -2147483648 <= count <= 2147483647,
                        1 <= faces <= 4294967296,
                ;
                count as i64 * faces
            },
            DiceTerm::Constant(v) => 2 * v as i64,
        }
    }

    /// The canonical text of the term, such as `-3d8` or `5`.
    pub fn render(&self) -> (r: String)
        ensures
            r@ == self.text(),
    {
        let mut out = String::new();
        match *self {
            DiceTerm::Dice { count, sides } => {
                push_int(&mut out, count as i128);
                proof { reveal_strlit("d"); }
                out.append("d");
                push_nat(&mut out, sides as u128);
            },
            DiceTerm::Constant(v) => {
                push_int(&mut out, v as i128);
            },
        }
        assert(out@ =~= self.text());
        out
    }

    /// The outcome of this term given the faces its dice showed.
    pub fn outcome(&self, draws: &Vec<u32>) -> (r: Vec<i64>)
        requires
            self.valid_draws(draws@),
        ensures
            r@ == self.outcome_spec(draws@),
            self.valid_outcome(r@),
    {
        match *self {
            DiceTerm::Dice { count, sides } => {
                let mut rolls: Vec<i64> = Vec::new();
                let mut k: usize = 0;
                while k < draws.len()
                    invariant
                        k <= draws.len(),
                        self.valid_draws(draws@),
                        *self == (DiceTerm::Dice { count, sides }),
                        rolls@ =~= self.outcome_spec(draws@.take(k as int)),
                    decreases draws.len() - k,
                {
                    let d: i64 = draws[k] as i64;
                    let sign: i64 = sign_of_int(count) as i64;
                    assert(d * sign == if count < 0 { -d } else { d as int }) by (nonlinear_arith)
                        requires
                            count != 0,
                            count > 0 ==> sign == 1,
                            count < 0 ==> sign == -1,
                    ;
                    rolls.push(d * sign);
                    k += 1;
                    assert(rolls@ =~= self.outcome_spec(draws@.take(k as int)));
                }
                assert(draws@.take(k as int) =~= draws@);
                rolls
            },
            DiceTerm::Constant(v) => vec![v as i64],
        }
    }

    /// Rolls the dice, returning a random value for each die: `|count|`
    /// values, each between 1 and `sides`, negated when the count is
    /// negative. A constant yields itself.
    pub fn roll(&self) -> (r: Vec<i64>)
        requires
            self.wf(),
        ensures
            self.valid_outcome(r@),
            exists|draws: Seq<u32>| self.valid_draws(draws) && r@ == self.outcome_spec(draws),
    {
        let mut draws: Vec<u32> = Vec::new();
        if let DiceTerm::Dice { count, sides } = *self {
            let n: u32 = if count < 0 {
                if count == i32::MIN {
                    2147483648
                } else {
                    (-count) as u32
                }
            } else {
                count as u32
            };
            let mut k: u32 = 0;
            while k < n
                invariant
                    k <= n,
                    n == abs(count as int),
                    sides >= 1,
                    draws.len() == k,
                    forall|j: int| 0 <= j < k ==> 1 <= #[trigger] draws[j] <= sides,
                decreases n - k,
            {
                let face = gen_range(1, sides as u64 + 1);
                draws.push(face as u32);
                k += 1;
            }
        }
        self.outcome(&draws)
    }
}

/// Returns `+1`, `-1`, or `0` according to the sign of the input.
pub fn sign_of_int(x: i32) -> (r: i32)
    ensures
        r == (if x > 0 {
            1int
        } else if x < 0 {
            -1int
        } else {
            0int
        }),
{
    if x == 0 {
        0
    } else if x > 0 {
        1
    } else {
        -1
    }
}

} // verus!
