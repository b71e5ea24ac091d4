//! What a caller asks of a roll.
use vstd::prelude::*;
use crate::roll::join;

verus! {

/// The request: the dice terms to roll, and whether the expected average is
/// wanted too.
pub struct Arguments {
    /// Also calculate the expected average value
    pub average: bool,
    /// The dice rolls to calculate (like `2d4` or `d20+5`)
    pub dice_terms: Vec<String>,
}

impl Arguments {
    /// The dice terms written one after the other, as one expression.
    pub fn expression(&self) -> (r: String)
        ensures
            r@ == join(self.dice_terms@.map_values(|s: String| s@), Seq::empty()),
    {
        let ghost items = self.dice_terms@.map_values(|s: String| s@);
        let mut out = String::new();
        let mut k: usize = 0;
        while k < self.dice_terms.len()
            invariant
                k <= self.dice_terms.len(),
                items == self.dice_terms@.map_values(|s: String| s@),
                out@ == join(items.take(k as int), Seq::empty()),
            decreases self.dice_terms.len() - k,
        {
            let ghost before = out@;
            out.append(self.dice_terms[k].as_str());
            proof {
                let next = items.take(k + 1);
                assert(next.drop_last() =~= items.take(k as int));
                if k == 0 {
                    assert(items.take(0).len() == 0);
                    assert(out@ =~= join(next, Seq::empty()));
                } else {
                    assert(out@ =~= join(next, Seq::empty()));
                }
            }
            k += 1;
        }
        assert(items.take(k as int) =~= items);
        out
    }
}

} // verus!
