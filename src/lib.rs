//! Dice notation: parsing expressions such as `2d20 + 5`, rolling them, and
//! computing their expected value.

mod arguments;
mod decimal;
mod grammar;
mod laws;
mod random;
mod roll;
mod term;

pub use arguments::Arguments;
pub use decimal::{digit_char, int_text, nat_text, push_int, push_nat};
pub use grammar::{
    digit_value, digits_end, digits_value, fits_i32, is_die_letter, is_digit, is_sign, is_space,
    number_start, parse_from, parse_terms, prepend, signed, skip_spaces, term_at,
};
pub use laws::{
    all_digits, all_values, is_sign_text, lemma_average_ignores_rolls, lemma_constant_text,
    lemma_dice_text, lemma_implicit_count, lemma_render_round_trip, lemma_total_sums_all_values,
    written_count,
};
pub use roll::{
    doubled_average_of, join, roll_text, rolls_total, rolls_wf, single_text, sum_of, terms_of,
    Roll, SingleRoll,
};
pub use term::{sign_of_int, DiceTerm, ParseError};
