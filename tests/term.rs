use dice::DiceTerm;
use dice::DiceTerm::{Constant, Dice};
use dice::ParseError;

#[test]
fn test_constant_parsing() {
    assert_eq!(Ok(vec![Constant(10)]), DiceTerm::parse("10"));
    assert_eq!(Ok(vec![Constant(10)]), DiceTerm::parse("+10"));
    assert_eq!(Ok(vec![Constant(10)]), DiceTerm::parse(" + 10"));
    assert_eq!(Ok(vec![Constant(-10)]), DiceTerm::parse("-10"));
    assert_eq!(Ok(vec![Constant(-10)]), DiceTerm::parse(" - 10"));
}

#[test]
fn test_dice_parsing() {
    assert_eq!(Ok(vec![Dice { count: 1, sides: 20 }]), DiceTerm::parse("d20"));
    assert_eq!(Ok(vec![Dice { count: 1, sides: 20 }]), DiceTerm::parse("1d20"));
    assert_eq!(Ok(vec![Dice { count: -1, sides: 20 }]), DiceTerm::parse("-1d20"));
    assert_eq!(Ok(vec![Dice { count: -1, sides: 20 }]), DiceTerm::parse("-d20"));
    assert_eq!(Ok(vec![Dice { count: -1, sides: 20 }]), DiceTerm::parse("- d20"));
    assert_eq!(Ok(vec![Dice { count: -1, sides: 20 }]), DiceTerm::parse("- 1d20"));
    assert_eq!(Ok(vec![Dice { count: 3, sides: 8 }]), DiceTerm::parse("3d8"));
}

#[test]
fn test_compound_dice_parsing() {
    assert_eq!(Ok(vec![Dice { count: 2, sides: 20 }, Constant(5)]), DiceTerm::parse("2d20 +5"));
    assert_eq!(Ok(vec![Dice { count: 2, sides: 20 }, Constant(-5)]), DiceTerm::parse("2d20 -5"));
    assert_eq!(Ok(vec![Dice { count: 2, sides: 20 }, Constant(5)]), DiceTerm::parse("2d20 + 5"));
    assert_eq!(Ok(vec![Dice { count: 2, sides: 20 }, Constant(-5)]), DiceTerm::parse("2d20 - 5"));
}

#[test]
fn test_invalid_parsing() {
    assert!(DiceTerm::parse("no").is_err());
    assert!(DiceTerm::parse("2d20 + -5").is_err());
    assert!(DiceTerm::parse("2d20 + 5 + no").is_err());
    assert!(DiceTerm::parse("2c20").is_err());
}

#[test]
fn test_dice_rolls() {
    let rolls = Dice { count: 1, sides: 20 }.roll();
    assert_eq!(1, rolls.len(), "1 die should have been rolled.");
    let roll = rolls[0];
    assert!(roll <= 20, "Roll {} should be no more than 20.", roll);
    assert!(roll >= 1, "Roll {} should be at least 1.", roll);
}

#[test]
fn test_negative_dice_rolls() {
    let rolls = Dice { count: -3, sides: 6 }.roll();
    assert_eq!(3, rolls.len(), "3 dice should have been rolled.");

    for roll in rolls {
        assert!(roll >= -6, "Roll {} should be at least -18.", roll);
        assert!(roll <= -1, "Roll {} should be no more than -3.", roll);
    }
}

#[test]
fn test_constant_rolls() {
    assert_eq!(vec![10], Constant(10).roll());
    assert_eq!(vec![-2], Constant(-2).roll());
}

#[test]
fn test_dice_averages() {
    assert_eq!(10.5, Dice { count: 1, sides: 20 }.doubled_average() as f64 / 2.0);
    assert_eq!(-10.5, Dice { count: -3, sides: 6 }.doubled_average() as f64 / 2.0);
    assert_eq!(28.0, Dice { count: 8, sides: 6 }.doubled_average() as f64 / 2.0);
}

#[test]
fn test_constant_averages() {
    assert_eq!(10.0, Constant(10).doubled_average() as f64 / 2.0);
    assert_eq!(-2.0, Constant(-2).doubled_average() as f64 / 2.0);
}

#[test]
fn test_display() {
    assert_eq!("1d20", Dice { count: 1, sides: 20 }.render());
    assert_eq!("-3d8", Dice { count: -3, sides: 8 }.render());
    assert_eq!("5", Constant(5).render());
    assert_eq!("-2", Constant(-2).render());
}

#[test]
fn doubled_average_exact_values() {
    assert_eq!(21, Dice { count: 1, sides: 20 }.doubled_average());
    assert_eq!(-21, Dice { count: -3, sides: 6 }.doubled_average());
    assert_eq!(56, Dice { count: 8, sides: 6 }.doubled_average());
    assert_eq!(0, Dice { count: 0, sides: 6 }.doubled_average());
    assert_eq!(14, Constant(7).doubled_average());
    assert_eq!(
        i32::MIN as i64 * 4294967296,
        Dice { count: i32::MIN, sides: u32::MAX }.doubled_average()
    );
}

#[test]
fn implicit_count_is_one() {
    assert_eq!(DiceTerm::parse("1d20"), DiceTerm::parse("d20"));
    assert_eq!(DiceTerm::parse("-1d20"), DiceTerm::parse("-d20"));
    assert_eq!(Ok(vec![Dice { count: 1, sides: 6 }]), DiceTerm::parse("+d6"));
}

#[test]
fn explicit_zero_count_is_kept() {
    assert_eq!(Ok(vec![Dice { count: 0, sides: 6 }]), DiceTerm::parse("0d6"));
    assert_eq!(Vec::<i64>::new(), Dice { count: 0, sides: 6 }.roll());
}

#[test]
fn letter_case_is_ignored() {
    assert_eq!(Ok(vec![Dice { count: 2, sides: 8 }]), DiceTerm::parse("2D8"));
}

#[test]
fn terms_need_no_whitespace_between() {
    assert_eq!(
        Ok(vec![Dice { count: 1, sides: 20 }, Constant(5), Dice { count: -2, sides: 4 }]),
        DiceTerm::parse("d20+5-2d4")
    );
    assert_eq!(
        Ok(vec![Dice { count: 3, sides: 8 }, Dice { count: 1, sides: 6 }]),
        DiceTerm::parse("3d8d6")
    );
}

#[test]
fn blank_input_has_no_terms() {
    assert_eq!(Ok(vec![]), DiceTerm::parse(""));
    assert_eq!(Ok(vec![]), DiceTerm::parse(" \t "));
}

#[test]
fn invalid_token_reports_its_position() {
    assert_eq!(Err(ParseError::InvalidToken(0)), DiceTerm::parse("no"));
    assert_eq!(Err(ParseError::InvalidToken(5)), DiceTerm::parse("2d20 + -5"));
    assert_eq!(Err(ParseError::InvalidToken(9)), DiceTerm::parse("2d20 + 5 + no"));
    assert_eq!(Err(ParseError::InvalidToken(1)), DiceTerm::parse("2c20"));
    assert_eq!(Err(ParseError::InvalidToken(1)), DiceTerm::parse("5d"));
    assert_eq!(Err(ParseError::InvalidToken(0)), DiceTerm::parse("+"));
}

#[test]
fn zero_sides_are_rejected() {
    assert_eq!(Err(ParseError::InvalidToken(0)), DiceTerm::parse("2d0"));
    assert_eq!(Err(ParseError::InvalidToken(2)), DiceTerm::parse("1 d00"));
}

#[test]
fn numbers_out_of_range_overflow() {
    assert_eq!(Ok(vec![Constant(i32::MAX)]), DiceTerm::parse("2147483647"));
    assert_eq!(Ok(vec![Constant(i32::MIN)]), DiceTerm::parse("-2147483648"));
    assert_eq!(Err(ParseError::NumericOverflow), DiceTerm::parse("2147483648"));
    assert_eq!(Err(ParseError::NumericOverflow), DiceTerm::parse("-2147483649"));
    assert_eq!(Err(ParseError::NumericOverflow), DiceTerm::parse("99999999999999999999"));
    assert_eq!(Ok(vec![Dice { count: 1, sides: u32::MAX }]), DiceTerm::parse("d4294967295"));
    assert_eq!(Err(ParseError::NumericOverflow), DiceTerm::parse("d4294967296"));
    assert_eq!(Ok(vec![Dice { count: i32::MIN, sides: 2 }]), DiceTerm::parse("-2147483648d2"));
    assert_eq!(Err(ParseError::NumericOverflow), DiceTerm::parse("2147483648d2"));
}

#[test]
fn rendered_terms_parse_back() {
    for term in [
        Dice { count: 1, sides: 20 },
        Dice { count: -3, sides: 8 },
        Dice { count: 0, sides: 1 },
        Dice { count: i32::MIN, sides: u32::MAX },
        Constant(0),
        Constant(-17),
        Constant(i32::MIN),
    ] {
        assert_eq!(Ok(vec![term]), DiceTerm::parse(&term.render()));
    }
}

#[test]
fn outcome_applies_the_sign() {
    assert_eq!(vec![3, 1, 6], Dice { count: 3, sides: 6 }.outcome(&vec![3, 1, 6]));
    assert_eq!(vec![-3, -1], Dice { count: -2, sides: 6 }.outcome(&vec![3, 1]));
    assert_eq!(vec![-4294967295], Dice { count: -1, sides: u32::MAX }.outcome(&vec![u32::MAX]));
    assert_eq!(vec![9], Constant(9).outcome(&vec![]));
}

#[test]
fn rolls_stay_in_range() {
    for _ in 0..50 {
        let rolls = Dice { count: 4, sides: 3 }.roll();
        assert_eq!(4, rolls.len());
        assert!(rolls.iter().all(|&v| (1..=3).contains(&v)));
        let rolls = Dice { count: -2, sides: 1 }.roll();
        assert_eq!(vec![-1, -1], rolls);
    }
}

#[test]
fn sign_of_int_values() {
    assert_eq!(1, dice::sign_of_int(7));
    assert_eq!(-1, dice::sign_of_int(-7));
    assert_eq!(0, dice::sign_of_int(0));
    assert_eq!(-1, dice::sign_of_int(i32::MIN));
}
