use dice::DiceTerm::{Constant, Dice};
use dice::{Arguments, ParseError, Roll, SingleRoll};

#[test]
fn test_roll_display() {
    let first_roll = SingleRoll::new(Dice { count: 2, sides: 8 }, vec![1, 6]);
    let second_roll = SingleRoll::new(Constant(-2), vec![-2]);
    let roll = Roll::new(vec![first_roll, second_roll]);
    assert_eq!("5 = 2d8 (1, 6) + -2", roll.render());
}

#[test]
fn test_single_roll_display() {
    let roll = SingleRoll::new(Dice { count: -2, sides: 8 }, vec![-1, -5]);
    assert_eq!("-2d8 (-1, -5)", roll.render());

    let roll = SingleRoll::new(Constant(5), vec![5]);
    assert_eq!("5", roll.render());
}

#[test]
fn zero_dice_display_empty_list() {
    let roll = SingleRoll::new(Dice { count: 0, sides: 8 }, vec![]);
    assert_eq!("0d8 ()", roll.render());
    assert_eq!(0, roll.total());
}

#[test]
fn single_roll_totals() {
    assert_eq!(7, SingleRoll::new(Dice { count: 2, sides: 8 }, vec![1, 6]).total());
    assert_eq!(-6, SingleRoll::new(Dice { count: -2, sides: 8 }, vec![-1, -5]).total());
    assert_eq!(-2, SingleRoll::new(Constant(-2), vec![-2]).total());
}

#[test]
fn total_is_widened() {
    let big = SingleRoll::new(Dice { count: 2, sides: u32::MAX }, vec![u32::MAX as i64, u32::MAX as i64]);
    assert_eq!(2 * u32::MAX as i64, big.total());
    let roll = Roll::new(vec![
        SingleRoll::new(Dice { count: 2, sides: u32::MAX }, vec![u32::MAX as i64, u32::MAX as i64]),
        SingleRoll::new(Constant(i32::MAX), vec![i32::MAX as i64]),
    ]);
    assert_eq!(2 * u32::MAX as i128 + i32::MAX as i128, roll.total());
}

#[test]
fn parsed_roll_totals_its_values() {
    for _ in 0..20 {
        let roll = Roll::parse("3d6 + 2 - d4").unwrap();
        let rolls = roll.rolls();
        assert_eq!(3, rolls.len());
        assert_eq!(Dice { count: 3, sides: 6 }, rolls[0].term());
        assert_eq!(Constant(2), rolls[1].term());
        assert_eq!(Dice { count: -1, sides: 4 }, rolls[2].term());
        let sum: i64 = rolls.iter().flat_map(|r| r.rolls().clone()).sum();
        assert_eq!(sum as i128, roll.total());
        assert!((3 + 2 - 4..=18 + 2 - 1).contains(&roll.total()));
    }
}

#[test]
fn average_is_the_same_for_every_roll() {
    let a = Roll::parse("2d20 + 5").unwrap();
    let b = Roll::parse("2d20 + 5").unwrap();
    assert_eq!(52, a.doubled_average());
    assert_eq!(a.doubled_average(), b.doubled_average());
    assert_eq!(26.0, a.doubled_average() as f64 / 2.0);
}

#[test]
fn roll_parse_reports_errors() {
    assert_eq!(Some(ParseError::InvalidToken(0)), Roll::parse("no").err());
    assert_eq!(Some(ParseError::NumericOverflow), Roll::parse("d99999999999").err());
}

#[test]
fn expression_joins_terms() {
    let args = Arguments {
        average: true,
        dice_terms: vec!["2d4".to_string(), "+".to_string(), "d20".to_string()],
    };
    assert_eq!("2d4+d20", args.expression());
    let empty = Arguments { average: false, dice_terms: vec![] };
    assert_eq!("", empty.expression());
}
