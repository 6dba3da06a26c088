use gridwalk::dice::{parse_i16, Dice, DiceError};

#[test]
fn new_test() {
    let mut d = Dice::new("1d6");
    assert_eq!((d.value, d.side), (1, 6));
    assert_eq!(d.bonus, 0);
    d = Dice::new("2d16+3");
    assert_eq!((d.value, d.side), (2, 16));
    assert_eq!(d.bonus, 3);
    d = Dice::new("3d4-5");
    assert_eq!((d.value, d.side), (3, 4));
    assert_eq!(d.bonus, -5);
}

#[test]
fn roll_test() {
    let mut d = Dice::new("1d6");
    for _ in 1..100 {
        let roll = d.roll();
        assert!(roll >= 1 && roll <= 6)
    }
    d = Dice::new("2d6+2");
    for _ in 1..100 {
        let roll = d.roll();
        assert!(roll >= 4 && roll <= 14)
    }
}

#[test]
fn roll_stays_below_the_number_of_sides() {
    let d = Dice::new("3d4-5");
    for _ in 0..200 {
        let roll = d.roll();
        assert!(roll >= 3 - 5 && roll <= 3 * 3 - 5);
    }
    let two_sided = Dice::new("5d2+1");
    for _ in 0..50 {
        assert_eq!(two_sided.roll(), 6);
    }
}

#[test]
fn roll_of_no_dice_is_the_bonus() {
    let d = Dice::new("0d6+7");
    assert_eq!(d.roll(), 7);
}

#[test]
fn total_adds_faces_and_bonus() {
    let d = Dice { value: 3, side: 7, bonus: -2 };
    assert_eq!(d.total(&vec![1, 6, 4]), 9);
    let none = Dice { value: 0, side: 7, bonus: 5 };
    assert_eq!(none.total(&vec![]), 5);
}

#[test]
fn parse_agrees_with_new() {
    assert_eq!(Dice::parse("1d6"), Ok(Dice { value: 1, side: 6, bonus: 0 }));
    assert_eq!(Dice::parse("2D16+3"), Ok(Dice { value: 2, side: 16, bonus: 3 }));
    assert_eq!(Dice::parse("3d4-5"), Ok(Dice { value: 3, side: 4, bonus: -5 }));
    assert_eq!(Dice::parse("10d20 and more"), Ok(Dice { value: 10, side: 20, bonus: 0 }));
}

#[test]
fn parse_refuses_text_without_dice() {
    assert_eq!(Dice::parse(""), Err(DiceError::NoDice));
    assert_eq!(Dice::parse("six"), Err(DiceError::NoDice));
    assert_eq!(Dice::parse("d6"), Err(DiceError::NoDice));
    assert_eq!(Dice::parse(" 1d6"), Err(DiceError::NoDice));
    assert_eq!(Dice::parse("1x6"), Err(DiceError::NoDice));
}

#[test]
fn parse_refuses_numbers_out_of_range() {
    assert_eq!(Dice::parse("40000d6"), Err(DiceError::Number));
    assert_eq!(Dice::parse("1d32768"), Err(DiceError::Number));
    assert_eq!(Dice::parse("1d6+32768"), Err(DiceError::Number));
    assert_eq!(Dice::parse("1d6-32768"), Ok(Dice { value: 1, side: 6, bonus: -32768 }));
    assert_eq!(Dice::parse("32767d32767+32767"), Ok(Dice { value: 32767, side: 32767, bonus: 32767 }));
}

#[test]
fn parse_refuses_digits_that_are_not_ascii() {
    // The pattern's digit class takes any decimal digit; numbers are read in
    // ASCII only.
    assert_eq!(Dice::parse("\u{0661}d6"), Err(DiceError::Number));
}

#[test]
fn from_captures_reads_groups() {
    let dice = Some(vec![
        Some("2d8".to_string()),
        Some("2".to_string()),
        Some("8".to_string()),
    ]);
    let bonus = Some(vec![Some("-1".to_string()), Some("-1".to_string())]);
    assert_eq!(Dice::from_captures(&dice, &bonus), Ok(Dice { value: 2, side: 8, bonus: -1 }));
    assert_eq!(Dice::from_captures(&dice, &None), Ok(Dice { value: 2, side: 8, bonus: 0 }));
    assert_eq!(Dice::from_captures(&None, &bonus), Err(DiceError::NoDice));
    let short = Some(vec![Some("2d8".to_string()), Some("2".to_string())]);
    assert_eq!(Dice::from_captures(&short, &None), Err(DiceError::NoDice));
    let absent = Some(vec![Some("2d8".to_string()), None, Some("8".to_string())]);
    assert_eq!(Dice::from_captures(&absent, &None), Err(DiceError::NoDice));
    let wide = Some(vec![
        Some("2d8".to_string()),
        Some("2".to_string()),
        Some("80000".to_string()),
    ]);
    assert_eq!(Dice::from_captures(&wide, &None), Err(DiceError::Number));
}

#[test]
fn parse_i16_reads_decimal_numbers() {
    assert_eq!(parse_i16("0"), Some(0));
    assert_eq!(parse_i16("7"), Some(7));
    assert_eq!(parse_i16("+7"), Some(7));
    assert_eq!(parse_i16("-7"), Some(-7));
    assert_eq!(parse_i16("0012"), Some(12));
    assert_eq!(parse_i16("32767"), Some(32767));
    assert_eq!(parse_i16("-32768"), Some(-32768));
    assert_eq!(parse_i16("-0"), Some(0));
}

#[test]
fn parse_i16_refuses_what_is_no_number() {
    assert_eq!(parse_i16(""), None);
    assert_eq!(parse_i16("+"), None);
    assert_eq!(parse_i16("-"), None);
    assert_eq!(parse_i16("32768"), None);
    assert_eq!(parse_i16("-32769"), None);
    assert_eq!(parse_i16("99999999999999999999"), None);
    assert_eq!(parse_i16("12a"), None);
    assert_eq!(parse_i16("1 2"), None);
    assert_eq!(parse_i16("--1"), None);
    assert_eq!(parse_i16("1-"), None);
    assert_eq!(parse_i16("\u{0663}"), None);
}

#[test]
fn parse_i16_agrees_with_the_standard_library() {
    let texts = [
        "", "+", "-", "0", "-0", "+0", "1", "-1", "+1", "007", "32767", "32768", "-32768",
        "-32769", "327670", "x", "1x", "x1", "1.5", " 1", "1 ", "+-1", "٣",
    ];
    for text in texts.iter() {
        assert_eq!(parse_i16(text), text.parse::<i16>().ok(), "{:?}", text);
    }
}

#[test]
fn dice_that_cannot_be_rolled_are_told_apart() {
    assert!(Dice::new("1d6").can_roll());
    assert!(Dice::new("2d6+2").can_roll());
    assert!(Dice::new("0d1").can_roll());
    assert!(Dice { value: -3, side: 0, bonus: 9 }.can_roll());
    // A die needs two sides.
    assert!(!Dice::new("1d1").can_roll());
    assert!(!Dice::new("1d0").can_roll());
    // The highest sum must fit.
    assert!(Dice { value: 2, side: 16384, bonus: 0 }.can_roll());
    assert!(!Dice { value: 2, side: 16385, bonus: 0 }.can_roll());
    assert!(Dice { value: 32767, side: 2, bonus: 0 }.can_roll());
    assert!(!Dice { value: 32767, side: 3, bonus: 0 }.can_roll());
    assert!(!Dice { value: 32767, side: 32767, bonus: -32768 }.can_roll());
    // So must the total with the bonus.
    assert!(Dice { value: 1, side: 6, bonus: 32762 }.can_roll());
    assert!(!Dice { value: 1, side: 6, bonus: 32763 }.can_roll());
    assert!(Dice { value: 1, side: 6, bonus: -32768 }.can_roll());
    assert!(Dice { value: 10, side: 2, bonus: -32768 }.can_roll());
}
