use wargear::{total, validate_diestring, DiceError, Die};

#[test]
fn test_good_diestring() {
    let ds = String::from("1d6");
    let die = Die::new_from_diestring(&ds);
    assert!(die.is_some());
    let die = die.unwrap();
    assert!(die.die_count == 1);
    assert!(die.die_value == 6);
    assert!(die.die_string == ds);
}

#[test]
fn test_bad_ds() {
    let ds = String::from("20abcd5");
    assert!(validate_diestring(ds) == false);
}

#[test]
fn roll_5d20() {
    let ds = String::from("5d20");
    let bag = Die::new_from_diestring(&ds);
    assert!(bag.is_some());
    let bag = bag.unwrap();

    let rolls = bag.roll();
    assert!(rolls.is_ok());
    let rolls = rolls.unwrap();
    assert!(rolls.len() == 5);

    for result in rolls {
        assert!(result >= 1 && result <= 20);
    }
}

#[test]
fn roll_a_lot_of_d20s() {
    let ds = String::from("2000d20");
    let bag = Die::new_from_diestring(&ds);
    assert!(bag.is_some());
    let bag = bag.unwrap();

    let rolls = bag.roll();
    assert!(rolls.is_ok());
    let rolls = rolls.unwrap();
    assert!(rolls.len() == 2000);

    for result in rolls {
        assert!(result >= 1 && result <= 20);
    }
}

#[test]
fn bad_notation_gives_none() {
    assert!(Die::new_from_diestring(&String::from("20abcd5")).is_none());
    assert!(Die::new_from_diestring(&String::from("")).is_none());
    assert!(Die::new_from_diestring(&String::from("d6")).is_none());
    assert!(Die::new_from_diestring(&String::from("6d")).is_none());
}

#[test]
fn parse_reports_invalid_notation() {
    assert_eq!(Die::parse(&String::from("20abcd5")).err(), Some(DiceError::InvalidNotation));
    assert_eq!(Die::parse(&String::from("5d+6")).err(), Some(DiceError::InvalidNotation));
    assert_eq!(Die::parse(&String::from("+5d+6")).err(), Some(DiceError::InvalidNotation));
}

#[test]
fn parse_reports_invalid_range_on_overflow() {
    assert_eq!(Die::parse(&String::from("70000d6")).err(), Some(DiceError::InvalidRange));
    assert_eq!(Die::parse(&String::from("1d65536")).err(), Some(DiceError::InvalidRange));
}

#[test]
fn parse_reports_invalid_range_on_stray_text() {
    // The notation is found inside the text, but the split at the first `d`
    // does not leave two numerals.
    assert_eq!(Die::parse(&String::from("x1d6")).err(), Some(DiceError::InvalidRange));
    assert_eq!(Die::parse(&String::from("1d6d")).err(), Some(DiceError::InvalidRange));
    assert_eq!(Die::parse(&String::from("++5d6")).err(), Some(DiceError::InvalidRange));
    assert_eq!(Die::parse(&String::from("x+5d6")).err(), Some(DiceError::InvalidRange));
    assert_eq!(Die::parse(&String::from("+65536d6")).err(), Some(DiceError::InvalidRange));
}

#[test]
fn parse_count_with_plus_sign() {
    let d = Die::parse(&String::from("+5d6")).unwrap();
    assert_eq!(d.die_count, 5);
    assert_eq!(d.die_value, 6);
    assert_eq!(d.die_string, "+5d6");
    assert!(Die::new_from_diestring(&String::from("+5d6")).is_some());
}

#[test]
fn parse_largest_values() {
    let d = Die::parse(&String::from("65535d65535")).unwrap();
    assert_eq!(d.die_count, 65535);
    assert_eq!(d.die_value, 65535);
}

#[test]
fn parse_leading_zeros() {
    let d = Die::parse(&String::from("007d010")).unwrap();
    assert_eq!(d.die_count, 7);
    assert_eq!(d.die_value, 10);
    assert_eq!(d.die_string, "007d010");
}

#[test]
fn stored_notation_reads_back() {
    let d = Die::parse(&String::from("12d34")).unwrap();
    let again = Die::parse(&d.die_string).unwrap();
    assert_eq!(again.die_count, 12);
    assert_eq!(again.die_value, 34);
    assert!(again == d);
}

#[test]
fn roll_zero_dice_is_empty() {
    let d = Die::parse(&String::from("0d6")).unwrap();
    assert_eq!(d.roll(), Ok(Vec::new()));
}

#[test]
fn roll_without_sides_fails() {
    let d = Die::parse(&String::from("3d0")).unwrap();
    assert_eq!(d.die_value, 0);
    assert_eq!(d.roll(), Err(DiceError::InvalidRange));
    let none = Die::parse(&String::from("0d0")).unwrap();
    assert_eq!(none.roll(), Err(DiceError::InvalidRange));
}

#[test]
fn roll_one_sided_dice() {
    let d = Die::parse(&String::from("4d1")).unwrap();
    assert_eq!(d.roll(), Ok(vec![1, 1, 1, 1]));
}

#[test]
fn roll_1d6_in_range() {
    let d = Die::parse(&String::from("1d6")).unwrap();
    let rolls = d.roll().unwrap();
    assert_eq!(rolls.len(), 1);
    assert!(rolls[0] >= 1 && rolls[0] <= 6);
}

#[test]
fn total_adds_results() {
    assert_eq!(total(&vec![]), 0);
    assert_eq!(total(&vec![3, 4, 5]), 12);
    assert_eq!(total(&vec![65535, 65535]), 131070);
}

#[test]
fn validate_finds_notation_inside_text() {
    assert!(validate_diestring(String::from("roll 2d8 now")));
    assert!(!validate_diestring(String::from("2 d 8")));
}
