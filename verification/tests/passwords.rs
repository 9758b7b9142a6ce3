use intcode::passwords::{
    apply_rules, password_generator, HasSequentialDigits, HasSequentialDigitsOfSize,
    HasSequentiallyHigherNumbers, IsCertainLength, Rule,
};

fn part1_rules() -> Vec<Rule> {
    vec![
        Rule::Length(IsCertainLength { length: 6 }),
        Rule::Repeat(HasSequentialDigits {}),
        Rule::NonDecreasing(HasSequentiallyHigherNumbers {}),
    ]
}

fn part2_rules() -> Vec<Rule> {
    vec![
        Rule::Length(IsCertainLength { length: 6 }),
        Rule::RepeatOfSize(HasSequentialDigitsOfSize { size: 2 }),
        Rule::NonDecreasing(HasSequentiallyHigherNumbers {}),
    ]
}

#[test]
fn test_apply_rules_part_1() {
    let rules = part1_rules();
    assert_eq!(true, apply_rules("111111", &rules));
    assert_eq!(false, apply_rules("223450", &rules));
    assert_eq!(false, apply_rules("123789", &rules));
}

#[test]
fn test_apply_rules_part_2() {
    let rules = part2_rules();
    assert_eq!(true, apply_rules("112233", &rules));
    assert_eq!(false, apply_rules("123444", &rules));
    assert_eq!(true, apply_rules("111122", &rules));
}

#[test]
fn test_is_certain_length() {
    assert_eq!(true, IsCertainLength { length: 6 }.is_valid("123456"));
    assert_eq!(false, IsCertainLength { length: 6 }.is_valid("12345"));
    assert_eq!(false, IsCertainLength { length: 6 }.is_valid("1234567"));
    assert_eq!(false, IsCertainLength { length: 1 }.is_valid("123456"));
}

#[test]
fn test_has_double_digits() {
    assert_eq!(
        true,
        HasSequentialDigitsOfSize { size: 2 }.is_valid("112233")
    );
    assert_eq!(
        true,
        HasSequentialDigitsOfSize { size: 3 }.is_valid("1122233")
    );
    assert_eq!(
        false,
        HasSequentialDigitsOfSize { size: 3 }.is_valid("112233")
    );
    assert_eq!(
        false,
        HasSequentialDigitsOfSize { size: 2 }.is_valid("12345")
    );
}

#[test]
fn test_has_sequentially_higher_digits() {
    assert_eq!(true, HasSequentiallyHigherNumbers {}.is_valid("112233"));
    assert_eq!(false, HasSequentiallyHigherNumbers {}.is_valid("654321"));
    assert_eq!(false, HasSequentiallyHigherNumbers {}.is_valid("1234576"));
}

#[test]
fn generator_collects_matching_numerals() {
    // In 10..15 only 11 repeats a digit; the range's upper end is
    // exclusive.
    let rules = vec![Rule::Repeat(HasSequentialDigits {})];
    let found = password_generator(10, 15, &rules);
    assert_eq!(vec!["11".to_string()], found);

    let none = password_generator(15, 15, &rules);
    assert!(none.is_empty());

    let all = password_generator(10, 12, &Vec::new());
    assert_eq!(vec!["10".to_string(), "11".to_string()], all);
}

#[test]
fn run_of_exact_size_is_maximal() {
    // "1112" has one run of three ones: it contains no run of size two.
    assert_eq!(false, HasSequentialDigitsOfSize { size: 2 }.is_valid("1112"));
    assert_eq!(true, HasSequentialDigitsOfSize { size: 3 }.is_valid("1112"));
    assert_eq!(true, HasSequentialDigitsOfSize { size: 1 }.is_valid("1112"));
}
