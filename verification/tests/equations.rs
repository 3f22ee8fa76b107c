use guard_patrol::equations::{
    fix_equations, is_valid_equation, is_valid_equation_with_concat, is_valid_operands,
    is_valid_operands_with_concat, parse_equation, parse_input, Equation, EquationError,
    ParseError,
};

fn eq(total: u64, operands: &[u64]) -> Equation {
    Equation {
        total,
        operands: operands.to_vec(),
    }
}

#[test]
fn concat_appends_digits() {
    assert_eq!(guard_patrol::equations::concat(12, 345), 12345);
    assert_eq!(guard_patrol::equations::concat(1, 1), 11);
    assert_eq!(guard_patrol::equations::concat(12, 0), 12);
    assert_eq!(guard_patrol::equations::concat(0, 7), 7);
    assert_eq!(guard_patrol::equations::concat(48, 6), 486);
}

#[test]
fn plus_and_times_reach_totals() {
    assert!(is_valid_equation(&eq(190, &[10, 19])));
    assert!(is_valid_equation(&eq(3267, &[81, 40, 27])));
    assert!(is_valid_equation(&eq(292, &[11, 6, 16, 20])));
    assert!(!is_valid_equation(&eq(161011, &[16, 10, 13])));
    assert!(!is_valid_equation(&eq(21037, &[9, 7, 18, 13])));
    assert!(!is_valid_equation(&eq(83, &[17, 5])));
}

#[test]
fn single_operand_must_equal_total() {
    assert!(is_valid_equation(&eq(5, &[5])));
    assert!(!is_valid_equation(&eq(5, &[4])));
}

#[test]
fn concat_operator_reaches_more_totals() {
    assert!(is_valid_equation_with_concat(&eq(156, &[15, 6])));
    assert!(is_valid_equation_with_concat(&eq(7290, &[6, 8, 6, 15])));
    assert!(is_valid_equation_with_concat(&eq(192, &[17, 8, 14])));
    assert!(!is_valid_equation_with_concat(&eq(161011, &[16, 10, 13])));
    assert!(!is_valid_equation_with_concat(&eq(21037, &[9, 7, 18, 13])));
}

#[test]
fn operand_folding_is_left_to_right() {
    // (11 + 6) * 16 + 20 = 292; no other reading applies.
    assert!(is_valid_operands(292, 11, &[6, 16, 20]));
    assert!(!is_valid_operands(292, 11, &[16, 6, 20]));
    assert!(is_valid_operands_with_concat(486, 48, &[6]));
}

#[test]
fn overflowing_branches_do_not_count() {
    // Every combination of these operands overflows u64 long before the
    // total could be matched.
    assert!(!is_valid_operands(
        1,
        u64::MAX,
        &[u64::MAX, u64::MAX, u64::MAX]
    ));
}

#[test]
fn fix_equations_sums_valid_totals() {
    let equations = vec![
        eq(190, &[10, 19]),
        eq(3267, &[81, 40, 27]),
        eq(83, &[17, 5]),
        eq(156, &[15, 6]),
        eq(7290, &[6, 8, 6, 15]),
        eq(161011, &[16, 10, 13]),
        eq(192, &[17, 8, 14]),
        eq(21037, &[9, 7, 18, 13]),
        eq(292, &[11, 6, 16, 20]),
    ];
    assert_eq!(fix_equations(&equations), Ok((3749, 11387)));
}

#[test]
fn empty_operands_are_rejected() {
    let equations = vec![eq(190, &[10, 19]), eq(7, &[])];
    assert_eq!(fix_equations(&equations), Err(EquationError::EmptyOperands));
}

fn line(s: &str) -> Vec<char> {
    s.chars().collect()
}

#[test]
fn parse_equation_reads_total_and_operands() {
    let equation = parse_equation(&line("3267: 81 40 27")).unwrap();
    assert_eq!(equation.total, 3267);
    assert_eq!(equation.operands, vec![81, 40, 27]);
}

fn parse_error_of(s: &str) -> ParseError {
    parse_equation(&line(s)).unwrap_err()
}

#[test]
fn malformed_lines_are_rejected() {
    assert_eq!(parse_error_of(""), ParseError::Malformed);
    assert_eq!(parse_error_of("190 10 19"), ParseError::Malformed);
    assert_eq!(parse_error_of("190:10 19"), ParseError::Malformed);
    assert_eq!(parse_error_of("190: 10  19"), ParseError::Malformed);
    assert_eq!(parse_error_of("190: 10 19 "), ParseError::Malformed);
    assert_eq!(parse_error_of("190: "), ParseError::Malformed);
    assert_eq!(parse_error_of("190: 1a 9"), ParseError::Malformed);
}

#[test]
fn oversized_values_are_rejected_after_the_shape() {
    assert_eq!(
        parse_error_of("99999999999999999999999: 3"),
        ParseError::ValueTooBig
    );
    assert_eq!(
        parse_error_of("5: 99999999999999999999999"),
        ParseError::ValueTooBig
    );
    // A malformed line wins over an oversized value.
    assert_eq!(
        parse_error_of("99999999999999999999999: 3 x"),
        ParseError::Malformed
    );
}

#[test]
fn parse_input_then_fix_equations_end_to_end() {
    let lines: Vec<Vec<char>> = [
        "190: 10 19",
        "3267: 81 40 27",
        "83: 17 5",
        "156: 15 6",
        "7290: 6 8 6 15",
        "161011: 16 10 13",
        "192: 17 8 14",
        "21037: 9 7 18 13",
        "292: 11 6 16 20",
    ]
    .iter()
    .map(|s| s.chars().collect())
    .collect();
    let equations = parse_input(&lines).unwrap();
    assert_eq!(fix_equations(&equations), Ok((3749, 11387)));
}

#[test]
fn parse_input_stops_at_the_first_bad_line() {
    let lines: Vec<Vec<char>> = ["190: 10 19", "bad line", "83: 17 5"]
        .iter()
        .map(|s| s.chars().collect())
        .collect();
    assert_eq!(parse_input(&lines).unwrap_err(), ParseError::Malformed);
}
