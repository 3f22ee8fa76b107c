use guard_patrol::muls::{sanitized_mult, sanitized_mult_with_conditions, MulError};

fn chars(s: &str) -> Vec<char> {
    s.chars().collect()
}

#[test]
fn sums_products_of_complete_instructions() {
    let text = chars("xmul(2,4)%&mul[3,7]!@^do_not_mul(5,5)+mul(32,64]then(mul(11,8)mul(8,5))");
    assert_eq!(sanitized_mult(&text), Ok(161));
}

#[test]
fn conditions_disable_and_reenable_products() {
    let text = chars("xmul(2,4)&mul[3,7]!^don't()_mul(5,5)+mul(32,64](mul(11,8)undo()?mul(8,5))");
    assert_eq!(sanitized_mult_with_conditions(&text), Ok(48));
    // Without conditional scanning the toggles are plain text.
    assert_eq!(sanitized_mult(&text), Ok(161));
}

#[test]
fn malformed_instructions_do_not_count() {
    assert_eq!(sanitized_mult(&chars("mul(4*mul(6,9!?(12,34)mul ( 2 , 4 )")), Ok(0));
    assert_eq!(sanitized_mult(&chars("mul(,4)mul(3,)mul()")), Ok(0));
    assert_eq!(sanitized_mult(&chars("mulmul(3,4)")), Ok(12));
}

#[test]
fn oversized_operands_are_an_error() {
    let text = chars("mul(99999999999999999999999,2)");
    assert_eq!(sanitized_mult(&text), Err(MulError::OperandTooBig));
    // While multiplication is disabled, the instruction is skipped unparsed.
    let disabled = chars("don't()mul(99999999999999999999999,2)");
    assert_eq!(sanitized_mult_with_conditions(&disabled), Ok(0));
    assert_eq!(sanitized_mult(&disabled), Err(MulError::OperandTooBig));
}

#[test]
fn an_overflowing_sum_is_an_error() {
    let text = chars("mul(18446744073709551615,2)");
    assert_eq!(sanitized_mult(&text), Err(MulError::SumTooBig));
}
