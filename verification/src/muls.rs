//! Scanning corrupted memory text for `mul(A,B)` instructions.
//!
//! The text is walked character by character; wherever a complete
//! `mul(A,B)` instruction stands — the literal `mul(`, one or more digits,
//! a comma, one or more digits, a closing parenthesis — the product is
//! added to a running sum and the scan resumes after it; anywhere else the
//! scan moves on by one character.  The conditional variant also honours
//! `do()` and `don't()` instructions, which enable and disable the
//! products between them.
//!
//! An operand with more digits than `u64` can hold is an error, as is a
//! running sum that leaves `u64`.

use vstd::prelude::*;

use crate::scan::{digit_run, digit_run_end, fold_digits, lemma_digit_run_bounds, parse_digits};

verus! {

/// Scanning failed on an oversized value.
#[derive(Clone, Copy, Debug, PartialEq, Eq, Structural)]
pub enum MulError {
    /// A matched operand does not fit in `u64`.
    OperandTooBig,
    /// The running sum of products left `u64`.
    SumTooBig,
}

/// The literal `mul(` stands at position `i`.
pub open spec fn mul_open_at(s: Seq<char>, i: int) -> bool {
    &&& i + 4 <= s.len()
    &&& s[i] == 'm'
    &&& s[i + 1] == 'u'
    &&& s[i + 2] == 'l'
    &&& s[i + 3] == '('
}

/// The literal `do()` stands at position `i`.
pub open spec fn do_at(s: Seq<char>, i: int) -> bool {
    &&& i + 4 <= s.len()
    &&& s[i] == 'd'
    &&& s[i + 1] == 'o'
    &&& s[i + 2] == '('
    &&& s[i + 3] == ')'
}

/// The literal `don't()` stands at position `i`.
pub open spec fn dont_at(s: Seq<char>, i: int) -> bool {
    &&& i + 7 <= s.len()
    &&& s[i] == 'd'
    &&& s[i + 1] == 'o'
    &&& s[i + 2] == 'n'
    &&& s[i + 3] == '\''
    &&& s[i + 4] == 't'
    &&& s[i + 5] == '('
    &&& s[i + 6] == ')'
}

/// A complete `mul(A,B)` instruction stands at position `i`.
pub open spec fn mul_at(s: Seq<char>, i: int) -> bool {
    &&& mul_open_at(s, i)
    &&& ({
        let ae = digit_run_end(s, i + 4);
        &&& ae > i + 4
        &&& ae < s.len()
        &&& s[ae] == ','
        &&& ({
            let be = digit_run_end(s, ae + 1);
            &&& be > ae + 1
            &&& be < s.len()
            &&& s[be] == ')'
        })
    })
}

/// The position just past the `mul(A,B)` instruction at `i`.
pub open spec fn mul_end(s: Seq<char>, i: int) -> int {
    digit_run_end(s, digit_run_end(s, i + 4) + 1) + 1
}

/// The first operand of the `mul(A,B)` instruction at `i`.
pub open spec fn mul_left(s: Seq<char>, i: int) -> int {
    fold_digits(0, s, i + 4, digit_run_end(s, i + 4))
}

/// The second operand of the `mul(A,B)` instruction at `i`.
pub open spec fn mul_right(s: Seq<char>, i: int) -> int {
    fold_digits(0, s, digit_run_end(s, i + 4) + 1, mul_end(s, i) - 1)
}

/// How a scan ends: the final sum, an oversized operand, an oversized sum,
/// or — never at the fuel the scanners use — exhausted fuel.
pub enum ScanOutcome {
    Sum(int),
    Oversize,
    SumOverflow,
    Spent,
}

/// The scan from position `i` with the running sum `acc`: `do()` and
/// `don't()` toggle `enabled` when `conditional` scanning is on, a complete
/// `mul(A,B)` adds its product to the sum while enabled and is stepped
/// over while disabled, and any other character is skipped.  Only an
/// enabled instruction can fail on an oversized operand, and only an
/// enabled product can overflow the sum.
pub open spec fn mul_scan(
    s: Seq<char>,
    i: int,
    enabled: bool,
    conditional: bool,
    acc: int,
    fuel: nat,
) -> ScanOutcome
    decreases fuel,
{
    if fuel == 0 {
        ScanOutcome::Spent
    } else if i >= s.len() {
        ScanOutcome::Sum(acc)
    } else if conditional && do_at(s, i) {
        mul_scan(s, i + 4, true, conditional, acc, (fuel - 1) as nat)
    } else if conditional && dont_at(s, i) {
        mul_scan(s, i + 7, false, conditional, acc, (fuel - 1) as nat)
    } else if mul_at(s, i) {
        if !enabled {
            mul_scan(s, mul_end(s, i), enabled, conditional, acc, (fuel - 1) as nat)
        } else if mul_left(s, i) > u64::MAX || mul_right(s, i) > u64::MAX {
            ScanOutcome::Oversize
        } else if acc + mul_left(s, i) * mul_right(s, i) > u64::MAX {
            ScanOutcome::SumOverflow
        } else {
            mul_scan(
                s,
                mul_end(s, i),
                enabled,
                conditional,
                acc + mul_left(s, i) * mul_right(s, i),
                (fuel - 1) as nat,
            )
        }
    } else {
        mul_scan(s, i + 1, enabled, conditional, acc, (fuel - 1) as nat)
    }
}

/// The whole scan of a text, with one unit of fuel per character and one
/// to spare.
pub open spec fn mul_scan_text(s: Seq<char>, conditional: bool) -> ScanOutcome {
    mul_scan(s, 0, true, conditional, 0, (s.len() + 1) as nat)
}

/// Scans the text and sums the products of the `mul(A,B)` instructions
/// found, honouring `do()` / `don't()` when `conditional` is set.
#[verifier::loop_isolation(false)]
fn scan_muls(text: &Vec<char>, conditional: bool) -> (r: Result<u64, MulError>)
    ensures
        r matches Ok(v) ==> mul_scan_text(text@, conditional) == ScanOutcome::Sum(v as int),
        r == Err::<u64, MulError>(MulError::OperandTooBig) <==> mul_scan_text(text@, conditional)
            is Oversize,
        r == Err::<u64, MulError>(MulError::SumTooBig) <==> mul_scan_text(text@, conditional)
            is SumOverflow,
{
    let n = text.len();
    let ghost fuel0 = (n + 1) as nat;
    let mut i: usize = 0;
    let mut sum: u64 = 0;
    let mut enabled = true;
    let ghost mut fuel = fuel0;
    while i < n
        invariant
            i <= n,
            n == text@.len(),
            n - i < fuel <= fuel0,
            !conditional ==> enabled,
            mul_scan_text(text@, conditional) == mul_scan(
                text@,
                i as int,
                enabled,
                conditional,
                sum as int,
                fuel,
            ),
        decreases n - i,
    {
        if conditional && n - i >= 4 && text[i] == 'd' && text[i + 1] == 'o' && text[i + 2] == '('
            && text[i + 3] == ')' {
            proof {
                fuel = (fuel - 1) as nat;
            }
            enabled = true;
            i += 4;
        } else if conditional && n - i >= 7 && text[i] == 'd' && text[i + 1] == 'o' && text[i + 2]
            == 'n' && text[i + 3] == '\'' && text[i + 4] == 't' && text[i + 5] == '(' && text[i + 6]
            == ')' {
            proof {
                fuel = (fuel - 1) as nat;
            }
            enabled = false;
            i += 7;
        } else {
            let mut matched = false;
            if n - i >= 4 && text[i] == 'm' && text[i + 1] == 'u' && text[i + 2] == 'l' && text[i
                + 3] == '(' {
                let ae = digit_run(text, i + 4);
                if ae > i + 4 && ae < n && text[ae] == ',' {
                    let be = digit_run(text, ae + 1);
                    if be > ae + 1 && be < n && text[be] == ')' {
                        matched = true;
                        proof {
                            assert(mul_at(text@, i as int));
                            lemma_digit_run_bounds(text@, i as int + 4);
                            lemma_digit_run_bounds(text@, ae as int + 1);
                            fuel = (fuel - 1) as nat;
                        }
                        if enabled {
                            let a = match parse_digits(text, i + 4, ae) {
                                Some(a) => a,
                                None => {
                                    return Err(MulError::OperandTooBig);
                                },
                            };
                            let b = match parse_digits(text, ae + 1, be) {
                                Some(b) => b,
                                None => {
                                    return Err(MulError::OperandTooBig);
                                },
                            };
                            let product = match a.checked_mul(b) {
                                Some(p) => p,
                                None => {
                                    return Err(MulError::SumTooBig);
                                },
                            };
                            let new_sum = match sum.checked_add(product) {
                                Some(s) => s,
                                None => {
                                    return Err(MulError::SumTooBig);
                                },
                            };
                            sum = new_sum;
                        }
                        i = be + 1;
                    }
                }
            }
            if !matched {
                proof {
                    assert(!mul_at(text@, i as int));
                    fuel = (fuel - 1) as nat;
                }
                i += 1;
            }
        }
    }
    Ok(sum)
}

/// Sums the products of all complete `mul(A,B)` instructions in the text.
pub fn sanitized_mult(text: &Vec<char>) -> (r: Result<u64, MulError>)
    ensures
        r matches Ok(v) ==> mul_scan_text(text@, false) == ScanOutcome::Sum(v as int),
        r == Err::<u64, MulError>(MulError::OperandTooBig) <==> mul_scan_text(text@, false)
            is Oversize,
        r == Err::<u64, MulError>(MulError::SumTooBig) <==> mul_scan_text(text@, false)
            is SumOverflow,
{
    scan_muls(text, false)
}

/// Sums the products of the `mul(A,B)` instructions that stand while
/// multiplication is enabled: `don't()` disables it, `do()` enables it
/// again, and the text starts enabled.
pub fn sanitized_mult_with_conditions(text: &Vec<char>) -> (r: Result<u64, MulError>)
    ensures
        r matches Ok(v) ==> mul_scan_text(text@, true) == ScanOutcome::Sum(v as int),
        r == Err::<u64, MulError>(MulError::OperandTooBig) <==> mul_scan_text(text@, true)
            is Oversize,
        r == Err::<u64, MulError>(MulError::SumTooBig) <==> mul_scan_text(text@, true)
            is SumOverflow,
{
    scan_muls(text, true)
}

} // verus!
