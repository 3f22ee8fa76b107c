//! Calibration equations: deciding whether a target total can be produced
//! from a row of operands by inserting `+`, `*`, and optionally digit
//! concatenation, evaluated strictly left to right.
//!
//! A combination only counts when every intermediate value fits in `u64`;
//! an intermediate that would overflow ends that branch.

use vstd::prelude::*;

use crate::scan::{digit_run, digit_run_end, fold_digits, lemma_digit_run_bounds, parse_digits};

verus! {

/// A target total and the operands that may produce it.
#[derive(Clone, Debug)]
pub struct Equation {
    pub total: u64,
    pub operands: Vec<u64>,
}

/// An equation that cannot be evaluated.
#[derive(Clone, Copy, Debug, PartialEq, Eq, Structural)]
pub enum EquationError {
    /// An equation holds no operands at all.
    EmptyOperands,
}

/// `a` shifted left by one decimal digit for every digit of `b`.
pub open spec fn concat_shift(a: int, b: int) -> int
    decreases b,
{
    if b < 1 {
        a
    } else {
        concat_shift(a * 10, b / 10)
    }
}

/// The decimal concatenation of `a` and `b`: the digits of `b` appended to
/// the digits of `a`.
pub open spec fn concat_spec(a: int, b: int) -> int {
    concat_shift(a, b) + b
}

proof fn lemma_concat_shift_ge(a: int, b: int)
    requires
        a >= 0,
    ensures
        concat_shift(a, b) >= a,
    decreases b,
{
    if b >= 1 {
        lemma_concat_shift_ge(a * 10, b / 10);
    }
}

/// Whether `expected` can be reached from the running value `partial` by
/// folding the remaining operands left to right with `+` or `*`.  A running
/// value beyond `u64::MAX` ends the branch.
pub open spec fn reachable(expected: int, partial: int, ops: Seq<u64>) -> bool
    decreases ops.len(),
{
    if partial > u64::MAX as int {
        false
    } else if ops.len() == 0 {
        expected == partial
    } else {
        ||| reachable(expected, partial + ops[0], ops.subrange(1, ops.len() as int))
        ||| reachable(expected, partial * ops[0], ops.subrange(1, ops.len() as int))
    }
}

/// As [`reachable`], with decimal concatenation as a third operator.
pub open spec fn reachable_with_concat(expected: int, partial: int, ops: Seq<u64>) -> bool
    decreases ops.len(),
{
    if partial > u64::MAX as int {
        false
    } else if ops.len() == 0 {
        expected == partial
    } else {
        ||| reachable_with_concat(expected, partial + ops[0], ops.subrange(1, ops.len() as int))
        ||| reachable_with_concat(expected, partial * ops[0], ops.subrange(1, ops.len() as int))
        ||| reachable_with_concat(
            expected,
            concat_spec(partial, ops[0] as int),
            ops.subrange(1, ops.len() as int),
        )
    }
}

/// The equation's total can be produced from its operands with `+` and `*`.
pub open spec fn equation_valid(eq: Equation) -> bool {
    eq.operands@.len() > 0 && reachable(
        eq.total as int,
        eq.operands@[0] as int,
        eq.operands@.subrange(1, eq.operands@.len() as int),
    )
}

/// The equation's total can be produced with `+`, `*` and concatenation.
pub open spec fn equation_valid_with_concat(eq: Equation) -> bool {
    eq.operands@.len() > 0 && reachable_with_concat(
        eq.total as int,
        eq.operands@[0] as int,
        eq.operands@.subrange(1, eq.operands@.len() as int),
    )
}

/// Appends the decimal digits of `b` to those of `a`.
pub fn concat(a: u64, b: u64) -> (r: u64)
    requires
        concat_spec(a as int, b as int) <= u64::MAX,
    ensures
        r == concat_spec(a as int, b as int),
{
    let mut shifted = a;
    let mut rem = b;
    while rem > 0
        invariant
            concat_shift(shifted as int, rem as int) == concat_shift(a as int, b as int),
            concat_shift(a as int, b as int) + b <= u64::MAX,
        decreases rem,
    {
        proof {
            lemma_concat_shift_ge(shifted as int * 10, rem as int / 10);
        }
        shifted = shifted * 10;
        rem = rem / 10;
    }
    shifted + b
}

/// Appends the decimal digits of `b` to those of `a`, or `None` when the
/// result would not fit in `u64`.
fn checked_concat(a: u64, b: u64) -> (r: Option<u64>)
    ensures
        r is Some <==> concat_spec(a as int, b as int) <= u64::MAX,
        r matches Some(v) ==> v == concat_spec(a as int, b as int),
{
    let mut shifted = a;
    let mut rem = b;
    while rem > 0
        invariant
            concat_shift(shifted as int, rem as int) == concat_shift(a as int, b as int),
        decreases rem,
    {
        proof {
            lemma_concat_shift_ge(shifted as int * 10, rem as int / 10);
        }
        match shifted.checked_mul(10) {
            Some(v) => {
                shifted = v;
                rem = rem / 10;
            },
            None => {
                return None;
            },
        }
    }
    shifted.checked_add(b)
}

/// Whether `expected` can be reached from `partial` by folding the operands
/// left to right with `+` or `*`.
pub fn is_valid_operands(expected: u64, partial: u64, operands: &[u64]) -> (r: bool)
    ensures
        r == reachable(expected as int, partial as int, operands@),
    decreases operands@.len(),
{
    if operands.len() == 0 {
        return expected == partial;
    }
    let operand = operands[0];
    let rest = &operands[1..operands.len()];
    let via_add = match partial.checked_add(operand) {
        Some(v) => is_valid_operands(expected, v, rest),
        None => {
            proof {
                assert(!reachable(expected as int, partial as int + operand as int, rest@));
            }
            false
        },
    };
    if via_add {
        return true;
    }
    match partial.checked_mul(operand) {
        Some(v) => is_valid_operands(expected, v, rest),
        None => {
            proof {
                assert(!reachable(expected as int, partial as int * operand as int, rest@));
            }
            false
        },
    }
}

/// Whether the equation's total can be produced with `+` and `*`.
pub fn is_valid_equation(equation: &Equation) -> (r: bool)
    requires
        equation.operands@.len() > 0,
    ensures
        r == equation_valid(*equation),
{
    let operand = equation.operands[0];
    let rest = &equation.operands[1..equation.operands.len()];
    is_valid_operands(equation.total, operand, rest)
}

/// As [`is_valid_operands`], with decimal concatenation as a third operator.
pub fn is_valid_operands_with_concat(expected: u64, partial: u64, operands: &[u64]) -> (r: bool)
    ensures
        r == reachable_with_concat(expected as int, partial as int, operands@),
    decreases operands@.len(),
{
    if operands.len() == 0 {
        return expected == partial;
    }
    let operand = operands[0];
    let rest = &operands[1..operands.len()];
    let via_add = match partial.checked_add(operand) {
        Some(v) => is_valid_operands_with_concat(expected, v, rest),
        None => {
            proof {
                assert(!reachable_with_concat(
                    expected as int,
                    partial as int + operand as int,
                    rest@,
                ));
            }
            false
        },
    };
    if via_add {
        return true;
    }
    let via_mul = match partial.checked_mul(operand) {
        Some(v) => is_valid_operands_with_concat(expected, v, rest),
        None => {
            proof {
                assert(!reachable_with_concat(
                    expected as int,
                    partial as int * operand as int,
                    rest@,
                ));
            }
            false
        },
    };
    if via_mul {
        return true;
    }
    match checked_concat(partial, operand) {
        Some(v) => is_valid_operands_with_concat(expected, v, rest),
        None => {
            proof {
                assert(!reachable_with_concat(
                    expected as int,
                    concat_spec(partial as int, operand as int),
                    rest@,
                ));
            }
            false
        },
    }
}

/// Whether the equation's total can be produced with `+`, `*` and
/// concatenation.
pub fn is_valid_equation_with_concat(equation: &Equation) -> (r: bool)
    requires
        equation.operands@.len() > 0,
    ensures
        r == equation_valid_with_concat(*equation),
{
    let operand = equation.operands[0];
    let rest = &equation.operands[1..equation.operands.len()];
    is_valid_operands_with_concat(equation.total, operand, rest)
}

/// A calibration line could not be read.
#[derive(Clone, Copy, Debug, PartialEq, Eq, Structural)]
pub enum ParseError {
    /// The line is not of the shape `total: operand operand ...`.
    Malformed,
    /// The total or an operand does not fit in `u64`.
    ValueTooBig,
}

/// The tail of a line starting at `i` is a well-formed operand list:
/// non-empty digit runs separated by single spaces, up to the line's end.
pub open spec fn operands_ok(s: Seq<char>, i: int) -> bool
    decreases s.len() - i,
{
    let e = digit_run_end(s, i);
    &&& e > i
    &&& (e == s.len() || (e < s.len() && s[e] == ' ' && operands_ok(s, e + 1)))
}

/// The values of the operand list starting at `i`, in order.
pub open spec fn operand_values(s: Seq<char>, i: int) -> Seq<int>
    decreases s.len() - i,
{
    let e = digit_run_end(s, i);
    if !(i < e <= s.len()) {
        Seq::empty()
    } else if e == s.len() {
        seq![fold_digits(0, s, i, e)]
    } else {
        seq![fold_digits(0, s, i, e)] + operand_values(s, e + 1)
    }
}

/// The line has the shape `total: operand operand ...`: an optional digit
/// run, a colon, one space, and a well-formed operand list.
pub open spec fn equation_line_ok(s: Seq<char>) -> bool {
    let de = digit_run_end(s, 0);
    &&& de + 1 < s.len()
    &&& s[de] == ':'
    &&& s[de + 1] == ' '
    &&& operands_ok(s, de + 2)
}

/// The total written before the line's colon.
pub open spec fn line_total(s: Seq<char>) -> int {
    fold_digits(0, s, 0, digit_run_end(s, 0))
}

/// The operand values written after the line's colon.
pub open spec fn line_operand_values(s: Seq<char>) -> Seq<int> {
    operand_values(s, digit_run_end(s, 0) + 2)
}

/// Every value on the line fits in `u64`.
pub open spec fn line_fits(s: Seq<char>) -> bool {
    &&& line_total(s) <= u64::MAX
    &&& (forall|k: int|
        0 <= k < line_operand_values(s).len() ==> #[trigger] line_operand_values(s)[k]
            <= u64::MAX)
}

/// What reading the line yields: nothing on success, or the error.
pub open spec fn line_error(s: Seq<char>) -> Option<ParseError> {
    if !equation_line_ok(s) {
        Some(ParseError::Malformed)
    } else if !line_fits(s) {
        Some(ParseError::ValueTooBig)
    } else {
        None
    }
}

/// Reads one calibration line, `total: operand operand ...`.  The shape is
/// checked before any value, so a malformed line is reported as such even
/// when it also holds an oversized number.
#[verifier::loop_isolation(false)]
pub fn parse_equation(line: &Vec<char>) -> (r: Result<Equation, ParseError>)
    ensures
        r == Err::<Equation, ParseError>(ParseError::Malformed) <==> !equation_line_ok(line@),
        r == Err::<Equation, ParseError>(ParseError::ValueTooBig) <==> equation_line_ok(line@)
            && !line_fits(line@),
        r is Ok <==> line_error(line@) is None,
        r matches Ok(eq) ==> eq.total == line_total(line@) && eq.operands@.map_values(
            |v: u64| v as int,
        ) == line_operand_values(line@),
{
    let n = line.len();
    let de = digit_run(line, 0);
    if n - de < 2 {
        return Err(ParseError::Malformed);
    }
    if line[de] != ':' || line[de + 1] != ' ' {
        return Err(ParseError::Malformed);
    }
    // The shape of the operand list.
    let mut i = de + 2;
    let mut complete = false;
    while !complete
        invariant
            de + 2 <= i <= n,
            !complete ==> (operands_ok(line@, de as int + 2) <==> operands_ok(line@, i as int)),
            complete ==> operands_ok(line@, de as int + 2),
        decreases n - i + (if complete {
            0int
        } else {
            1int
        }),
    {
        let e = digit_run(line, i);
        if e == i {
            return Err(ParseError::Malformed);
        }
        if e == n {
            complete = true;
        } else {
            if line[e] != ' ' {
                return Err(ParseError::Malformed);
            }
            i = e + 1;
        }
    }
    // The values.
    proof {
        lemma_digit_run_bounds(line@, 0);
    }
    let total = match parse_digits(line, 0, de) {
        Some(t) => t,
        None => {
            return Err(ParseError::ValueTooBig);
        },
    };
    let mut operands: Vec<u64> = Vec::new();
    let mut i = de + 2;
    let mut complete = false;
    proof {
        assert(operands@.map_values(|v: u64| v as int) + operand_values(line@, i as int)
            =~= operand_values(line@, i as int));
    }
    while !complete
        invariant
            de + 2 <= i <= n,
            !complete ==> operands_ok(line@, i as int),
            !complete ==> line_operand_values(line@) == operands@.map_values(|v: u64| v as int)
                + operand_values(line@, i as int),
            complete ==> line_operand_values(line@) == operands@.map_values(|v: u64| v as int),
            forall|k: int|
                0 <= k < line_operand_values(line@).len() && k < operands@.len()
                    ==> #[trigger] line_operand_values(line@)[k] <= u64::MAX,
        decreases n - i + (if complete {
            0int
        } else {
            1int
        }),
    {
        let e = digit_run(line, i);
        proof {
            lemma_digit_run_bounds(line@, i as int);
        }
        let ghost before = operands@;
        match parse_digits(line, i, e) {
            Some(v) => {
                operands.push(v);
                proof {
                    assert(operands@.map_values(|v: u64| v as int) =~= before.map_values(
                        |v: u64| v as int,
                    ).push(v as int));
                }
            },
            None => {
                proof {
                    assert(line_operand_values(line@)[before.len() as int] == operand_values(
                        line@,
                        i as int,
                    )[0]);
                }
                return Err(ParseError::ValueTooBig);
            },
        }
        if e == n {
            complete = true;
            proof {
                assert(line_operand_values(line@) =~= operands@.map_values(|v: u64| v as int));
            }
        } else {
            i = e + 1;
            proof {
                assert(line_operand_values(line@) =~= operands@.map_values(|v: u64| v as int)
                    + operand_values(line@, i as int));
            }
        }
    }
    Ok(Equation { total, operands })
}

/// Reads a whole calibration input, one equation per line, stopping at the
/// first unreadable line.
#[verifier::loop_isolation(false)]
pub fn parse_input(lines: &Vec<Vec<char>>) -> (r: Result<Vec<Equation>, ParseError>)
    ensures
        r is Ok <==> (forall|i: int|
            0 <= i < lines@.len() ==> (#[trigger] line_error(lines@[i]@)) is None),
        r matches Ok(eqs) ==> eqs@.len() == lines@.len() && (forall|i: int|
            0 <= i < lines@.len() ==> (#[trigger] eqs@[i]).total == line_total(lines@[i]@)
                && eqs@[i].operands@.map_values(|v: u64| v as int) == line_operand_values(
                lines@[i]@,
            )),
        r matches Err(e) ==> exists|i: int|
            0 <= i < lines@.len() && (#[trigger] line_error(lines@[i]@)) == Some(e) && (forall|
                j: int,
            | 0 <= j < i ==> (#[trigger] line_error(lines@[j]@)) is None),
{
    let mut equations: Vec<Equation> = Vec::new();
    let n = lines.len();
    let mut k: usize = 0;
    while k < n
        invariant
            k <= n,
            n == lines@.len(),
            equations@.len() == k,
            forall|i: int| 0 <= i < k as int ==> (#[trigger] line_error(lines@[i]@)) is None,
            forall|i: int|
                0 <= i < k as int ==> (#[trigger] equations@[i]).total == line_total(lines@[i]@)
                    && equations@[i].operands@.map_values(|v: u64| v as int)
                    == line_operand_values(lines@[i]@),
        decreases n - k,
    {
        match parse_equation(&lines[k]) {
            Ok(eq) => {
                equations.push(eq);
            },
            Err(e) => {
                return Err(e);
            },
        }
        k += 1;
    }
    Ok(equations)
}

/// The sum of the totals of the valid equations among the first `n`, either
/// under `+` and `*` alone or with concatenation as well.
pub open spec fn valid_total_sum(eqs: Seq<Equation>, n: int, with_concat: bool) -> int
    decreases n,
{
    if n <= 0 {
        0
    } else {
        valid_total_sum(eqs, n - 1, with_concat) + (if (with_concat && equation_valid_with_concat(
            eqs[n - 1],
        )) || (!with_concat && equation_valid(eqs[n - 1])) {
            eqs[n - 1].total as int
        } else {
            0int
        })
    }
}

proof fn lemma_valid_total_sum_monotone(eqs: Seq<Equation>, k: int, n: int, with_concat: bool)
    requires
        k <= n,
    ensures
        valid_total_sum(eqs, k, with_concat) <= valid_total_sum(eqs, n, with_concat),
    decreases n - k,
{
    if k < n {
        lemma_valid_total_sum_monotone(eqs, k, n - 1, with_concat);
    }
}

proof fn lemma_valid_total_sum_nonneg(eqs: Seq<Equation>, n: int, with_concat: bool)
    ensures
        valid_total_sum(eqs, n, with_concat) >= 0,
    decreases n,
{
    if n > 0 {
        lemma_valid_total_sum_nonneg(eqs, n - 1, with_concat);
    }
}

/// Sums the totals of the valid equations, both without and with the
/// concatenation operator.  An equation with no operands at all is rejected.
#[verifier::loop_isolation(false)]
pub fn fix_equations(equations: &Vec<Equation>) -> (r: Result<(u64, u64), EquationError>)
    requires
        valid_total_sum(equations@, equations@.len() as int, false) <= u64::MAX,
        valid_total_sum(equations@, equations@.len() as int, true) <= u64::MAX,
    ensures
        r is Err <==> exists|i: int|
            0 <= i < equations@.len() && (#[trigger] equations@[i]).operands@.len() == 0,
        r matches Ok(p) ==> p.0 == valid_total_sum(equations@, equations@.len() as int, false)
            && p.1 == valid_total_sum(equations@, equations@.len() as int, true),
{
    let mut valid_equations_sum: u64 = 0;
    let mut valid_equations_with_concat_sum: u64 = 0;
    let n = equations.len();
    let mut k: usize = 0;
    while k < n
        invariant
            k <= n,
            valid_equations_sum == valid_total_sum(equations@, k as int, false),
            valid_equations_with_concat_sum == valid_total_sum(equations@, k as int, true),
            forall|i: int| 0 <= i < k as int ==> (#[trigger] equations@[i]).operands@.len() > 0,
        decreases n - k,
    {
        let equation = &equations[k];
        if equation.operands.len() == 0 {
            return Err(EquationError::EmptyOperands);
        }
        proof {
            lemma_valid_total_sum_monotone(equations@, k as int + 1, n as int, false);
            lemma_valid_total_sum_monotone(equations@, k as int + 1, n as int, true);
            lemma_valid_total_sum_nonneg(equations@, k as int, false);
            lemma_valid_total_sum_nonneg(equations@, k as int, true);
        }
        if is_valid_equation(equation) {
            valid_equations_sum = valid_equations_sum + equation.total;
        }
        if is_valid_equation_with_concat(equation) {
            valid_equations_with_concat_sum = valid_equations_with_concat_sum + equation.total;
        }
        k += 1;
    }
    Ok((valid_equations_sum, valid_equations_with_concat_sum))
}

} // verus!
