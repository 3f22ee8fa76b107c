//! Reading whitespace-separated decimal numbers from a row of characters.
//!
//! The readers walk a shared cursor over the row, the way a consuming
//! character iterator would: a number ends at the first whitespace
//! character, and that character is consumed with it.

use vstd::prelude::*;

verus! {

/// An ASCII whitespace character.
pub open spec fn is_ascii_ws(c: char) -> bool {
    c == ' ' || c == '\t' || c == '\n' || c == '\x0c' || c == '\r'
}

/// An ASCII decimal digit.
pub open spec fn is_ascii_digit_char(c: char) -> bool {
    48 <= c as int <= 57
}

/// The numeric value of an ASCII decimal digit.
pub open spec fn digit_val(c: char) -> int {
    c as int - 48
}

/// The position of the first whitespace character at or after `i`, or the
/// row's end if there is none.
pub open spec fn token_end(s: Seq<char>, i: int) -> int
    decreases s.len() - i,
{
    if i < 0 || i >= s.len() {
        s.len() as int
    } else if is_ascii_ws(s[i]) {
        i
    } else {
        token_end(s, i + 1)
    }
}

/// The digits of `s[from..to]` folded onto the accumulator `init`, most
/// significant first.
pub open spec fn fold_digits(init: int, s: Seq<char>, from: int, to: int) -> int
    decreases to - from,
{
    if from >= to {
        init
    } else {
        fold_digits(init * 10 + digit_val(s[from]), s, from + 1, to)
    }
}

/// The starting value a leading character contributes: its digit value, or
/// zero when there is no leading character.
pub open spec fn first_val(first: Option<char>) -> int {
    match first {
        Some(c) => digit_val(c),
        None => 0,
    }
}

proof fn lemma_token_end_bounds(s: Seq<char>, i: int)
    requires
        0 <= i <= s.len(),
    ensures
        i <= token_end(s, i) <= s.len(),
    decreases s.len() - i,
{
    if i < s.len() && !is_ascii_ws(s[i]) {
        lemma_token_end_bounds(s, i + 1);
    }
}

pub(crate) proof fn lemma_fold_digits_ge(init: int, s: Seq<char>, from: int, to: int)
    requires
        init >= 0,
        forall|j: int| from <= j < to ==> is_ascii_digit_char(#[trigger] s[j]),
    ensures
        fold_digits(init, s, from, to) >= init,
    decreases to - from,
{
    if from < to {
        lemma_fold_digits_ge(init * 10 + digit_val(s[from]), s, from + 1, to);
    }
}

/// The position of the first non-digit at or after `i`, or the text's end.
pub open spec fn digit_run_end(s: Seq<char>, i: int) -> int
    decreases s.len() - i,
{
    if !(0 <= i < s.len()) {
        i
    } else if is_ascii_digit_char(s[i]) {
        digit_run_end(s, i + 1)
    } else {
        i
    }
}

pub(crate) proof fn lemma_digit_run_bounds(s: Seq<char>, i: int)
    requires
        0 <= i <= s.len(),
    ensures
        i <= digit_run_end(s, i) <= s.len(),
        forall|j: int| i <= j < digit_run_end(s, i) ==> is_ascii_digit_char(#[trigger] s[j]),
    decreases s.len() - i,
{
    if i < s.len() && is_ascii_digit_char(s[i]) {
        lemma_digit_run_bounds(s, i + 1);
    }
}

/// Finds the end of the digit run starting at `from`.
pub(crate) fn digit_run(text: &Vec<char>, from: usize) -> (r: usize)
    requires
        from <= text@.len(),
    ensures
        r == digit_run_end(text@, from as int),
        from <= r <= text@.len(),
{
    let n = text.len();
    let mut i = from;
    while i < n && text[i] >= '0' && text[i] <= '9'
        invariant
            from <= i <= n,
            n == text@.len(),
            digit_run_end(text@, i as int) == digit_run_end(text@, from as int),
        decreases n - i,
    {
        i += 1;
    }
    proof {
        lemma_digit_run_bounds(text@, i as int);
    }
    i
}

/// Reads the digits `text[from..to]` as a `u64`, or `None` when the value
/// does not fit.
pub(crate) fn parse_digits(text: &Vec<char>, from: usize, to: usize) -> (r: Option<u64>)
    requires
        from <= to <= text@.len(),
        forall|j: int| from <= j < to ==> is_ascii_digit_char(#[trigger] text@[j]),
    ensures
        r is Some <==> fold_digits(0, text@, from as int, to as int) <= u64::MAX,
        r matches Some(v) ==> v == fold_digits(0, text@, from as int, to as int),
{
    let mut value: u64 = 0;
    let mut i = from;
    while i < to
        invariant
            from <= i <= to <= text@.len(),
            forall|j: int| from <= j < to ==> is_ascii_digit_char(#[trigger] text@[j]),
            fold_digits(value as int, text@, i as int, to as int) == fold_digits(
                0,
                text@,
                from as int,
                to as int,
            ),
        decreases to - i,
    {
        let c = text[i];
        proof {
            lemma_fold_digits_ge(
                value as int * 10 + digit_val(c),
                text@,
                i as int + 1,
                to as int,
            );
        }
        match value.checked_mul(10) {
            Some(shifted) => {
                match shifted.checked_add((c as u32 as u64) - 48) {
                    Some(v) => {
                        value = v;
                    },
                    None => {
                        return None;
                    },
                }
            },
            None => {
                return None;
            },
        }
        i += 1;
    }
    Some(value)
}

/// Advances the cursor past any whitespace and consumes and returns the
/// first non-whitespace character, or `None` if only whitespace remains.
#[verifier::loop_isolation(false)]
pub fn skip_whitespace(chars: &Vec<char>, pos: &mut usize) -> (r: Option<char>)
    requires
        *old(pos) <= chars@.len(),
    ensures
        *old(pos) <= *final(pos) <= chars@.len(),
        r matches Some(c) ==> *final(pos) >= 1 && chars@[*final(pos) - 1] == c && !is_ascii_ws(c)
            && (forall|j: int| *old(pos) <= j < *final(pos) - 1 ==> is_ascii_ws(#[trigger] chars@[j])),
        r is None ==> *final(pos) == chars@.len() && (forall|j: int|
            *old(pos) <= j < chars@.len() ==> is_ascii_ws(#[trigger] chars@[j])),
{
    while *pos < chars.len()
        invariant
            *old(pos) <= *pos <= chars@.len(),
            forall|j: int| *old(pos) <= j < *pos ==> is_ascii_ws(#[trigger] chars@[j]),
        decreases chars@.len() - *pos,
    {
        let c = chars[*pos];
        *pos += 1;
        if !(c == ' ' || c == '\t' || c == '\n' || c == '\x0c' || c == '\r') {
            return Some(c);
        }
    }
    None
}

/// Reads a decimal number: the optional already-consumed leading digit
/// `first`, then every digit up to the next whitespace character, which is
/// consumed along with them.  The caller guarantees that the token really
/// is all digits and that its value fits in `u64`.
#[verifier::loop_isolation(false)]
pub fn stonum(first: Option<char>, chars: &Vec<char>, pos: &mut usize) -> (r: u64)
    requires
        *old(pos) <= chars@.len(),
        first matches Some(c) ==> is_ascii_digit_char(c),
        forall|j: int|
            *old(pos) <= j < token_end(chars@, *old(pos) as int) ==> is_ascii_digit_char(
                #[trigger] chars@[j],
            ),
        fold_digits(first_val(first), chars@, *old(pos) as int, token_end(chars@, *old(pos) as int))
            <= u64::MAX,
    ensures
        r == fold_digits(
            first_val(first),
            chars@,
            *old(pos) as int,
            token_end(chars@, *old(pos) as int),
        ),
        *final(pos) == if token_end(chars@, *old(pos) as int) < chars@.len() {
            token_end(chars@, *old(pos) as int) + 1
        } else {
            chars@.len() as int
        },
{
    let ghost start = *pos as int;
    let ghost end = token_end(chars@, start);
    let mut value: u64 = match first {
        Some(c) => (c as u32 as u64) - 48,
        None => 0,
    };
    proof {
        lemma_token_end_bounds(chars@, start);
    }
    let mut done = false;
    while !done && *pos < chars.len()
        invariant
            start <= *pos <= chars@.len(),
            !done ==> *pos <= end && token_end(chars@, *pos as int) == end && fold_digits(
                value as int,
                chars@,
                *pos as int,
                end,
            ) == fold_digits(first_val(first), chars@, start, end),
            done ==> *pos == end + 1 && end < chars@.len() && value == fold_digits(
                first_val(first),
                chars@,
                start,
                end,
            ),
            fold_digits(first_val(first), chars@, start, end) <= u64::MAX,
        decreases chars@.len() - *pos + (if done {
            0int
        } else {
            1int
        }),
    {
        let c = chars[*pos];
        *pos += 1;
        if c == ' ' || c == '\t' || c == '\n' || c == '\x0c' || c == '\r' {
            proof {
                assert(*pos - 1 == end);
            }
            done = true;
        } else {
            proof {
                lemma_token_end_bounds(chars@, *pos as int);
                assert(token_end(chars@, *pos as int - 1) == token_end(chars@, *pos as int));
                assert(is_ascii_digit_char(c));
                lemma_fold_digits_ge(value as int * 10 + digit_val(c), chars@, *pos as int, end);
            }
            value = value * 10 + ((c as u32 as u64) - 48);
        }
    }
    value
}

} // verus!
