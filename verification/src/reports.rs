//! Safety of level reports: adjacent levels must change by 1 to 3, always
//! in the same direction.  The dampened variant may discard one offending
//! level and try again.

use vstd::prelude::*;

verus! {

/// One step from `a` to `b` conforms to the direction `up`: it moves by 1
/// to 3 that way.
pub open spec fn step_ok(a: u32, b: u32, up: bool) -> bool {
    if up {
        a < b && b <= a + 3
    } else {
        b < a && a <= b + 3
    }
}

/// Every adjacent step of the report moves by 1 to 3 in direction `up`.
pub open spec fn monotone_safe(levels: Seq<u32>, up: bool) -> bool {
    forall|j: int| 0 <= j < levels.len() - 1 ==> #[trigger] step_ok(levels[j], levels[j + 1], up)
}

/// A report is safe when all its steps climb by 1 to 3, or all descend by
/// 1 to 3.
pub open spec fn report_safe(levels: Seq<u32>) -> bool {
    monotone_safe(levels, true) || monotone_safe(levels, false)
}

/// Whether the report is safe: every adjacent pair of levels differs by 1
/// to 3, in one consistent direction throughout.
#[verifier::loop_isolation(false)]
pub fn report_is_safe(levels: &[u32]) -> (r: bool)
    ensures
        r == report_safe(levels@),
{
    let n = levels.len();
    if n <= 1 {
        return true;
    }
    let mut up = false;
    let mut i: usize = 1;
    while i < n
        invariant
            1 <= i <= n,
            2 <= n == levels@.len(),
            i >= 2 ==> step_ok(levels@[0], levels@[1], up),
            forall|j: int| 0 <= j < i - 1 ==> #[trigger] step_ok(levels@[j], levels@[j + 1], up),
        decreases n - i,
    {
        let prev = levels[i - 1];
        let level = levels[i];
        let step_up = prev < level && level - prev <= 3;
        let step_down = level < prev && prev - level <= 3;
        if !step_up && !step_down {
            // This step moves by 0 or by more than 3: it conforms to
            // neither direction.
            proof {
                assert(!monotone_safe(levels@, true)) by {
                    assert(!step_ok(levels@[i - 1], levels@[i - 1 + 1], true));
                }
                assert(!monotone_safe(levels@, false)) by {
                    assert(!step_ok(levels@[i - 1], levels@[i - 1 + 1], false));
                }
            }
            return false;
        }
        let current_up = step_up;
        if i >= 2 && up != current_up {
            // The direction flipped: the first step rules out one reading,
            // this step the other.
            proof {
                assert(!monotone_safe(levels@, !up)) by {
                    assert(!step_ok(levels@[0], levels@[0int + 1], !up));
                }
                assert(!monotone_safe(levels@, up)) by {
                    assert(!step_ok(levels@[i - 1], levels@[i - 1 + 1], up));
                }
            }
            return false;
        }
        up = current_up;
        i += 1;
    }
    true
}

/// The dampened safety check, defined by its scan: levels are compared to
/// the previous kept level; the first violation may be skipped — once — by
/// discarding the current level (or the very first level, when the report
/// starts with a violation).
pub open spec fn safe_with_dampening(
    prev: Option<u32>,
    is_positive: Option<bool>,
    dampened: bool,
    levels: Seq<u32>,
) -> bool
    decreases levels.len(),
{
    if levels.len() == 0 {
        true
    } else {
        let level = levels[0];
        match prev {
            Some(p) => {
                let ok = if p < level {
                    level <= p + 3 && is_positive != Some(false)
                } else if level < p {
                    p <= level + 3 && is_positive != Some(true)
                } else {
                    false
                };
                if ok {
                    ||| safe_with_dampening(
                        Some(level),
                        Some(p < level),
                        dampened,
                        levels.drop_first(),
                    )
                    ||| (!dampened && safe_with_dampening(
                        Some(p),
                        is_positive,
                        true,
                        levels.drop_first(),
                    ))
                } else {
                    !dampened && safe_with_dampening(Some(p), is_positive, true, levels.drop_first())
                }
            },
            None => {
                ||| safe_with_dampening(Some(level), is_positive, dampened, levels.drop_first())
                ||| (!dampened && safe_with_dampening(None, is_positive, true, levels.drop_first()))
            },
        }
    }
}

/// The dampened safety scan: compares each level to the last kept one and,
/// on the first violation, retries with the offending level discarded.
/// `prev` is the last kept level, `is_positive` the direction fixed so far,
/// and `dampened` whether the one allowed discard has been spent.
pub fn report_is_safe_recursive(
    prev: Option<u32>,
    is_positive: Option<bool>,
    dampened: bool,
    levels: &[u32],
) -> (r: bool)
    ensures
        r == safe_with_dampening(prev, is_positive, dampened, levels@),
    decreases levels@.len(),
{
    if levels.len() == 0 {
        return true;
    }
    let level = levels[0];
    let rest = &levels[1..levels.len()];
    proof {
        assert(rest@ =~= levels@.drop_first());
    }
    match prev {
        Some(p) => {
            let climbing_allowed = match is_positive {
                Some(b) => b,
                None => true,
            };
            let descending_allowed = match is_positive {
                Some(b) => !b,
                None => true,
            };
            let ok = if p < level {
                level - p <= 3 && climbing_allowed
            } else if level < p {
                p - level <= 3 && descending_allowed
            } else {
                false
            };
            if ok {
                if report_is_safe_recursive(Some(level), Some(p < level), dampened, rest) {
                    return true;
                }
            }
            if dampened {
                false
            } else {
                report_is_safe_recursive(Some(p), is_positive, true, rest)
            }
        },
        None => {
            if report_is_safe_recursive(Some(level), is_positive, dampened, rest) {
                return true;
            }
            if dampened {
                false
            } else {
                report_is_safe_recursive(None, is_positive, true, rest)
            }
        },
    }
}

} // verus!
