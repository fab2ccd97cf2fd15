use vstd::prelude::*;

use vstd::arithmetic::div_mod::{lemma_div_is_ordered, lemma_fundamental_div_mod};

verus! {

/// How many frames an animated progress sequence may hold beyond its
/// two endpoints.
pub const MAX_INTERMEDIATE_FRAMES: u64 = 50;

/// The number of filled cells in a progress bar of `width` cells that
/// shows `current` of `max`: the exact proportional share, rounded
/// down, and never more than the bar is wide. An empty scale shows an
/// empty bar. For values so large that the proportion cannot be
/// computed exactly in the pool's width, the result is still within
/// the bar.
pub fn bar_fill_width(current: u128, max: u128, width: u32) -> (r: u32)
    requires
        current <= max,
    ensures
        max == 0 ==> r == 0,
        r <= width,
        max > 0 && current * width <= u128::MAX ==> r as int == current * width / max as int,
{
    if max == 0 || width == 0 {
        return 0;
    }
    match current.checked_mul(width as u128) {
        Some(p) => {
            proof {
                assert(p as int / max as int <= (max as int) * (width as int) / (max as int)) by {
                    vstd::arithmetic::mul::lemma_mul_inequality(
                        current as int,
                        max as int,
                        width as int,
                    );
                    lemma_div_is_ordered(p as int, (max as int) * (width as int), max as int);
                };
                assert((max as int) * (width as int) / (max as int) == width as int) by {
                    vstd::arithmetic::div_mod::lemma_div_multiples_vanish(
                        width as int,
                        max as int,
                    );
                    vstd::arithmetic::mul::lemma_mul_is_commutative(max as int, width as int);
                };
            }
            (p / max) as u32
        },
        None => {
            proof {
                assert(width as int >= 2) by (nonlinear_arith)
                    requires
                        (current as int) * (width as int) > u128::MAX,
                        0 <= current as int <= u128::MAX,
                        0 <= width as int;
                vstd::arithmetic::div_mod::lemma_div_is_ordered_by_denominator(
                    max as int,
                    2,
                    width as int,
                );
            }
            let q: u128 = max / (width as u128) + 1;
            let t: u128 = current / q;
            proof {
                assert(current as int / q as int <= max as int / q as int) by {
                    lemma_div_is_ordered(current as int, max as int, q as int);
                };
                assert(max as int / q as int <= width as int) by {
                    lemma_fundamental_div_mod(max as int, width as int + 0);
                    vstd::arithmetic::div_mod::lemma_div_is_ordered_by_denominator(
                        max as int,
                        max as int / (width as int) + 1,
                        q as int,
                    );
                    assert(max as int / q as int <= width as int) by (nonlinear_arith)
                        requires
                            q as int == max as int / (width as int) + 1,
                            max as int >= 0,
                            width as int > 0,
                            q as int > 0;
                };
            }
            if t > width as u128 {
                width
            } else {
                t as u32
            }
        },
    }
}

/// The frames of an animated climb from `from` to `to`.
///
/// A short climb shows every value. A longer one shows the two
/// endpoints and up to `MAX_INTERMEDIATE_FRAMES` proportional samples
/// between them; the sequence always starts at `from`, ends at `to`,
/// never leaves that range, and never moves backwards.
pub fn progress_frames(from: u128, to: u128) -> (r: Vec<u128>)
    requires
        from <= to,
    ensures
        r@.len() >= 1,
        r@[0] == from,
        r@[r@.len() - 1] == to,
        r@.len() <= MAX_INTERMEDIATE_FRAMES + 1,
        forall|i: int| 0 <= i < r@.len() ==> from <= #[trigger] r@[i] <= to,
        forall|i: int| 0 <= i < r@.len() - 1 ==> #[trigger] r@[i] < r@[i + 1],
        to - from <= MAX_INTERMEDIATE_FRAMES ==> (r@.len() == to - from + 1 && forall|i: int|
            0 <= i < r@.len() ==> #[trigger] r@[i] == from + i),
{
    let range: u128 = to - from;
    let mut out: Vec<u128> = Vec::new();
    if range <= MAX_INTERMEDIATE_FRAMES as u128 {
        let mut i: u128 = 0;
        while i <= range
            invariant
                0 <= i <= range + 1,
                range <= MAX_INTERMEDIATE_FRAMES,
                range == to - from,
                out@.len() == i,
                forall|j: int| 0 <= j < out@.len() ==> #[trigger] out@[j] == from + j,
            decreases range - i + 1,
        {
            out.push(from + i);
            i = i + 1;
        }
        out
    } else {
        out.push(from);
        let step: u128 = range / (MAX_INTERMEDIATE_FRAMES as u128);
        let rem: u128 = range % (MAX_INTERMEDIATE_FRAMES as u128);
        proof {
            assert(51int / 50int == 1int) by (nonlinear_arith);
            lemma_div_is_ordered(51, range as int, 50);
        }
        let mut i: u64 = 1;
        while i < MAX_INTERMEDIATE_FRAMES
            invariant
                1 <= i <= MAX_INTERMEDIATE_FRAMES,
                range == to - from,
                range > MAX_INTERMEDIATE_FRAMES,
                step == range / (MAX_INTERMEDIATE_FRAMES as u128),
                rem == range % (MAX_INTERMEDIATE_FRAMES as u128),
                step >= 1,
                out@.len() >= 1,
                out@[0] == from,
                forall|j: int| 0 <= j < out@.len() ==> from <= #[trigger] out@[j] <= to,
                forall|j: int| 0 <= j < out@.len() - 1 ==> #[trigger] out@[j] < out@[j + 1],
                forall|j: int|
                    0 <= j < out@.len() ==> #[trigger] out@[j] <= from + step * (i - 1) + rem * (
                    i - 1) / 50,
                out@.len() <= i,
            decreases MAX_INTERMEDIATE_FRAMES - i,
        {
            proof {
                lemma_fundamental_div_mod(range as int, 50);
                assert(step * (i as int) <= step * 50) by (nonlinear_arith)
                    requires
                        0 <= step,
                        0 < i as int <= 50;
                assert(rem * (i as int) <= rem * 50) by (nonlinear_arith)
                    requires
                        0 <= rem,
                        0 < i as int <= 50;
                assert(step * 50 + rem <= range) by (nonlinear_arith)
                    requires
                        range as int == 50 * step + rem,
                        0 <= rem;
                assert(rem * (i as int) / 50 <= rem) by {
                    lemma_div_is_ordered(rem * (i as int), rem * 50, 50);
                    vstd::arithmetic::div_mod::lemma_div_multiples_vanish(rem as int, 50);
                    vstd::arithmetic::mul::lemma_mul_is_commutative(rem as int, 50);
                };
                assert(step * (i as int) == step * (i as int - 1) + step) by (nonlinear_arith);
                assert(step * (i as int) >= 1) by (nonlinear_arith)
                    requires
                        1 <= step,
                        1 <= i as int;
                assert(rem * (i as int - 1) / 50 <= rem * (i as int) / 50) by {
                    assert(rem * (i as int - 1) <= rem * (i as int)) by (nonlinear_arith)
                        requires
                            0 <= rem,
                            1 <= i as int;
                    lemma_div_is_ordered(rem * (i as int - 1), rem * (i as int), 50);
                };
            }
            let offset: u128 = step * (i as u128) + (rem * (i as u128)) / 50;
            let value: u128 = from + offset;
            if value != from && value != to {
                out.push(value);
            }
            i = i + 1;
        }
        proof {
            lemma_fundamental_div_mod(range as int, 50);
            assert((rem as int) * 49 <= (rem as int) * 50) by (nonlinear_arith)
                requires 0 <= rem as int;
            let t: int = (rem as int) * 49 / 50;
            assert(t <= rem as int) by {
                lemma_div_is_ordered((rem as int) * 49, (rem as int) * 50, 50);
                vstd::arithmetic::div_mod::lemma_div_multiples_vanish(rem as int, 50);
                vstd::arithmetic::mul::lemma_mul_is_commutative(rem as int, 50);
            };
            assert(from + (step as int) * 49 + t < to as int) by (nonlinear_arith)
                requires
                    range as int == 50 * (step as int) + (rem as int),
                    to as int == from + range,
                    1 <= step as int,
                    0 <= rem as int,
                    t <= rem as int;
            assert(out@[out@.len() - 1] < to);
        }
        out.push(to);
        out
    }
}

} // verus!
