//! Speed curves: the mapping from a temperature reading and the configured
//! temperature window to a target fan speed, together with the laws that the
//! mapping obeys (bounded output, exact endpoints, clamping, monotonicity).

use vstd::arithmetic::div_mod::lemma_div_is_ordered;
use vstd::arithmetic::div_mod::lemma_div_multiples_vanish;
use vstd::arithmetic::div_mod::lemma_div_pos_is_pos;
use vstd::arithmetic::mul::lemma_mul_inequality;
use vstd::prelude::*;

verus! {

/// The closed set of curve variants a configuration may select.
#[derive(Clone, Copy, PartialEq, Eq, Structural, Debug)]
pub enum FanCurve {
    Linear,
}

/// Linear interpolation from the temperature window `[cmin, cmax]` to the
/// speed envelope `[fmin, fmax]`, clamped outside the window. The ratio is
/// taken multiply-first so that integer division loses at most one unit.
pub open spec fn linear_speed(temp: u32, cmin: u32, cmax: u32, fmin: u32, fmax: u32) -> int {
    if temp <= cmin {
        fmin as int
    } else if temp >= cmax {
        fmax as int
    } else {
        fmin + ((temp - cmin) * (fmax - fmin)) / (cmax - cmin)
    }
}

/// Target speed under the given curve variant.
pub open spec fn curve_speed(
    curve: FanCurve,
    temp: u32,
    cmin: u32,
    cmax: u32,
    fmin: u32,
    fmax: u32,
) -> int {
    match curve {
        FanCurve::Linear => linear_speed(temp, cmin, cmax, fmin, fmax),
    }
}

/// For every temperature, the linear curve's output lies within the fan's
/// speed envelope `[fmin, fmax]`; in particular no output is ever negative
/// or out of range, whatever side of the window the reading falls on.
pub proof fn lemma_curve_in_range(temp: u32, cmin: u32, cmax: u32, fmin: u32, fmax: u32)
    requires
        cmin < cmax,
        fmin <= fmax,
    ensures
        fmin <= linear_speed(temp, cmin, cmax, fmin, fmax) <= fmax,
{
    if cmin < temp < cmax {
        let a = temp - cmin;
        let b = fmax - fmin;
        let c = cmax - cmin;
        lemma_div_pos_is_pos(a * b, c as int);
        assert(a * b <= c * b) by {
            lemma_mul_inequality(a as int, c as int, b as int);
        }
        lemma_div_is_ordered(a * b, c * b, c as int);
        assert((c * b) / (c as int) == b) by {
            lemma_div_multiples_vanish(b as int, c as int);
        }
    }
}

/// At the window's edges the linear curve is exact: the minimum configured
/// temperature commands the fan's minimum speed, the maximum the maximum.
pub proof fn lemma_curve_endpoints(cmin: u32, cmax: u32, fmin: u32, fmax: u32)
    requires
        cmin < cmax,
    ensures
        linear_speed(cmin, cmin, cmax, fmin, fmax) == fmin,
        linear_speed(cmax, cmin, cmax, fmin, fmax) == fmax,
{
}

/// Readings outside the configured window are clamped: anything at or below
/// `cmin` commands `fmin`, anything at or above `cmax` commands `fmax`.
pub proof fn lemma_curve_clamped(temp: u32, cmin: u32, cmax: u32, fmin: u32, fmax: u32)
    requires
        cmin < cmax,
    ensures
        temp <= cmin ==> linear_speed(temp, cmin, cmax, fmin, fmax) == fmin,
        temp >= cmax ==> linear_speed(temp, cmin, cmax, fmin, fmax) == fmax,
{
}

/// The linear curve is monotonically non-decreasing in the temperature:
/// a hotter reading never commands a slower fan.
pub proof fn lemma_curve_monotonic(t1: u32, t2: u32, cmin: u32, cmax: u32, fmin: u32, fmax: u32)
    requires
        cmin < cmax,
        fmin <= fmax,
        t1 <= t2,
    ensures
        linear_speed(t1, cmin, cmax, fmin, fmax) <= linear_speed(t2, cmin, cmax, fmin, fmax),
{
    lemma_curve_in_range(t1, cmin, cmax, fmin, fmax);
    lemma_curve_in_range(t2, cmin, cmax, fmin, fmax);
    if cmin < t1 < cmax && cmin < t2 < cmax {
        let b = fmax - fmin;
        let c = cmax - cmin;
        assert((t1 - cmin) * b <= (t2 - cmin) * b) by {
            lemma_mul_inequality(t1 - cmin, t2 - cmin, b as int);
        }
        lemma_div_is_ordered((t1 - cmin) * b, (t2 - cmin) * b, c as int);
    }
}

} // verus!
