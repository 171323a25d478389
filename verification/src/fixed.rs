//! Saturating fixed-point arithmetic on `i64` values.
//!
//! A stored value `v` stands for the real number `v / SCALE`, so `SCALE`
//! itself stands for `1.0`.  Sums, differences and products are clamped
//! into the representable range instead of wrapping, and products are
//! truncated toward zero after rescaling.

use vstd::prelude::*;

verus! {

/// Granularity of the fixed-point representation: the stored value that
/// stands for the real number 1.0.
pub const SCALE: i64 = 65536;

/// Clamp an unbounded integer into the representable `i64` range.
pub open spec fn clamp(x: int) -> int {
    if x > i64::MAX as int {
        i64::MAX as int
    } else if x < i64::MIN as int {
        i64::MIN as int
    } else {
        x
    }
}

/// Saturating sum of two represented values.
pub open spec fn sat_add(a: int, b: int) -> int {
    clamp(a + b)
}

/// Saturating difference of two represented values.
pub open spec fn sat_sub(a: int, b: int) -> int {
    clamp(a - b)
}

/// Magnitude of an integer.
pub open spec fn mag(x: int) -> int {
    if x >= 0 {
        x
    } else {
        -x
    }
}

/// Saturating absolute difference `|a - b|` of two represented values.
pub open spec fn sat_dist(a: int, b: int) -> int {
    clamp(mag(a - b))
}

/// Division of a raw product by `SCALE`, truncated toward zero.
pub open spec fn div_scale(p: int) -> int {
    if p >= 0 {
        p / (SCALE as int)
    } else {
        -((-p) / (SCALE as int))
    }
}

/// Saturating fixed-point product: the represented values are multiplied,
/// truncated toward zero at `SCALE` granularity, and clamped.
pub open spec fn fixed_mul(a: int, b: int) -> int {
    clamp(div_scale(a * b))
}

/// The squashing activation applied to every computed node, a smooth
/// increasing map of the whole range into `[0, SCALE]` with value
/// `SCALE / 2` at zero: `v` is sent to `(1 + v / (SCALE + |v|)) / 2`
/// in real terms, evaluated exactly in integer arithmetic.
pub open spec fn sigmoid_spec(v: int) -> int {
    if v >= 0 {
        SCALE - (SCALE * SCALE) / (2 * (SCALE + v))
    } else {
        (SCALE * SCALE) / (2 * (SCALE - v))
    }
}

fn clamp_to_i64(x: i128) -> (r: i64)
    ensures
        r as int == clamp(x as int),
{
    if x > i64::MAX as i128 {
        i64::MAX
    } else if x < i64::MIN as i128 {
        i64::MIN
    } else {
        x as i64
    }
}

/// Saturating addition.
pub fn fx_add(a: i64, b: i64) -> (r: i64)
    ensures
        r as int == sat_add(a as int, b as int),
{
    clamp_to_i64(a as i128 + b as i128)
}

/// Saturating subtraction.
pub fn fx_sub(a: i64, b: i64) -> (r: i64)
    ensures
        r as int == sat_sub(a as int, b as int),
{
    clamp_to_i64(a as i128 - b as i128)
}

/// Saturating absolute difference.
pub fn fx_dist(a: i64, b: i64) -> (r: i64)
    ensures
        r as int == sat_dist(a as int, b as int),
{
    let d: i128 = a as i128 - b as i128;
    let m: i128 = if d >= 0 {
        d
    } else {
        -d
    };
    clamp_to_i64(m)
}

/// Saturating fixed-point multiplication.
pub fn fx_mul(a: i64, b: i64) -> (r: i64)
    ensures
        r as int == fixed_mul(a as int, b as int),
{
    let neg: bool = (a < 0) != (b < 0);
    let ma: u128 = if a >= 0 {
        a as u128
    } else {
        (-(a as i128)) as u128
    };
    let mb: u128 = if b >= 0 {
        b as u128
    } else {
        (-(b as i128)) as u128
    };
    proof {
        assert(ma as int == mag(a as int));
        assert(mb as int == mag(b as int));
        assert(ma as int * mb as int <= 0x8000000000000000 * 0x8000000000000000)
            by (nonlinear_arith)
            requires
                0 <= ma as int <= 0x8000000000000000,
                0 <= mb as int <= 0x8000000000000000,
        ;
        assert((a as int) * (b as int) == if neg {
            -(ma as int * mb as int)
        } else {
            ma as int * mb as int
        })
            by (nonlinear_arith)
            requires
                ma as int == mag(a as int),
                mb as int == mag(b as int),
                neg <==> (((a as int) < 0) != ((b as int) < 0)),
        ;
    }
    let m: u128 = ma * mb;
    let q: u128 = m / (SCALE as u128);
    proof {
        let p: int = (a as int) * (b as int);
        if neg {
            if m == 0 {
                assert(div_scale(p) == 0);
            } else {
                assert(p < 0);
                assert(div_scale(p) == -(q as int));
            }
        } else {
            assert(p >= 0);
            assert(div_scale(p) == q as int);
        }
    }
    if neg {
        if q >= 0x8000000000000000u128 {
            i64::MIN
        } else {
            -(q as i64)
        }
    } else {
        if q > i64::MAX as u128 {
            i64::MAX
        } else {
            q as i64
        }
    }
}

} // verus!
