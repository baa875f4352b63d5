//! Exact integer arithmetic used throughout the numeric transforms: floor
//! division, rounding to nearest with halves away from zero, and saturation
//! to the 16-bit sample range.
//!
//! Every quantity that the original signal path carried as a binary floating
//! point value is carried here as an exact rational `p / q` with `q > 0`, and
//! rounded only at the point where a sample is stored.

use vstd::prelude::*;
use vstd::arithmetic::div_mod::lemma_fundamental_div_mod_converse;

verus! {

/// Mathematical rounding of `p / q` (with `q > 0`) to the nearest integer,
/// halves rounded away from zero.
pub open spec fn round_half_away(p: int, q: int) -> int
    recommends
        q > 0,
{
    if p >= 0 {
        (2 * p + q) / (2 * q)
    } else {
        -((2 * -p + q) / (2 * q))
    }
}

/// Floor of `p / q` for `q > 0` (integer division in spec arithmetic).
pub open spec fn floor_div(p: int, q: int) -> int
    recommends
        q > 0,
{
    p / q
}

/// Saturation of a value to the `i16` sample range.
pub open spec fn clamp_i16(v: int) -> int {
    if v < -32768 {
        -32768
    } else if v > 32767 {
        32767
    } else {
        v
    }
}

/// Rounds `p / q` to the nearest integer, halves away from zero.
pub fn rha_i128(p: i128, q: u128) -> (r: i128)
    requires
        0 < q,
        (q as int) < 0x4000_0000_0000_0000_0000_0000_0000_0000,
        -0x4000_0000_0000_0000_0000_0000_0000_0000 < (p as int),
        (p as int) < 0x4000_0000_0000_0000_0000_0000_0000_0000,
    ensures
        r as int == round_half_away(p as int, q as int),
        p >= 0 ==> 0 <= r <= p,
        p < 0 ==> p <= r <= 0,
{
    if p >= 0 {
        let up: u128 = p as u128;
        let r: u128 = (2 * up + q) / (2 * q);
        proof {
            lemma_rounded_quotient_bound(up as int, q as int);
        }
        r as i128
    } else {
        let um: u128 = (-p) as u128;
        let r: u128 = (2 * um + q) / (2 * q);
        proof {
            lemma_rounded_quotient_bound(um as int, q as int);
        }
        -(r as i128)
    }
}

/// For `p, q >= 0` with `q > 0`, the rounded quotient `(2p + q) / (2q)` lies
/// in `[0, p]`.
proof fn lemma_rounded_quotient_bound(p: int, q: int)
    requires
        p >= 0,
        q > 0,
    ensures
        0 <= (2 * p + q) / (2 * q) <= p,
{
    vstd::arithmetic::div_mod::lemma_div_pos_is_pos(2 * p + q, 2 * q);
    assert(2 * p + q <= 2 * p * q + 2 * q - 1) by (nonlinear_arith)
        requires
            p >= 0,
            q > 0,
    ;
    vstd::arithmetic::div_mod::lemma_div_is_ordered(2 * p + q, 2 * p * q + 2 * q - 1, 2 * q);
    assert(2 * p * q + 2 * q - 1 == p * (2 * q) + (2 * q - 1)) by (nonlinear_arith);
    lemma_fundamental_div_mod_converse(2 * p * q + 2 * q - 1, 2 * q, p, 2 * q - 1);
}

/// Floor division of `p` by `q > 0`.
pub fn floor_div_i128(p: i128, q: u128) -> (r: i128)
    requires
        0 < q,
        (q as int) < 0x4000_0000_0000_0000_0000_0000_0000_0000,
        -0x4000_0000_0000_0000_0000_0000_0000_0000 < (p as int),
        (p as int) < 0x4000_0000_0000_0000_0000_0000_0000_0000,
    ensures
        r as int == floor_div(p as int, q as int),
{
    if p >= 0 {
        let up: u128 = p as u128;
        ((up / q) as i128)
    } else {
        let um: u128 = (-p) as u128;
        let d: u128 = (um + q - 1) / q;
        proof {
            let m = um as int;
            let qi = q as int;
            let di = (m + qi - 1) / qi;
            let ri = (m + qi - 1) % qi;
            vstd::arithmetic::div_mod::lemma_fundamental_div_mod(m + qi - 1, qi);
            vstd::arithmetic::div_mod::lemma_mod_bound(m + qi - 1, qi);
            vstd::arithmetic::div_mod::lemma_div_pos_is_pos(m + qi - 1, qi);
            assert((-di) * qi == -(di * qi)) by (nonlinear_arith);
            assert(qi * di == di * qi) by (nonlinear_arith);
            // -m laid out as qi * (-di) + (qi - 1 - ri), a Euclidean form.
            lemma_fundamental_div_mod_converse(-m, qi, -di, qi - 1 - ri);
        }
        -(d as i128)
    }
}

/// Saturates a value to the `i16` range.
pub fn clamp_to_i16(v: i128) -> (r: i16)
    ensures
        r as int == clamp_i16(v as int),
{
    if v < -32768 {
        -32768
    } else if v > 32767 {
        32767
    } else {
        v as i16
    }
}

} // verus!
