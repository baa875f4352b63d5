//! Average-reference calculator.
//!
//! For every time index independently, the arithmetic mean across all channel
//! rows is subtracted from each channel's value at that index. The
//! fixed-point variant evaluates the exact rational `x - sum/n` as
//! `(n*x - sum) / n`, rounds it to the nearest integer with halves away from
//! zero, and saturates to the 16-bit sample range before storing.

use vstd::prelude::*;
use crate::EegError;
use crate::arith::{clamp_i16, clamp_to_i16, rha_i128, round_half_away};

verus! {

/// Sum across channel rows of the samples at time index `t`.
pub open spec fn col_sum(m: Seq<Seq<i16>>, t: int) -> int
    decreases m.len(),
{
    if m.len() == 0 {
        0
    } else {
        col_sum(m.drop_last(), t) + m.last()[t]
    }
}

/// The re-referenced sample of channel `ch` at time `t`: the exact rational
/// `x - sum/n` scaled to `(n*x - sum)/n`, rounded half away from zero and
/// saturated to the sample range.
pub open spec fn referenced_sample(m: Seq<Seq<i16>>, ch: int, t: int) -> int {
    clamp_i16(round_half_away(m.len() * m[ch][t] - col_sum(m, t), m.len() as int))
}

/// Sum over the channels of `m` of the pre-rounding numerators
/// `n * m[ch][t] - s` (`n` channels, `s` the column sum).
pub open spec fn residual_sum(m: Seq<Seq<i16>>, n: int, s: int, t: int) -> int
    decreases m.len(),
{
    if m.len() == 0 {
        0
    } else {
        residual_sum(m.drop_last(), n, s, t) + (n * m.last()[t] - s)
    }
}

proof fn lemma_residual_sum_linear(m: Seq<Seq<i16>>, n: int, s: int, t: int)
    ensures
        residual_sum(m, n, s, t) == n * col_sum(m, t) - m.len() * s,
    decreases m.len(),
{
    if m.len() == 0 {
    } else {
        lemma_residual_sum_linear(m.drop_last(), n, s, t);
        assert(n * (col_sum(m.drop_last(), t) + m.last()[t]) == n * col_sum(m.drop_last(), t)
            + n * m.last()[t]) by (nonlinear_arith);
        assert((m.len() - 1) * s + s == m.len() * s) by (nonlinear_arith);
    }
}

/// Law: at every time index, the pre-rounding re-referenced values summed
/// across all channels are exactly zero — the average reference has mean
/// zero before integer rounding.
pub proof fn lemma_average_reference_zero_mean(m: Seq<Seq<i16>>, t: int)
    ensures
        residual_sum(m, m.len() as int, col_sum(m, t), t) == 0,
{
    lemma_residual_sum_linear(m, m.len() as int, col_sum(m, t), t);
    assert(m.len() * col_sum(m, t) == (m.len() as int) * col_sum(m, t)) by (nonlinear_arith);
}

/// Derives the average-referenced view of a sample matrix. An empty input
/// yields an empty output, not an error. Rows must already have uniform
/// length; the decoder validates that during load.
pub fn compute_average_reference_i16(data: &Vec<Vec<i16>>) -> (r: Result<Vec<Vec<i16>>, EegError>)
    requires
        forall|c: int| 0 <= c < data@.len() ==> (#[trigger] data@[c])@.len() == data@[0]@.len(),
    ensures
        r is Ok,
        ({
            let out = r->Ok_0;
            let m = data.deep_view();
            &&& out@.len() == m.len()
            &&& forall|c: int| 0 <= c < m.len() ==> (#[trigger] out@[c])@.len() == m[c].len()
            &&& forall|c: int, t: int|
                0 <= c < m.len() && 0 <= t < m[c].len() ==> (#[trigger] out@[c]@[t]) as int
                    == referenced_sample(m, c, t)
        }),
{
    let ghost m = data.deep_view();
    if data.len() == 0 {
        return Ok(Vec::new());
    }
    let num_channels = data.len();
    let num_time_points = data[0].len();
    proof {
        assert(forall|c: int| 0 <= c < m.len() ==> (#[trigger] m[c]).len()
            == num_time_points as int);
    }

    let mut sums: Vec<i128> = Vec::new();
    for t in 0..num_time_points
        invariant
            num_channels == data@.len(),
            m == data.deep_view(),
            forall|c: int| 0 <= c < m.len() ==> (#[trigger] m[c]).len() == num_time_points as int,
            sums@.len() == t,
            forall|j: int| 0 <= j < t as int ==> (#[trigger] sums@[j]) as int == col_sum(m, j),
            forall|j: int| 0 <= j < t as int ==> -32768 * m.len() <= (#[trigger] sums@[j]) as int
                <= 32768 * m.len(),
    {
        let mut s: i128 = 0;
        for ch in 0..num_channels
            invariant
                num_channels == data@.len(),
                m == data.deep_view(),
                t < num_time_points,
                forall|c: int| 0 <= c < m.len() ==> (#[trigger] m[c]).len()
                    == num_time_points as int,
                s as int == col_sum(m.take(ch as int), t as int),
                -32768 * (ch as int) <= s as int <= 32768 * (ch as int),
        {
            proof {
                assert(m[ch as int] == data@[ch as int].deep_view());
                assert(data@[ch as int]@.len() == m[ch as int].len());
            }
            let x = data[ch][t];
            proof {
                assert(m[ch as int][t as int] == x);
                assert(m.take(ch + 1).drop_last() =~= m.take(ch as int));
                assert(m.take(ch + 1).last() == m[ch as int]);
            }
            s = s + x as i128;
        }
        proof {
            assert(m.take(m.len() as int) =~= m);
        }
        sums.push(s);
    }

    let mut out: Vec<Vec<i16>> = Vec::new();
    for ch in 0..num_channels
        invariant
            num_channels == data@.len(),
            m == data.deep_view(),
            num_time_points as int == m[0].len(),
            m.len() > 0,
            forall|c: int| 0 <= c < m.len() ==> (#[trigger] m[c]).len() == num_time_points as int,
            sums@.len() == num_time_points,
            forall|j: int| 0 <= j < num_time_points as int ==> (#[trigger] sums@[j]) as int
                == col_sum(m, j),
            forall|j: int| 0 <= j < num_time_points as int ==> -32768 * m.len()
                <= (#[trigger] sums@[j]) as int <= 32768 * m.len(),
            out@.len() == ch,
            forall|c: int| 0 <= c < ch as int ==> (#[trigger] out@[c])@.len()
                == num_time_points as int,
            forall|c: int, j: int| 0 <= c < ch as int && 0 <= j < num_time_points as int
                ==> (#[trigger] out@[c]@[j]) as int == referenced_sample(m, c, j),
    {
        let mut row: Vec<i16> = Vec::new();
        for t in 0..num_time_points
            invariant
                num_channels == data@.len(),
                m == data.deep_view(),
                ch < num_channels,
                m.len() > 0,
                forall|c: int| 0 <= c < m.len() ==> (#[trigger] m[c]).len()
                    == num_time_points as int,
                sums@.len() == num_time_points,
                forall|j: int| 0 <= j < num_time_points as int ==> (#[trigger] sums@[j]) as int
                    == col_sum(m, j),
                forall|j: int| 0 <= j < num_time_points as int ==> -32768 * m.len()
                    <= (#[trigger] sums@[j]) as int <= 32768 * m.len(),
                row@.len() == t,
                forall|j: int| 0 <= j < t as int ==> (#[trigger] row@[j]) as int
                    == referenced_sample(m, ch as int, j),
        {
            proof {
                assert(m[ch as int] == data@[ch as int].deep_view());
                assert(data@[ch as int]@.len() == m[ch as int].len());
            }
            let x = data[ch][t];
            proof {
                assert(m[ch as int][t as int] == x);
                assert((num_channels as i128) * (x as i128) == (m.len() as int) * (x as int))
                    by (nonlinear_arith)
                    requires num_channels as int == m.len();
                assert(-32768 * m.len() <= (m.len() as int) * (x as int) <= 32768 * m.len())
                    by (nonlinear_arith)
                    requires -32768 <= x as int <= 32767 && m.len() > 0;
            }
            let p: i128 = (num_channels as i128) * (x as i128) - sums[t];
            let v = rha_i128(p, num_channels as u128);
            row.push(clamp_to_i16(v));
        }
        out.push(row);
    }
    Ok(out)
}

} // verus!
