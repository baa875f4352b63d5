//! Digital filter pipeline: composable high-pass, low-pass and fixed 50 Hz
//! notch stages for the fixed-point sample matrix.
//!
//! Each stage filters every channel row independently along the time axis,
//! preserves the matrix shape, and fails with `FilterError` exactly when its
//! cutoff lies outside the open interval `(0, Nyquist)`. Cutoffs are given in
//! millihertz so that sub-hertz high-pass corners stay exact integers.
//!
//! The stages are causal single-pole sections evaluated in fixed point:
//! the low-pass is the exponential smoother
//! `s[n] = s[n-1] + alpha * (x[n] - s[n-1])` with
//! `alpha = 2*pi*fc / (2*pi*fc + sr)` carried as the exact rational
//! `355*f_mhz / (355*f_mhz + 56500*sr)` (Milu's approximation of pi), the
//! state held at a scale of `65536` and every rounding step pinned down by
//! `round_half_away`. The high-pass is its complement `x - lowpass(x)`, and
//! the notch averages each sample with the one half a 50 Hz period earlier.
//! The phase response is not part of the observable contract; these sections
//! fix one documented, deterministic choice.

use vstd::prelude::*;
use crate::EEGInfo;
use crate::EegError;
use crate::arith::{clamp_i16, clamp_to_i16, rha_i128, round_half_away};

verus! {

/// A cutoff in millihertz is admissible for sampling rate `sr` (Hz) when it
/// is positive and strictly below the Nyquist frequency `sr / 2`.
pub open spec fn valid_cutoff(f_mhz: int, sr: int) -> bool {
    sr > 0 && 0 < f_mhz && 2 * f_mhz < 1000 * sr
}

/// Numerator of the smoothing coefficient `alpha` for cutoff `f_mhz`.
pub open spec fn coeff_num(f_mhz: int) -> int {
    355 * f_mhz
}

/// Denominator of the smoothing coefficient `alpha` for cutoff `f_mhz` at
/// sampling rate `sr`.
pub open spec fn coeff_den(f_mhz: int, sr: int) -> int {
    355 * f_mhz + 56500 * sr
}

/// Saturation of the scaled filter state to `[-2^31, 2^31]`; the state of an
/// in-range signal never leaves this interval, so the bound only pins the
/// arithmetic down.
pub open spec fn clamp_state(v: int) -> int {
    if v < -0x8000_0000 {
        -0x8000_0000
    } else if v > 0x8000_0000 {
        0x8000_0000
    } else {
        v
    }
}

/// The scaled (by 65536) low-pass state after consuming `xs[0..=n]`.
pub open spec fn lp_state(xs: Seq<i16>, num: int, den: int, n: int) -> int
    recommends
        0 < num < den,
        0 <= n < xs.len(),
    decreases n,
{
    if n <= 0 {
        xs[0] * 65536
    } else {
        let prev = lp_state(xs, num, den, n - 1);
        clamp_state(prev + round_half_away((xs[n] * 65536 - prev) * num, den))
    }
}

/// The low-pass output sample at index `n`: the state scaled back down,
/// rounded, and saturated to the sample range.
pub open spec fn lp_sample(xs: Seq<i16>, num: int, den: int, n: int) -> int {
    clamp_i16(round_half_away(lp_state(xs, num, den, n), 65536))
}

/// The high-pass output sample at index `n`: the complement of the low-pass.
pub open spec fn hp_sample(xs: Seq<i16>, num: int, den: int, n: int) -> int {
    clamp_i16(xs[n] - lp_sample(xs, num, den, n))
}

/// The notch output at index `n` for comb delay `m`: the average of the
/// current sample and the one `m` samples earlier (`m` is half a 50 Hz
/// period, so that component cancels).
pub open spec fn notch_sample(xs: Seq<i16>, m: int, n: int) -> int {
    if n < m {
        xs[n] as int
    } else {
        clamp_i16(round_half_away(xs[n] + xs[n - m], 2))
    }
}

/// One whole row through the low-pass.
pub open spec fn lp_row_spec(xs: Seq<i16>, f_mhz: int, sr: int) -> Seq<i16> {
    Seq::new(xs.len(), |i: int| lp_sample(xs, coeff_num(f_mhz), coeff_den(f_mhz, sr), i) as i16)
}

/// One whole row through the high-pass.
pub open spec fn hp_row_spec(xs: Seq<i16>, f_mhz: int, sr: int) -> Seq<i16> {
    Seq::new(xs.len(), |i: int| hp_sample(xs, coeff_num(f_mhz), coeff_den(f_mhz, sr), i) as i16)
}

/// The comb delay of the 50 Hz notch: half a mains period in samples,
/// rounded to nearest.
pub open spec fn notch_delay(sr: int) -> int {
    round_half_away(sr, 100)
}

/// One whole row through the 50 Hz notch.
pub open spec fn notch_row_spec(xs: Seq<i16>, sr: int) -> Seq<i16> {
    Seq::new(xs.len(), |i: int| notch_sample(xs, notch_delay(sr), i) as i16)
}

fn lp_row(xs: &Vec<i16>, num: u128, den: u128) -> (r: Vec<i16>)
    requires
        0 < num,
        num < den,
        den < 0x4_0000_0000_0000,
    ensures
        r@.len() == xs@.len(),
        forall|i: int| 0 <= i < xs@.len() ==> (#[trigger] r@[i]) as int == lp_sample(
            xs@,
            num as int,
            den as int,
            i,
        ),
{
    let mut out: Vec<i16> = Vec::new();
    if xs.len() == 0 {
        return out;
    }
    let mut st: i128 = (xs[0] as i128) * 65536;
    for n in 0..xs.len()
        invariant
            xs@.len() > 0,
            0 < num < den,
            den < 0x4_0000_0000_0000,
            out@.len() == n,
            -0x8000_0000 <= st as int <= 0x8000_0000,
            st as int == lp_state(xs@, num as int, den as int, if n == 0 { 0int } else { n - 1 }),
            forall|i: int| 0 <= i < n as int ==> (#[trigger] out@[i]) as int == lp_sample(
                xs@,
                num as int,
                den as int,
                i,
            ),
    {
        if n > 0 {
            let diff: i128 = (xs[n] as i128) * 65536 - st;
            proof {
                let di = diff as int;
                let ni = num as int;
                assert(-0x1_0000_0000_0000_0000_0000_0000 < di * ni && di * ni
                    < 0x1_0000_0000_0000_0000_0000_0000) by (nonlinear_arith)
                    requires
                        -0x1_0000_0001 < di,
                        di < 0x1_0000_0001,
                        0 < ni,
                        ni < 0x4_0000_0000_0000,
                ;
            }
            let step = rha_i128(diff * (num as i128), den);
            let sum: i128 = st + step;
            st = if sum < -0x8000_0000 {
                -0x8000_0000
            } else if sum > 0x8000_0000 {
                0x8000_0000
            } else {
                sum
            };
        }
        out.push(clamp_to_i16(rha_i128(st, 65536)));
    }
    out
}

/// Validates a cutoff against the recording's sampling rate; `Ok` carries
/// the coefficient pair.
fn checked_coeffs(cutoff_mhz: u64, info: &EEGInfo) -> (r: Result<(u128, u128), EegError>)
    ensures
        r is Ok <==> valid_cutoff(cutoff_mhz as int, info.sfreq as int),
        r is Err ==> r->Err_0 == EegError::FilterError,
        r is Ok ==> ({
            &&& r->Ok_0.0 as int == coeff_num(cutoff_mhz as int)
            &&& r->Ok_0.1 as int == coeff_den(cutoff_mhz as int, info.sfreq as int)
        }),
{
    if info.sfreq <= 0 || cutoff_mhz == 0 {
        return Err(EegError::FilterError);
    }
    let sr: u128 = info.sfreq as u128;
    if 2 * (cutoff_mhz as u128) >= 1000 * sr {
        return Err(EegError::FilterError);
    }
    let num: u128 = 355 * (cutoff_mhz as u128);
    let den: u128 = num + 56500 * sr;
    Ok((num, den))
}

/// Low-pass stage. Succeeds exactly on cutoffs inside `(0, Nyquist)`,
/// preserving the matrix shape; every output sample is pinned down by
/// `lp_sample`.
pub fn lp_filter(cutoff_mhz: u64, info: &EEGInfo, data: &Vec<Vec<i16>>) -> (r: Result<
    Vec<Vec<i16>>,
    EegError,
>)
    ensures
        r is Ok <==> valid_cutoff(cutoff_mhz as int, info.sfreq as int),
        r is Err ==> r->Err_0 == EegError::FilterError,
        r is Ok ==> ({
            let out = r->Ok_0;
            let m = data.deep_view();
            &&& out@.len() == m.len()
            &&& forall|c: int| 0 <= c < m.len() ==> (#[trigger] out@[c])@ == lp_row_spec(
                m[c],
                cutoff_mhz as int,
                info.sfreq as int,
            )
        }),
{
    let (num, den) = match checked_coeffs(cutoff_mhz, info) {
        Ok(p) => p,
        Err(e) => { return Err(e); },
    };
    proof {
        coeff_den_bound(cutoff_mhz as int, info.sfreq as int);
    }
    let ghost m = data.deep_view();
    let mut out: Vec<Vec<i16>> = Vec::new();
    for c in 0..data.len()
        invariant
            m == data.deep_view(),
            0 < num < den,
            den < 0x4_0000_0000_0000,
            num as int == coeff_num(cutoff_mhz as int),
            den as int == coeff_den(cutoff_mhz as int, info.sfreq as int),
            out@.len() == c,
            forall|j: int| 0 <= j < c as int ==> (#[trigger] out@[j])@ == lp_row_spec(
                m[j],
                cutoff_mhz as int,
                info.sfreq as int,
            ),
    {
        proof {
            assert(m[c as int] == data@[c as int].deep_view());
            assert(data@[c as int]@ =~= m[c as int]);
        }
        let row = lp_row(&data[c], num, den);
        proof {
            assert(row@ =~= lp_row_spec(m[c as int], cutoff_mhz as int, info.sfreq as int));
        }
        out.push(row);
    }
    Ok(out)
}

/// High-pass stage: the complement `x - lowpass(x)`, with the same cutoff
/// validation and shape preservation as the low-pass.
pub fn hp_filter(cutoff_mhz: u64, info: &EEGInfo, data: &Vec<Vec<i16>>) -> (r: Result<
    Vec<Vec<i16>>,
    EegError,
>)
    ensures
        r is Ok <==> valid_cutoff(cutoff_mhz as int, info.sfreq as int),
        r is Err ==> r->Err_0 == EegError::FilterError,
        r is Ok ==> ({
            let out = r->Ok_0;
            let m = data.deep_view();
            &&& out@.len() == m.len()
            &&& forall|c: int| 0 <= c < m.len() ==> (#[trigger] out@[c])@ == hp_row_spec(
                m[c],
                cutoff_mhz as int,
                info.sfreq as int,
            )
        }),
{
    let (num, den) = match checked_coeffs(cutoff_mhz, info) {
        Ok(p) => p,
        Err(e) => { return Err(e); },
    };
    proof {
        coeff_den_bound(cutoff_mhz as int, info.sfreq as int);
    }
    let ghost m = data.deep_view();
    let mut out: Vec<Vec<i16>> = Vec::new();
    for c in 0..data.len()
        invariant
            m == data.deep_view(),
            0 < num < den,
            den < 0x4_0000_0000_0000,
            num as int == coeff_num(cutoff_mhz as int),
            den as int == coeff_den(cutoff_mhz as int, info.sfreq as int),
            out@.len() == c,
            forall|j: int| 0 <= j < c as int ==> (#[trigger] out@[j])@ == hp_row_spec(
                m[j],
                cutoff_mhz as int,
                info.sfreq as int,
            ),
    {
        proof {
            assert(m[c as int] == data@[c as int].deep_view());
            assert(data@[c as int]@ =~= m[c as int]);
        }
        let low = lp_row(&data[c], num, den);
        let mut row: Vec<i16> = Vec::new();
        let xs = &data[c];
        for i in 0..xs.len()
            invariant
                m == data.deep_view(),
                0 <= c as int && (c as int) < m.len(),
                xs@ == m[c as int],
                low@.len() == xs@.len(),
                forall|j: int| 0 <= j < xs@.len() ==> (#[trigger] low@[j]) as int == lp_sample(
                    xs@,
                    num as int,
                    den as int,
                    j,
                ),
                row@.len() == i,
                forall|j: int| 0 <= j < i as int ==> (#[trigger] row@[j]) as int == hp_sample(
                    xs@,
                    num as int,
                    den as int,
                    j,
                ),
        {
            let d: i128 = (xs[i] as i128) - (low[i] as i128);
            row.push(clamp_to_i16(d));
        }
        proof {
            assert(row@ =~= hp_row_spec(m[c as int], cutoff_mhz as int, info.sfreq as int));
        }
        out.push(row);
    }
    Ok(out)
}

/// Fixed 50 Hz notch stage. Succeeds exactly when 50 Hz lies below Nyquist
/// (`sr > 100`), preserving the matrix shape.
pub fn notch_filter_50hz(info: &EEGInfo, data: &Vec<Vec<i16>>) -> (r: Result<
    Vec<Vec<i16>>,
    EegError,
>)
    ensures
        r is Ok <==> info.sfreq > 100,
        r is Err ==> r->Err_0 == EegError::FilterError,
        r is Ok ==> ({
            let out = r->Ok_0;
            let m = data.deep_view();
            &&& out@.len() == m.len()
            &&& forall|c: int| 0 <= c < m.len() ==> (#[trigger] out@[c])@ == notch_row_spec(
                m[c],
                info.sfreq as int,
            )
        }),
{
    if info.sfreq <= 100 {
        return Err(EegError::FilterError);
    }
    let md = rha_i128(info.sfreq as i128, 100);
    proof {
        vstd::arithmetic::div_mod::lemma_div_non_zero(
            2 * (info.sfreq as int) + 100,
            200,
        );
    }
    let m_delay: usize = md as usize;
    let ghost m = data.deep_view();
    let mut out: Vec<Vec<i16>> = Vec::new();
    for c in 0..data.len()
        invariant
            m == data.deep_view(),
            info.sfreq > 100,
            m_delay as int == notch_delay(info.sfreq as int),
            m_delay >= 1,
            out@.len() == c,
            forall|j: int| 0 <= j < c as int ==> (#[trigger] out@[j])@ == notch_row_spec(
                m[j],
                info.sfreq as int,
            ),
    {
        proof {
            assert(m[c as int] == data@[c as int].deep_view());
            assert(data@[c as int]@ =~= m[c as int]);
        }
        let xs = &data[c];
        let mut row: Vec<i16> = Vec::new();
        for i in 0..xs.len()
            invariant
                m == data.deep_view(),
                0 <= c as int && (c as int) < m.len(),
                xs@ == m[c as int],
                m_delay as int == notch_delay(info.sfreq as int),
                m_delay >= 1,
                row@.len() == i,
                forall|j: int| 0 <= j < i as int ==> (#[trigger] row@[j]) as int == notch_sample(
                    xs@,
                    m_delay as int,
                    j,
                ),
        {
            if i < m_delay {
                row.push(xs[i]);
            } else {
                let s: i128 = (xs[i] as i128) + (xs[i - m_delay] as i128);
                row.push(clamp_to_i16(rha_i128(s, 2)));
            }
        }
        proof {
            assert(row@ =~= notch_row_spec(m[c as int], info.sfreq as int));
        }
        out.push(row);
    }
    Ok(out)
}

proof fn coeff_den_bound(f_mhz: int, sr: int)
    requires
        valid_cutoff(f_mhz, sr),
        sr <= 0x8000_0000,
    ensures
        0 < coeff_num(f_mhz) < coeff_den(f_mhz, sr),
        coeff_den(f_mhz, sr) < 0x4_0000_0000_0000,
{
}

/// The sanctioned composition of the pipeline: high-pass, then low-pass,
/// then the optional 50 Hz notch — in that order and no other. The stages do
/// not commute; a caller who wants a different order gets no contract from
/// this library.
pub fn filter_pipeline(
    lfreq_mhz: u64,
    hfreq_mhz: u64,
    apply_notch: bool,
    info: &EEGInfo,
    data: &Vec<Vec<i16>>,
) -> (r: Result<Vec<Vec<i16>>, EegError>)
    ensures
        r is Ok <==> valid_cutoff(lfreq_mhz as int, info.sfreq as int) && valid_cutoff(
            hfreq_mhz as int,
            info.sfreq as int,
        ) && (!apply_notch || info.sfreq > 100),
        r is Err ==> r->Err_0 == EegError::FilterError,
        r is Ok ==> ({
            let out = r->Ok_0;
            let m = data.deep_view();
            let sr = info.sfreq as int;
            &&& out@.len() == m.len()
            &&& forall|c: int| 0 <= c < m.len() ==> (#[trigger] out@[c])@ == ({
                let staged = lp_row_spec(
                    hp_row_spec(m[c], lfreq_mhz as int, sr),
                    hfreq_mhz as int,
                    sr,
                );
                if apply_notch {
                    notch_row_spec(staged, sr)
                } else {
                    staged
                }
            })
        }),
{
    let ghost m = data.deep_view();
    let highpassed = match hp_filter(lfreq_mhz, info, data) {
        Ok(v) => v,
        Err(e) => { return Err(e); },
    };
    let lowpassed = match lp_filter(hfreq_mhz, info, &highpassed) {
        Ok(v) => v,
        Err(e) => { return Err(e); },
    };
    proof {
        assert(forall|c: int| 0 <= c < m.len() ==> (#[trigger] highpassed.deep_view()[c])
            == hp_row_spec(m[c], lfreq_mhz as int, info.sfreq as int));
        assert(forall|c: int| 0 <= c < m.len() ==> (#[trigger] lowpassed.deep_view()[c])
            == lp_row_spec(
            hp_row_spec(m[c], lfreq_mhz as int, info.sfreq as int),
            hfreq_mhz as int,
            info.sfreq as int,
        ));
    }
    if apply_notch {
        let notched = match notch_filter_50hz(info, &lowpassed) {
            Ok(v) => v,
            Err(e) => { return Err(e); },
        };
        Ok(notched)
    } else {
        Ok(lowpassed)
    }
}

} // verus!
