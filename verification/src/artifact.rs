//! Stimulation-artifact removal.
//!
//! For each marker the affected window spans
//! `[marker - tmin*rate, marker + tmax*rate]`, clamped to the recording;
//! `tmin` and `tmax` are given in microseconds and marker positions in
//! millionths of a sample, so the window bounds are exact rationals whose
//! enclosed sample indices are computed with ceiling and floor division.
//! Markers whose clamped window is empty are skipped without failing.
//!
//! Zeroing mode writes zero over every window sample on every channel.
//! Interpolation mode replaces each window with a straight ramp anchored at
//! the window's first sample on the left and the sample just past the window
//! on the right; where the window reaches the recording's edge the remaining
//! anchor's value is held constant. Markers are applied one after the other,
//! so a later window reads what an earlier one wrote.

use vstd::prelude::*;
use crate::EegError;
use crate::EEGInfo;
use crate::Markers;
use crate::arith::{clamp_i16, clamp_to_i16, floor_div, floor_div_i128, rha_i128, round_half_away};

verus! {

/// Ceiling of `p / q` for `q > 0`.
pub open spec fn ceil_div(p: int, q: int) -> int
    recommends
        q > 0,
{
    floor_div(p + q - 1, q)
}

/// First sample index inside the window of `marker` (before clamping).
pub open spec fn window_start(marker: i64, tmin_us: int, sr: int) -> int {
    ceil_div(marker - tmin_us * sr, 1_000_000)
}

/// Last sample index inside the window of `marker` (before clamping).
pub open spec fn window_end(marker: i64, tmax_us: int, sr: int) -> int {
    floor_div(marker + tmax_us * sr, 1_000_000)
}

/// Whether sample index `i` falls in the window of `marker`.
pub open spec fn in_window(i: int, marker: i64, tmin_us: int, tmax_us: int, sr: int) -> bool {
    window_start(marker, tmin_us, sr) <= i <= window_end(marker, tmax_us, sr)
}

/// Whether sample index `i` falls in the window of any marker of `mk`.
pub open spec fn in_any_window(mk: Seq<i64>, i: int, tmin_us: int, tmax_us: int, sr: int) -> bool {
    exists|k: int| 0 <= k < mk.len() && in_window(i, mk[k], tmin_us, tmax_us, sr)
}

/// The zeroing mode's output sample: zero inside any marker's window, the
/// input sample elsewhere.
pub open spec fn zeroed_sample(
    xs: Seq<i16>,
    mk: Seq<i64>,
    i: int,
    tmin_us: int,
    tmax_us: int,
    sr: int,
) -> int {
    if in_any_window(mk, i, tmin_us, tmax_us, sr) {
        0
    } else {
        xs[i] as int
    }
}

/// One channel row with the window of a single marker replaced by the
/// straight ramp between its anchors; rows untouched by the clamped window
/// come back unchanged.
pub open spec fn interp_row_once(
    xs: Seq<i16>,
    marker: i64,
    tmin_us: int,
    tmax_us: int,
    sr: int,
) -> Seq<i16> {
    let ws = window_start(marker, tmin_us, sr);
    let we = window_end(marker, tmax_us, sr);
    let s = if ws < 0 { 0 } else { ws };
    let e = if we > xs.len() - 1 { xs.len() - 1 } else { we };
    if s > e {
        xs
    } else {
        let a = xs[s];
        let b = if e + 1 < xs.len() { xs[e + 1] } else { a };
        Seq::new(
            xs.len(),
            |i: int|
                if s <= i <= e {
                    clamp_i16(round_half_away(a * (e + 1 - i) + b * (i - s), e + 1 - s)) as i16
                } else {
                    xs[i]
                },
        )
    }
}

/// One channel row with every marker's window interpolated, markers applied
/// in list order.
pub open spec fn interp_row_all(
    xs: Seq<i16>,
    mk: Seq<i64>,
    tmin_us: int,
    tmax_us: int,
    sr: int,
) -> Seq<i16>
    decreases mk.len(),
{
    if mk.len() == 0 {
        xs
    } else {
        interp_row_once(
            interp_row_all(xs, mk.drop_last(), tmin_us, tmax_us, sr),
            mk.last(),
            tmin_us,
            tmax_us,
            sr,
        )
    }
}

fn window_bounds(marker: i64, tmin_us: u64, tmax_us: u64, sr: i32) -> (r: (i128, i128))
    ensures
        r.0 as int == window_start(marker, tmin_us as int, sr as int),
        r.1 as int == window_end(marker, tmax_us as int, sr as int),
{
    proof {
        let t0 = tmin_us as int;
        let t1 = tmax_us as int;
        let s = sr as int;
        assert(-0x1_0000_0000_0000_0000_0000_0000 < t0 * s && t0 * s
            < 0x1_0000_0000_0000_0000_0000_0000 && -0x1_0000_0000_0000_0000_0000_0000 < t1 * s
            && t1 * s < 0x1_0000_0000_0000_0000_0000_0000) by (nonlinear_arith)
            requires
                0 <= t0,
                t0 < 0x1_0000_0000_0000_0000,
                0 <= t1,
                t1 < 0x1_0000_0000_0000_0000,
                -0x8000_0000 <= s,
                s < 0x8000_0000,
        ;
    }
    let lo: i128 = marker as i128 - (tmin_us as i128) * (sr as i128);
    let hi: i128 = marker as i128 + (tmax_us as i128) * (sr as i128);
    let ws = floor_div_i128(lo + 999_999, 1_000_000);
    let we = floor_div_i128(hi, 1_000_000);
    (ws, we)
}

fn sample_in_any_window(i: usize, mk: &Vec<i64>, tmin_us: u64, tmax_us: u64, sr: i32) -> (r: bool)
    ensures
        r == in_any_window(mk@, i as int, tmin_us as int, tmax_us as int, sr as int),
{
    for k in 0..mk.len()
        invariant
            forall|j: int| 0 <= j < k as int ==> !in_window(
                i as int,
                #[trigger] mk@[j],
                tmin_us as int,
                tmax_us as int,
                sr as int,
            ),
    {
        let (ws, we) = window_bounds(mk[k], tmin_us, tmax_us, sr);
        if ws <= i as i128 && i as i128 <= we {
            return true;
        }
    }
    false
}

/// Zeroing mode: every sample inside some marker's window, on every channel,
/// becomes zero; every other sample is returned unchanged. Fails only on a
/// structurally empty matrix.
pub fn remove_tms_pulse(
    tmin_us: u64,
    tmax_us: u64,
    markers: &Markers,
    info: &EEGInfo,
    data: &Vec<Vec<i16>>,
) -> (r: Result<Vec<Vec<i16>>, EegError>)
    ensures
        r is Ok <==> data@.len() > 0,
        r is Err ==> r->Err_0 == EegError::FormatError,
        r is Ok ==> ({
            let out = r->Ok_0;
            let m = data.deep_view();
            &&& out@.len() == m.len()
            &&& forall|c: int| 0 <= c < m.len() ==> (#[trigger] out@[c])@.len() == m[c].len()
            &&& forall|c: int, i: int|
                0 <= c < m.len() && 0 <= i < m[c].len() ==> (#[trigger] out@[c]@[i]) as int
                    == zeroed_sample(m[c], markers.markers@, i, tmin_us as int, tmax_us as int,
                    info.sfreq as int)
        }),
{
    if data.len() == 0 {
        return Err(EegError::FormatError);
    }
    let ghost m = data.deep_view();
    let mut out: Vec<Vec<i16>> = Vec::new();
    for c in 0..data.len()
        invariant
            m == data.deep_view(),
            out@.len() == c,
            forall|j: int| 0 <= j < c as int ==> (#[trigger] out@[j])@.len() == m[j].len(),
            forall|j: int, i: int|
                0 <= j < c as int && 0 <= i < m[j].len() ==> (#[trigger] out@[j]@[i]) as int
                    == zeroed_sample(m[j], markers.markers@, i, tmin_us as int, tmax_us as int,
                    info.sfreq as int),
    {
        proof {
            assert(m[c as int] == data@[c as int].deep_view());
            assert(data@[c as int]@ =~= m[c as int]);
        }
        let xs = &data[c];
        let mut row: Vec<i16> = Vec::new();
        for i in 0..xs.len()
            invariant
                    xs@ == m[c as int],
                0 <= c as int && (c as int) < m.len(),
                row@.len() == i,
                forall|j: int|
                    0 <= j < i as int ==> (#[trigger] row@[j]) as int == zeroed_sample(
                        m[c as int],
                        markers.markers@,
                        j,
                        tmin_us as int,
                        tmax_us as int,
                        info.sfreq as int,
                    ),
        {
            if sample_in_any_window(i, &markers.markers, tmin_us, tmax_us, info.sfreq) {
                row.push(0);
            } else {
                row.push(xs[i]);
            }
        }
        out.push(row);
    }
    Ok(out)
}

/// Interpolation mode: each marker's window is replaced, channel by channel,
/// with the straight ramp between the window's first sample and the sample
/// just past the window, markers applied in list order. Fails only on a
/// structurally empty matrix.
pub fn rm_interp_tms_pulse(
    tmin_us: u64,
    tmax_us: u64,
    markers: &Markers,
    info: &EEGInfo,
    data: &Vec<Vec<i16>>,
) -> (r: Result<Vec<Vec<i16>>, EegError>)
    ensures
        r is Ok <==> data@.len() > 0,
        r is Err ==> r->Err_0 == EegError::FormatError,
        r is Ok ==> ({
            let out = r->Ok_0;
            let m = data.deep_view();
            &&& out@.len() == m.len()
            &&& forall|c: int| 0 <= c < m.len() ==> (#[trigger] out@[c])@ == interp_row_all(
                m[c],
                markers.markers@,
                tmin_us as int,
                tmax_us as int,
                info.sfreq as int,
            )
        }),
{
    if data.len() == 0 {
        return Err(EegError::FormatError);
    }
    let ghost m = data.deep_view();
    let ghost t0 = tmin_us as int;
    let ghost t1 = tmax_us as int;
    let ghost sri = info.sfreq as int;
    let mk: &Vec<i64> = &markers.markers;
    let mut out: Vec<Vec<i16>> = Vec::new();
    for c in 0..data.len()
        invariant
            m == data.deep_view(),
            t0 == tmin_us as int,
            t1 == tmax_us as int,
            sri == info.sfreq as int,
            mk@ == markers.markers@,
            out@.len() == c,
            forall|j: int| 0 <= j < c as int ==> (#[trigger] out@[j])@ == interp_row_all(
                m[j],
                mk@,
                t0,
                t1,
                sri,
            ),
    {
        proof {
            assert(m[c as int] == data@[c as int].deep_view());
            assert(data@[c as int]@ =~= m[c as int]);
        }
        let xs = &data[c];
        let mut row: Vec<i16> = Vec::new();
        for i in 0..xs.len()
            invariant
                xs@ == m[c as int],
                row@.len() == i,
                forall|j: int| 0 <= j < i as int ==> (#[trigger] row@[j]) == m[c as int][j],
        {
            row.push(xs[i]);
        }
        proof {
            assert(row@ =~= m[c as int]);
            assert(interp_row_all(m[c as int], mk@.take(0), t0, t1, sri) =~= m[c as int]);
        }
        for k in 0..mk.len()
            invariant
                m == data.deep_view(),
                    t0 == tmin_us as int,
                t1 == tmax_us as int,
                sri == info.sfreq as int,
                mk@ == markers.markers@,
                0 <= c as int && (c as int) < m.len(),
                row@.len() == m[c as int].len(),
                row@ == interp_row_all(m[c as int], mk@.take(k as int), t0, t1, sri),
        {
            let ghost cur = row@;
            let (ws, we) = window_bounds(mk[k], tmin_us, tmax_us, info.sfreq);
            let len = row.len();
            let mut applied = false;
            if len > 0 && we >= 0 && ws < len as i128 {
                let s: usize = if ws < 0 {
                    0
                } else {
                    ws as usize
                };
                let e: usize = if we >= len as i128 {
                    len - 1
                } else {
                    we as usize
                };
                if s <= e {
                    applied = true;
                    let a = row[s];
                    let b = if e + 1 < len {
                        row[e + 1]
                    } else {
                        a
                    };
                    let q: u128 = (e + 1 - s) as u128;
                    let ghost target = interp_row_once(cur, mk@[k as int], t0, t1, sri);
                    proof {
                        assert(target.len() == cur.len());
                    }
                    let mut i: usize = s;
                    while i <= e
                        invariant
                            s <= i <= e + 1,
                            e < len,
                            len == cur.len(),
                            row@.len() == cur.len(),
                            q == (e + 1 - s) as u128,
                            a as int == cur[s as int],
                            b as int == (if e + 1 < cur.len() {
                                cur[e as int + 1] as int
                            } else {
                                a as int
                            }),
                            target == interp_row_once(cur, mk@[k as int], t0, t1, sri),
                            target.len() == cur.len(),
                            s as int == ({
                                let ws0 = window_start(mk@[k as int], t0, sri);
                                if ws0 < 0 { 0int } else { ws0 }
                            }),
                            e as int == ({
                                let we0 = window_end(mk@[k as int], t1, sri);
                                if we0 > cur.len() - 1 { cur.len() - 1 } else { we0 }
                            }),
                            forall|j: int| s as int <= j < i as int ==> (#[trigger] row@[j])
                                == target[j],
                            forall|j: int| 0 <= j < row@.len() && !(s as int <= j < i as int)
                                ==> (#[trigger] row@[j]) == cur[j],
                        decreases e + 1 - i,
                    {
                        proof {
                            let ai = a as int;
                            let bi = b as int;
                            let w1 = e + 1 - i as int;
                            let w2 = i as int - s;
                            assert(-0x1_0000_0000_0000_0000_0000 < ai * w1 && ai * w1
                                < 0x1_0000_0000_0000_0000_0000 && -0x1_0000_0000_0000_0000_0000
                                < bi * w2 && bi * w2 < 0x1_0000_0000_0000_0000_0000)
                                by (nonlinear_arith)
                                requires
                                    -0x8000 <= ai <= 0x8000,
                                    -0x8000 <= bi <= 0x8000,
                                    0 <= w1,
                                    w1 < 0x1_0000_0000_0000_0000,
                                    0 <= w2,
                                    w2 < 0x1_0000_0000_0000_0000,
                        ;
                        }
                        let p: i128 = (a as i128) * ((e + 1 - i) as i128) + (b as i128) * ((i
                            - s) as i128);
                        let v = clamp_to_i16(rha_i128(p, q));
                        row.set(i, v);
                        i = i + 1;
                    }
                    proof {
                        assert(row@ =~= target);
                    }
                }
            }
            proof {
                if !applied {
                    assert(row@ =~= interp_row_once(cur, mk@[k as int], t0, t1, sri));
                }
                assert(mk@.take(k + 1).drop_last() =~= mk@.take(k as int));
                assert(mk@.take(k + 1).last() == mk@[k as int]);
            }
        }
        proof {
            assert(mk@.take(mk@.len() as int) =~= mk@);
        }
        out.push(row);
    }
    Ok(out)
}

} // verus!
