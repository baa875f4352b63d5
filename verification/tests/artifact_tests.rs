use eeg_core::EEGInfo;
use eeg_core::EegError;
use eeg_core::Markers;
use eeg_core::artifact::{remove_tms_pulse, rm_interp_tms_pulse};

fn info_with_rate(sfreq: i32) -> EEGInfo {
    let mut info = EEGInfo::default();
    info.sfreq = sfreq;
    info
}

fn marker_at_sample(sample: i64) -> Markers {
    Markers { n_markers: 1, markers: vec![sample * 1_000_000] }
}

#[test]
fn zeroing_window_is_998_to_1005_inclusive() {
    // marker at sample 1000, tmin 0.002 s, tmax 0.005 s, rate 1000 Hz
    let info = info_with_rate(1000);
    let markers = marker_at_sample(1000);
    let data: Vec<Vec<i16>> = vec![vec![7; 1100], vec![-3; 1100]];
    let out = remove_tms_pulse(2_000, 5_000, &markers, &info, &data).unwrap();
    for ch in 0..2usize {
        for i in 0..1100usize {
            if (998..=1005).contains(&i) {
                assert_eq!(out[ch][i], 0, "channel {} sample {}", ch, i);
            } else {
                assert_eq!(out[ch][i], data[ch][i], "channel {} sample {}", ch, i);
            }
        }
    }
}

#[test]
fn interpolation_forms_monotone_ramp() {
    // same window; boundary values 10 at sample 998 and 20 at sample 1006
    let info = info_with_rate(1000);
    let markers = marker_at_sample(1000);
    let mut row: Vec<i16> = vec![0; 1100];
    row[998] = 10;
    row[1006] = 20;
    let out = rm_interp_tms_pulse(2_000, 5_000, &markers, &info, &vec![row]).unwrap();
    let expected: [i16; 9] = [10, 11, 13, 14, 15, 16, 18, 19, 20];
    for (k, want) in expected.iter().enumerate() {
        assert_eq!(out[0][998 + k], *want, "sample {}", 998 + k);
    }
    for k in 998..1006usize {
        assert!(out[0][k] <= out[0][k + 1], "ramp not monotone at {}", k);
    }
    assert_eq!(out[0][997], 0);
    assert_eq!(out[0][1007], 0);
}

#[test]
fn nonpositive_rate_still_succeeds() {
    // only a structurally empty matrix fails; with a zero rate the window
    // degenerates to the marker's own sample
    let info = info_with_rate(0);
    let markers = marker_at_sample(5);
    let data: Vec<Vec<i16>> = vec![vec![4; 10]];
    let out = remove_tms_pulse(2_000, 5_000, &markers, &info, &data).unwrap();
    assert_eq!(out[0][4], 4);
    assert_eq!(out[0][5], 0);
    assert_eq!(out[0][6], 4);
    assert!(rm_interp_tms_pulse(2_000, 5_000, &markers, &info, &data).is_ok());
}

#[test]
fn empty_matrix_fails() {
    let info = info_with_rate(1000);
    let markers = marker_at_sample(10);
    let empty: Vec<Vec<i16>> = Vec::new();
    assert_eq!(
        remove_tms_pulse(2_000, 5_000, &markers, &info, &empty).unwrap_err(),
        EegError::FormatError
    );
    assert_eq!(
        rm_interp_tms_pulse(2_000, 5_000, &markers, &info, &empty).unwrap_err(),
        EegError::FormatError
    );
}

#[test]
fn marker_outside_recording_is_skipped() {
    let info = info_with_rate(1000);
    let markers = Markers { n_markers: 2, markers: vec![-50_000_000, 9_000_000_000] };
    let data: Vec<Vec<i16>> = vec![vec![5; 100]];
    let out = remove_tms_pulse(2_000, 5_000, &markers, &info, &data).unwrap();
    assert_eq!(out, data);
    let out = rm_interp_tms_pulse(2_000, 5_000, &markers, &info, &data).unwrap();
    assert_eq!(out, data);
}

#[test]
fn window_clamped_at_recording_edge() {
    // marker at sample 2 with a 2-sample pre-window reaches index 0
    let info = info_with_rate(1000);
    let markers = marker_at_sample(2);
    let data: Vec<Vec<i16>> = vec![vec![9; 20]];
    let out = remove_tms_pulse(2_000, 5_000, &markers, &info, &data).unwrap();
    for i in 0..=7usize {
        assert_eq!(out[0][i], 0);
    }
    assert_eq!(out[0][8], 9);
}

#[test]
fn interpolation_holds_anchor_at_right_edge() {
    // window [8, 15] clamped to a 10-sample row: ramp anchor past the end is
    // unavailable, so the left anchor's value holds
    let info = info_with_rate(1000);
    let markers = marker_at_sample(10);
    let mut row: Vec<i16> = vec![0; 10];
    row[8] = 12;
    let out = rm_interp_tms_pulse(2_000, 5_000, &markers, &info, &vec![row]).unwrap();
    assert_eq!(out[0][8], 12);
    assert_eq!(out[0][9], 12);
    assert_eq!(out[0][7], 0);
}

#[test]
fn all_channels_processed() {
    let info = info_with_rate(1000);
    let markers = marker_at_sample(5);
    let data: Vec<Vec<i16>> = vec![vec![1; 20], vec![2; 20], vec![3; 20]];
    let out = remove_tms_pulse(1_000, 1_000, &markers, &info, &data).unwrap();
    for ch in 0..3usize {
        assert_eq!(out[ch][4], 0);
        assert_eq!(out[ch][5], 0);
        assert_eq!(out[ch][6], 0);
        assert_eq!(out[ch][3], data[ch][3]);
        assert_eq!(out[ch][7], data[ch][7]);
    }
}
