use eeg_core::EEGInfo;
use eeg_core::EegError;
use eeg_core::signal::{filter_pipeline, hp_filter, lp_filter, notch_filter_50hz};

fn info_with_rate(sfreq: i32) -> EEGInfo {
    let mut info = EEGInfo::default();
    info.sfreq = sfreq;
    info
}

#[test]
fn valid_cutoff_preserves_shape() {
    let info = info_with_rate(1000);
    let data: Vec<Vec<i16>> = vec![vec![1, 2, 3, 4], vec![5, 6, 7, 8]];
    let out = hp_filter(1_000, &info, &data).unwrap();
    assert_eq!(out.len(), 2);
    assert!(out.iter().all(|row| row.len() == 4));
    let out = lp_filter(45_000, &info, &data).unwrap();
    assert_eq!(out.len(), 2);
    assert!(out.iter().all(|row| row.len() == 4));
}

#[test]
fn cutoff_at_nyquist_fails() {
    let info = info_with_rate(1000);
    let data: Vec<Vec<i16>> = vec![vec![0, 0]];
    // Nyquist is 500 Hz = 500_000 mHz
    assert_eq!(hp_filter(500_000, &info, &data).unwrap_err(), EegError::FilterError);
    assert_eq!(lp_filter(500_000, &info, &data).unwrap_err(), EegError::FilterError);
    // just below Nyquist succeeds
    assert!(hp_filter(499_999, &info, &data).is_ok());
    assert!(lp_filter(499_999, &info, &data).is_ok());
}

#[test]
fn zero_cutoff_fails() {
    let info = info_with_rate(1000);
    let data: Vec<Vec<i16>> = vec![vec![0]];
    assert_eq!(hp_filter(0, &info, &data).unwrap_err(), EegError::FilterError);
    assert_eq!(lp_filter(0, &info, &data).unwrap_err(), EegError::FilterError);
}

#[test]
fn nonpositive_rate_fails() {
    let data: Vec<Vec<i16>> = vec![vec![0]];
    assert_eq!(lp_filter(1_000, &info_with_rate(0), &data).unwrap_err(), EegError::FilterError);
    assert_eq!(hp_filter(1_000, &info_with_rate(-5), &data).unwrap_err(), EegError::FilterError);
}

#[test]
fn lowpass_keeps_constant_signal() {
    let info = info_with_rate(1000);
    let data: Vec<Vec<i16>> = vec![vec![100, 100, 100, 100]];
    let out = lp_filter(45_000, &info, &data).unwrap();
    assert_eq!(out, vec![vec![100, 100, 100, 100]]);
}

#[test]
fn highpass_removes_constant_offset() {
    let info = info_with_rate(1000);
    let data: Vec<Vec<i16>> = vec![vec![100, 100, 100]];
    let out = hp_filter(1_000, &info, &data).unwrap();
    assert_eq!(out, vec![vec![0, 0, 0]]);
}

#[test]
fn lowpass_exact_step_value() {
    // sr = 1 Hz, cutoff 100 mHz: alpha = 35500 / 92000; a step from 0 to 92
    // lands at state 92*65536*35500/92000 = 2326528, i.e. 35.5, rounded to 36
    let info = info_with_rate(1);
    let data: Vec<Vec<i16>> = vec![vec![0, 92]];
    let out = lp_filter(100, &info, &data).unwrap();
    assert_eq!(out, vec![vec![0, 36]]);
}

#[test]
fn notch_requires_rate_above_100() {
    let data: Vec<Vec<i16>> = vec![vec![0]];
    assert_eq!(notch_filter_50hz(&info_with_rate(100), &data).unwrap_err(), EegError::FilterError);
    assert!(notch_filter_50hz(&info_with_rate(101), &data).is_ok());
}

#[test]
fn notch_averages_with_half_period_delay() {
    // sr 1000: delay is 10 samples
    let info = info_with_rate(1000);
    let mut row: Vec<i16> = vec![0; 12];
    row[0] = 10;
    row[10] = 30;
    let out = notch_filter_50hz(&info, &vec![row]).unwrap();
    assert_eq!(out[0][0], 10); // before the delay the signal passes through
    assert_eq!(out[0][10], 20); // (30 + 10) / 2
    assert_eq!(out[0][11], 0);
}

#[test]
fn notch_delay_of_one_rounds_half_up() {
    // sr 101: delay is round(101/100) = 1
    let info = info_with_rate(101);
    let data: Vec<Vec<i16>> = vec![vec![1, 2]];
    let out = notch_filter_50hz(&info, &data).unwrap();
    assert_eq!(out, vec![vec![1, 2]]); // (2 + 1) / 2 = 1.5 rounds away to 2
}

#[test]
fn pipeline_is_highpass_then_lowpass_then_notch() {
    let info = info_with_rate(1000);
    let data: Vec<Vec<i16>> = vec![vec![10, -20, 30, -40, 50, 0, 0, 0, 0, 0, 0, 5]];
    let staged = notch_filter_50hz(
        &info,
        &lp_filter(45_000, &info, &hp_filter(1_000, &info, &data).unwrap()).unwrap(),
    )
    .unwrap();
    let piped = filter_pipeline(1_000, 45_000, true, &info, &data).unwrap();
    assert_eq!(staged, piped);
}

#[test]
fn pipeline_without_notch() {
    let info = info_with_rate(250);
    let data: Vec<Vec<i16>> = vec![vec![7, 8, 9], vec![-7, -8, -9]];
    let staged = lp_filter(40_000, &info, &hp_filter(500, &info, &data).unwrap()).unwrap();
    let piped = filter_pipeline(500, 40_000, false, &info, &data).unwrap();
    assert_eq!(staged, piped);
}

#[test]
fn pipeline_propagates_cutoff_failure() {
    let info = info_with_rate(1000);
    let data: Vec<Vec<i16>> = vec![vec![0]];
    assert_eq!(
        filter_pipeline(500_000, 45_000, false, &info, &data).unwrap_err(),
        EegError::FilterError
    );
    assert_eq!(
        filter_pipeline(1_000, 500_000, false, &info, &data).unwrap_err(),
        EegError::FilterError
    );
}
