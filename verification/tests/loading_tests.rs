use eeg_core::EegError;
use eeg_core::loading::{
    ChannelDescriptor, RecordingMetadata, analyze_header, install_samples, preamble_fields,
};

fn channel(label: &str, spr: u64) -> ChannelDescriptor {
    ChannelDescriptor { label: label.to_string(), samples_per_record: spr }
}

fn meta(blocks: u64, block_ms: u64, channels: Vec<ChannelDescriptor>) -> RecordingMetadata {
    RecordingMetadata { number_of_blocks: blocks, block_duration_ms: block_ms, channels }
}

#[test]
fn zero_channels_fails_format_error() {
    let m = meta(10, 1000, Vec::new());
    assert_eq!(analyze_header(&m).unwrap_err(), EegError::FormatError);
}

#[test]
fn single_channel_fails() {
    let m = meta(10, 1000, vec![channel("only", 100)]);
    assert_eq!(analyze_header(&m).unwrap_err(), EegError::FormatError);
}

#[test]
fn zero_block_duration_fails() {
    let m = meta(10, 0, vec![channel("C3", 100), channel("EDF Annotations", 10)]);
    assert_eq!(analyze_header(&m).unwrap_err(), EegError::FormatError);
}

#[test]
fn uniform_rates_are_adopted() {
    let m = meta(
        10,
        1000,
        vec![channel("C3", 1000), channel("C4", 1000), channel("EDF Annotations", 10)],
    );
    let h = analyze_header(&m).unwrap();
    // the reserved annotation channel is excluded: the name sequence stays
    // parallel to the signal-matrix rows
    assert_eq!(h.info.num_ch, 2);
    assert_eq!(h.info.ch_names, vec!["C3", "C4"]);
    assert_eq!(h.info.sfreq, 1000);
    assert_eq!(h.sampling_frequency, Some(1000));
    assert_eq!(h.total_duration_ms, 10_000);
}

#[test]
fn differing_rates_keep_first_channel_rate() {
    let m = meta(
        4,
        500,
        vec![channel("C3", 500), channel("C4", 250), channel("EDF Annotations", 10)],
    );
    let h = analyze_header(&m).unwrap();
    // first signal channel: 500 * 1000 / 500 = 1000 Hz
    assert_eq!(h.info.sfreq, 1000);
    // the recording-level rate stays unset when signal channels disagree
    assert_eq!(h.sampling_frequency, None);
    assert_eq!(h.total_duration_ms, 2_000);
}

#[test]
fn reserved_channel_rate_is_ignored_for_uniformity() {
    // only the channels before the reserved last one must agree
    let m = meta(1, 1000, vec![channel("C3", 200), channel("C4", 200), channel("Weird", 7)]);
    let h = analyze_header(&m).unwrap();
    assert_eq!(h.sampling_frequency, Some(200));
}

fn tal_words() -> Vec<i16> {
    // "+0.0\x14\x14\x00" then "+1.0\x150.1\x14T\x14\x00", packed
    let mut stream: Vec<u8> = Vec::new();
    stream.extend_from_slice(b"+0.0");
    stream.extend_from_slice(&[0x14, 0x14, 0x00]);
    stream.extend_from_slice(b"+1.0");
    stream.push(0x15);
    stream.extend_from_slice(b"0.1");
    stream.push(0x14);
    stream.push(b'T');
    stream.extend_from_slice(&[0x14, 0x00]);
    if stream.len() % 2 != 0 {
        stream.push(0);
    }
    let mut words: Vec<i16> = Vec::new();
    let mut i: usize = 0;
    while i < stream.len() {
        let w: u16 = (stream[i] as u16) | ((stream[i + 1] as u16) << 8);
        words.push(w as i16);
        i += 2;
    }
    words
}

#[test]
fn install_strips_reserved_channel_and_decodes_markers() {
    let m = meta(
        1,
        1000,
        vec![channel("C3", 4), channel("C4", 4), channel("chan EDF Annotations", 10)],
    );
    let annotation_row = tal_words();
    let data: Vec<Vec<i16>> = vec![vec![1, 2, 3, 4], vec![5, 6, 7, 8], annotation_row];
    let ld = install_samples(&m, Some(1000), &data).unwrap();
    assert_eq!(ld.signals, vec![vec![1, 2, 3, 4], vec![5, 6, 7, 8]]);
    let avg = ld.avg_ref.expect("referenced view is derived eagerly");
    assert_eq!(avg.len(), 2);
    assert_eq!(avg[0].len(), 4);
    // one marker at +1.0 s, 1000 Hz: sample 1000
    assert_eq!(ld.markers.n_markers, 1);
    assert_eq!(ld.markers.markers, vec![1_000_000_000]);
}

#[test]
fn install_without_annotation_label_yields_no_markers() {
    let m = meta(1, 1000, vec![channel("C3", 4), channel("C4", 4), channel("Status", 10)]);
    let data: Vec<Vec<i16>> = vec![vec![1, 2], vec![3, 4], tal_words()];
    let ld = install_samples(&m, Some(1000), &data).unwrap();
    assert_eq!(ld.markers.n_markers, 0);
    assert!(ld.markers.markers.is_empty());
}

#[test]
fn install_fails_on_single_row() {
    let m = meta(1, 1000, vec![channel("C3", 4), channel("EDF Annotations", 10)]);
    let data: Vec<Vec<i16>> = vec![vec![1, 2, 3]];
    assert_eq!(install_samples(&m, Some(1000), &data).unwrap_err(), EegError::FormatError);
    let empty: Vec<Vec<i16>> = Vec::new();
    assert_eq!(install_samples(&m, Some(1000), &empty).unwrap_err(), EegError::FormatError);
}

#[test]
fn install_fails_on_uneven_signal_rows() {
    let m = meta(1, 1000, vec![channel("C3", 4), channel("C4", 4), channel("EDF Annotations", 10)]);
    let data: Vec<Vec<i16>> = vec![vec![1, 2, 3], vec![4, 5], vec![0, 0]];
    assert_eq!(install_samples(&m, Some(1000), &data).unwrap_err(), EegError::FormatError);
}

#[test]
fn install_uses_rate_one_when_rates_disagree() {
    let m = meta(1, 1000, vec![channel("C3", 4), channel("C4", 4), channel("EDF Annotations", 10)]);
    let data: Vec<Vec<i16>> = vec![vec![1, 2], vec![3, 4], tal_words()];
    let ld = install_samples(&m, None, &data).unwrap();
    // +1.0 s at the fallback rate of 1 Hz: sample 1
    assert_eq!(ld.markers.markers, vec![1_000_000]);
}

#[test]
fn preamble_fields_are_extracted_lowercased() {
    let mut header: Vec<u8> = vec![b'X'; 256];
    header[236..243].copy_from_slice(b"1234567");
    header[244..251].copy_from_slice(b"ABCDEFG");
    header[252..256].copy_from_slice(b"89AB");
    let p = preamble_fields(&header).unwrap();
    assert_eq!(p.number_of_data_records, b"1234567".to_vec());
    assert_eq!(p.duration_of_recording, b"abcdefg".to_vec());
    assert_eq!(p.number_of_channels, b"89ab".to_vec());
    assert_eq!(p.header_text.len(), 256);
    assert_eq!(p.header_text[0], b'x');
}

#[test]
fn preamble_requires_exactly_256_bytes() {
    let short: Vec<u8> = vec![0; 255];
    assert_eq!(preamble_fields(&short).unwrap_err(), EegError::FormatError);
}

#[test]
fn error_text_is_nonempty() {
    assert!(!EegError::FilterError.text().is_empty());
    assert!(!EegError::FormatError.text().is_empty());
    assert!(!EegError::IOError.text().is_empty());
    assert!(!EegError::ArithmeticError.text().is_empty());
    assert!(!EegError::UnexpectedDisconnect.text().is_empty());
}
