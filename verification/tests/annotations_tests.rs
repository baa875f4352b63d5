use eeg_core::annotations::parse_edf_annotations;

/// Packs an encoded byte stream into the 16-bit little-endian words a
/// reserved channel carries, padding with a trailing NUL when the length is
/// odd.
fn words_of(stream: &[u8]) -> Vec<u16> {
    let mut bytes = stream.to_vec();
    if bytes.len() % 2 != 0 {
        bytes.push(0);
    }
    let mut words: Vec<u16> = Vec::new();
    let mut i: usize = 0;
    while i < bytes.len() {
        words.push((bytes[i] as u16) | ((bytes[i + 1] as u16) << 8));
        i += 2;
    }
    words
}

#[test]
fn origin_record_and_timed_record_yield_one_marker() {
    // origin "+0.0", then an annotation at +2.5 s with a duration field
    let mut stream: Vec<u8> = Vec::new();
    stream.extend_from_slice(b"+0.0");
    stream.extend_from_slice(&[0x14, 0x14, 0x00]);
    stream.extend_from_slice(b"+2.5");
    stream.push(0x15);
    stream.extend_from_slice(b"0.1");
    stream.push(0x14);
    stream.extend_from_slice(b"Event");
    stream.extend_from_slice(&[0x14, 0x00]);
    let m = parse_edf_annotations(&words_of(&stream), 1000);
    assert_eq!(m.n_markers, 1);
    // 2.5 s at 1000 Hz: sample 2500, in millionths of a sample
    assert_eq!(m.markers, vec![2_500_000_000]);
}

#[test]
fn two_field_list_contributes_no_marker() {
    // a list with only onset and text has two non-empty fields; the decoder
    // requires three, so it anchors the origin and yields nothing
    let mut stream: Vec<u8> = Vec::new();
    stream.extend_from_slice(b"+0.0");
    stream.extend_from_slice(&[0x14, 0x14, 0x00]);
    stream.extend_from_slice(b"+2.5");
    stream.push(0x14);
    stream.extend_from_slice(b"Event");
    stream.extend_from_slice(&[0x14, 0x00]);
    let m = parse_edf_annotations(&words_of(&stream), 1000);
    assert_eq!(m.n_markers, 0);
    assert!(m.markers.is_empty());
}

#[test]
fn origin_is_subtracted() {
    let mut stream: Vec<u8> = Vec::new();
    stream.extend_from_slice(b"+1.5");
    stream.extend_from_slice(&[0x14, 0x14, 0x00]);
    stream.extend_from_slice(b"+4.0");
    stream.push(0x15);
    stream.extend_from_slice(b"0.2");
    stream.push(0x14);
    stream.extend_from_slice(b"Stim");
    stream.extend_from_slice(&[0x14, 0x00]);
    let m = parse_edf_annotations(&words_of(&stream), 200);
    // (4.0 - 1.5) s at 200 Hz: sample 500
    assert_eq!(m.markers, vec![500_000_000]);
}

#[test]
fn negative_offset_is_kept() {
    let mut stream: Vec<u8> = Vec::new();
    stream.extend_from_slice(b"+0.0");
    stream.extend_from_slice(&[0x14, 0x14, 0x00]);
    stream.extend_from_slice(b"+-1.5");
    stream.push(0x15);
    stream.extend_from_slice(b"0.1");
    stream.push(0x14);
    stream.push(b'X');
    stream.extend_from_slice(&[0x14, 0x00]);
    let m = parse_edf_annotations(&words_of(&stream), 100);
    assert_eq!(m.markers, vec![-150_000_000]);
}

#[test]
fn malformed_records_are_skipped() {
    let mut stream: Vec<u8> = Vec::new();
    stream.extend_from_slice(b"+0.0");
    stream.extend_from_slice(&[0x14, 0x14, 0x00]);
    // onset lacks the '+' prefix
    stream.extend_from_slice(b"3.0");
    stream.push(0x15);
    stream.extend_from_slice(b"0.1");
    stream.push(0x14);
    stream.push(b'A');
    stream.extend_from_slice(&[0x14, 0x00]);
    // onset is not a number
    stream.extend_from_slice(b"+abc");
    stream.push(0x15);
    stream.extend_from_slice(b"0.1");
    stream.push(0x14);
    stream.push(b'B');
    stream.extend_from_slice(&[0x14, 0x00]);
    // a well-formed record still goes through
    stream.extend_from_slice(b"+7.25");
    stream.push(0x15);
    stream.extend_from_slice(b"0.1");
    stream.push(0x14);
    stream.push(b'C');
    stream.extend_from_slice(&[0x14, 0x00]);
    let m = parse_edf_annotations(&words_of(&stream), 1000);
    assert_eq!(m.markers, vec![7_250_000_000]);
}

#[test]
fn empty_stream_yields_nothing() {
    let m = parse_edf_annotations(&Vec::new(), 1000);
    assert_eq!(m.n_markers, 0);
    let m = parse_edf_annotations(&words_of(&[0, 0, 0, 0]), 1000);
    assert_eq!(m.n_markers, 0);
}

#[test]
fn unparsable_origin_defaults_to_zero() {
    let mut stream: Vec<u8> = Vec::new();
    // the first non-blank record's onset does not parse: origin stays 0
    stream.extend_from_slice(b"junk");
    stream.extend_from_slice(&[0x14, 0x14, 0x00]);
    stream.extend_from_slice(b"+2.0");
    stream.push(0x15);
    stream.extend_from_slice(b"0.1");
    stream.push(0x14);
    stream.push(b'E');
    stream.extend_from_slice(&[0x14, 0x00]);
    let m = parse_edf_annotations(&words_of(&stream), 10);
    assert_eq!(m.markers, vec![20_000_000]);
}

#[test]
fn fractional_digits_beyond_six_are_dropped() {
    let mut stream: Vec<u8> = Vec::new();
    stream.extend_from_slice(b"+0.0");
    stream.extend_from_slice(&[0x14, 0x14, 0x00]);
    stream.extend_from_slice(b"+0.1234567");
    stream.push(0x15);
    stream.extend_from_slice(b"0.1");
    stream.push(0x14);
    stream.push(b'F');
    stream.extend_from_slice(&[0x14, 0x00]);
    let m = parse_edf_annotations(&words_of(&stream), 1);
    // 0.123456 s (seventh digit dropped) at 1 Hz
    assert_eq!(m.markers, vec![123_456]);
}
