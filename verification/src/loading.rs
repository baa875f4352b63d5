//! Decoder orchestration: turns the container header's metadata and the raw
//! channel-by-sample matrix into the recording the caller installs.
//!
//! Low-level record decoding is an external collaborator's job; this module
//! receives plain header values (block count, per-block duration, channel
//! labels and samples-per-record) and validates and derives everything the
//! rest of the library consumes. A load failure returns an error and
//! installs nothing; a referencing failure would only leave the derived
//! view absent.

use vstd::prelude::*;
use crate::EegError;
use crate::EEGInfo;
use crate::Markers;
use crate::annotations::{decoded_markers, parse_edf_annotations};
use crate::reference::{compute_average_reference_i16, referenced_sample};

verus! {

/// One channel as the container header describes it.
#[derive(Debug, Clone)]
pub struct ChannelDescriptor {
    pub label: String,
    pub samples_per_record: u64,
}

/// The container header's recording-level fields.
#[derive(Debug, Clone)]
pub struct RecordingMetadata {
    pub number_of_blocks: u64,
    pub block_duration_ms: u64,
    pub channels: Vec<ChannelDescriptor>,
}

/// What header analysis yields: the channel summary, the recording's
/// sampling rate when it is uniform across signal channels, and the total
/// duration.
#[derive(Debug)]
pub struct HeaderSummary {
    pub info: EEGInfo,
    pub sampling_frequency: Option<u64>,
    pub total_duration_ms: u64,
}

/// What a full load installs: the signal matrix with the reserved channel
/// stripped, the eagerly derived average-referenced view, and the decoded
/// markers.
#[derive(Debug)]
pub struct LoadedData {
    pub signals: Vec<Vec<i16>>,
    pub avg_ref: Option<Vec<Vec<i16>>>,
    pub markers: Markers,
}

/// The fixed preamble's fields, each lowercased as the diagnostics print
/// them.
#[derive(Debug)]
pub struct PreambleFields {
    pub header_text: Vec<u8>,
    pub number_of_data_records: Vec<u8>,
    pub duration_of_recording: Vec<u8>,
    pub number_of_channels: Vec<u8>,
}

/// ASCII lowercasing of one byte.
pub open spec fn to_lower_byte(b: u8) -> u8 {
    if 65 <= b <= 90 {
        (b + 32) as u8
    } else {
        b
    }
}

/// ASCII lowercasing of a byte string.
pub open spec fn lower_bytes(s: Seq<u8>) -> Seq<u8> {
    Seq::new(s.len(), |i: int| to_lower_byte(s[i]))
}

/// A channel's sampling rate in Hz: samples per record over the record
/// duration in milliseconds.
pub open spec fn channel_rate(spr: u64, block_ms: u64) -> int
    recommends
        block_ms > 0,
{
    (spr * 1000) as int / block_ms as int
}

/// Whether every signal channel (all but the reserved last one) declares
/// the same sampling rate.
pub open spec fn rates_uniform(chs: Seq<ChannelDescriptor>, block_ms: u64) -> bool {
    forall|i: int| 0 <= i < chs.len() - 1 ==> channel_rate(
        (#[trigger] chs[i]).samples_per_record,
        block_ms,
    ) == channel_rate(chs[0].samples_per_record, block_ms)
}

/// A header this decoder accepts: at least one signal channel beside the
/// reserved one, a positive block duration, and derived quantities that fit
/// their machine representations.
pub open spec fn header_ok(meta: RecordingMetadata) -> bool {
    &&& meta.channels@.len() >= 2
    &&& meta.channels@.len() <= 0x7fff_ffff
    &&& meta.block_duration_ms > 0
    &&& channel_rate(meta.channels@[0].samples_per_record, meta.block_duration_ms) <= 0x7fff_ffff
    &&& meta.number_of_blocks * meta.block_duration_ms <= u64::MAX
}

/// `n` occurs as a contiguous run of `h` starting at `i`.
pub open spec fn contains_at(h: Seq<char>, n: Seq<char>, i: int) -> bool {
    0 <= i && i + n.len() <= h.len() && h.subrange(i, i + n.len()) == n
}

/// `n` occurs somewhere in `h`.
pub open spec fn contains_seq(h: Seq<char>, n: Seq<char>) -> bool {
    exists|i: int| contains_at(h, n, i)
}

/// The reserved channel carries annotations when its label says so.
pub open spec fn label_marks_annotations(label: Seq<char>) -> bool {
    contains_seq(label, "EDF Annotations"@)
}

/// Whether this recording's last channel is an annotation channel.
pub open spec fn has_annotation_channel(meta: RecordingMetadata) -> bool {
    meta.channels@.len() > 0 && label_marks_annotations(meta.channels@.last().label@)
}

/// The 16-bit word a stored sample contributes to the annotation stream:
/// its two's-complement bits.
pub open spec fn word_of_sample(x: i16) -> u16 {
    x as u16
}

/// The annotation words of the reserved channel's row.
pub open spec fn words_of_row(xs: Seq<i16>) -> Seq<u16> {
    Seq::new(xs.len(), |i: int| word_of_sample(xs[i]))
}

/// All signal rows (all but the reserved last row) have the first row's
/// length.
pub open spec fn signal_rows_uniform(m: Seq<Seq<i16>>) -> bool {
    forall|c: int| 0 <= c < m.len() - 1 ==> (#[trigger] m[c]).len() == m[0].len()
}

/// Substring search.
fn str_contains(h: &str, n: &str) -> (r: bool)
    ensures
        r == contains_seq(h@, n@),
{
    let hl = h.unicode_len();
    let nl = n.unicode_len();
    if nl > hl {
        proof {
            assert forall|i: int| !contains_at(h@, n@, i) by {}
        }
        return false;
    }
    let limit = hl - nl;
    let mut i: usize = 0;
    while i <= limit
        invariant
            hl == h@.len(),
            nl == n@.len(),
            nl <= hl,
            limit == hl - nl,
            0 <= i <= limit,
            forall|j: int| 0 <= j < i ==> !contains_at(h@, n@, j),
        ensures
            forall|j: int| 0 <= j <= limit ==> !contains_at(h@, n@, j),
        decreases limit - i,
    {
        let mut j: usize = 0;
        let mut matches_here = true;
        while j < nl
            invariant
                hl == h@.len(),
                nl == n@.len(),
                nl <= hl,
                0 <= i <= hl - nl,
                limit == hl - nl,
                0 <= j <= nl,
                matches_here ==> forall|q: int| 0 <= q < j ==> h@[i + q] == n@[q],
                !matches_here ==> !contains_at(h@, n@, i as int),
            ensures
                matches_here ==> forall|q: int| 0 <= q < nl ==> h@[i + q] == n@[q],
                !matches_here ==> !contains_at(h@, n@, i as int),
            decreases nl - j,
        {
            let hc = h.get_char(i + j);
            let nc = n.get_char(j);
            if hc != nc {
                proof {
                    if contains_at(h@, n@, i as int) {
                        assert(h@.subrange(i as int, i + n@.len())[j as int] == n@[j as int]);
                    }
                }
                matches_here = false;
                break;
            }
            j = j + 1;
        }
        if matches_here {
            proof {
                assert(h@.subrange(i as int, i + n@.len()) =~= n@);
                assert(contains_at(h@, n@, i as int));
            }
            return true;
        }
        if i == limit {
            break;
        }
        i = i + 1;
    }
    proof {
        assert forall|q: int| !contains_at(h@, n@, q) by {
            if 0 <= q && q + n@.len() <= h@.len() {
                assert(q <= limit as int);
            }
        }
    }
    false
}

fn lower_copy(v: &Vec<u8>, from: usize, to: usize) -> (r: Vec<u8>)
    requires
        from <= to <= v@.len(),
    ensures
        r@ == lower_bytes(v@.subrange(from as int, to as int)),
{
    let mut out: Vec<u8> = Vec::new();
    for i in from..to
        invariant
            from <= to <= v@.len(),
            out@.len() == i - from,
            forall|j: int| 0 <= j < out@.len() ==> out@[j] == to_lower_byte(
                #[trigger] v@.subrange(from as int, to as int)[j],
            ),
    {
        let b = v[i];
        let lb: u8 = if 65 <= b && b <= 90 {
            b + 32
        } else {
            b
        };
        out.push(lb);
    }
    proof {
        assert(out@ =~= lower_bytes(v@.subrange(from as int, to as int)));
    }
    out
}

/// Extracts the fixed preamble's fields from the container's first 256
/// bytes: the record count at bytes 236 to 242, the recording duration at
/// 244 to 250, and the channel count at 252 to 255, all lowercased, with
/// the whole preamble's text alongside.
pub fn preamble_fields(header: &Vec<u8>) -> (r: Result<PreambleFields, EegError>)
    ensures
        r is Ok <==> header@.len() == 256,
        r is Err ==> r->Err_0 == EegError::FormatError,
        r matches Ok(p) ==> ({
            &&& p.header_text@ == lower_bytes(header@)
            &&& p.number_of_data_records@ == lower_bytes(header@.subrange(236, 243))
            &&& p.duration_of_recording@ == lower_bytes(header@.subrange(244, 251))
            &&& p.number_of_channels@ == lower_bytes(header@.subrange(252, 256))
        }),
{
    if header.len() != 256 {
        return Err(EegError::FormatError);
    }
    proof {
        assert(header@.subrange(0, 256) =~= header@);
    }
    Ok(
        PreambleFields {
            header_text: lower_copy(header, 0, 256),
            number_of_data_records: lower_copy(header, 236, 243),
            duration_of_recording: lower_copy(header, 244, 251),
            number_of_channels: lower_copy(header, 252, 256),
        },
    )
}

/// Validates the header and derives the channel summary: a recording must
/// declare at least one signal channel beside the reserved one (a header
/// with zero channels fails, and nothing is installed), its per-channel
/// rate is `samples_per_record * 1000 / block_duration_ms`, the first
/// signal channel's rate is adopted for the whole recording, and the
/// recording-level rate is reported only when all signal channels agree.
/// The summary counts and names the signal channels only: the reserved
/// last channel is excluded, keeping the name sequence parallel to the
/// rows of the signal matrix.
pub fn analyze_header(meta: &RecordingMetadata) -> (r: Result<HeaderSummary, EegError>)
    ensures
        r is Ok <==> header_ok(*meta),
        r is Err ==> r->Err_0 == EegError::FormatError,
        r matches Ok(h) ==> ({
            let chs = meta.channels@;
            let rate0 = channel_rate(chs[0].samples_per_record, meta.block_duration_ms);
            &&& h.info.num_ch as int == chs.len() - 1
            &&& h.info.ch_names@.len() == chs.len() - 1
            &&& forall|i: int| 0 <= i < chs.len() - 1 ==> (#[trigger] h.info.ch_names@[i])@
                == chs[i].label@
            &&& h.info.sfreq as int == rate0
            &&& h.info.ch_namesx is None
            &&& h.info.data_orientation is None
            &&& h.info.binary_format is None
            &&& h.info.sampling_interval_in is None
            &&& h.info.sampling_interval is None
            &&& h.total_duration_ms as int == meta.number_of_blocks * meta.block_duration_ms
            &&& h.sampling_frequency == (if rates_uniform(chs, meta.block_duration_ms) {
                Some(rate0 as u64)
            } else {
                Option::<u64>::None
            })
        }),
{
    let n = meta.channels.len();
    if n < 2 || n > 0x7fff_ffff {
        return Err(EegError::FormatError);
    }
    let bd = meta.block_duration_ms;
    if bd == 0 {
        return Err(EegError::FormatError);
    }
    let rate0_wide: u128 = (meta.channels[0].samples_per_record as u128) * 1000 / (bd as u128);
    if rate0_wide > 0x7fff_ffff {
        return Err(EegError::FormatError);
    }
    let rate0: u64 = rate0_wide as u64;
    proof {
        let nb = meta.number_of_blocks as int;
        let bdi = bd as int;
        assert(0 <= nb * bdi && nb * bdi
            < 0x1_0000_0000_0000_0000_0000_0000_0000_0000) by (nonlinear_arith)
            requires
                0 <= nb,
                nb < 0x1_0000_0000_0000_0000,
                0 <= bdi,
                bdi < 0x1_0000_0000_0000_0000,
        ;
    }
    let total_wide: u128 = (meta.number_of_blocks as u128) * (bd as u128);
    if total_wide > 0xffff_ffff_ffff_ffff {
        return Err(EegError::FormatError);
    }
    let mut uniform = true;
    for c in 0..n - 1
        invariant
            n == meta.channels@.len(),
            2 <= n,
            bd == meta.block_duration_ms,
            bd > 0,
            rate0 as int == channel_rate(meta.channels@[0].samples_per_record, bd),
            uniform == (forall|i: int| 0 <= i < c as int ==> channel_rate(
                (#[trigger] meta.channels@[i]).samples_per_record,
                bd,
            ) == channel_rate(meta.channels@[0].samples_per_record, bd)),
    {
        let rc: u128 = (meta.channels[c].samples_per_record as u128) * 1000 / (bd as u128);
        if rc != rate0 as u128 {
            uniform = false;
        }
    }
    let mut names: Vec<String> = Vec::new();
    for c in 0..n - 1
        invariant
            n == meta.channels@.len(),
            2 <= n,
            names@.len() == c,
            forall|i: int| 0 <= i < c as int ==> (#[trigger] names@[i])@
                == meta.channels@[i].label@,
    {
        names.push(meta.channels[c].label.clone());
    }
    let info = EEGInfo {
        num_ch: (n - 1) as i32,
        ch_namesx: None,
        ch_names: names,
        sfreq: rate0 as i32,
        data_orientation: None,
        binary_format: None,
        sampling_interval_in: None,
        sampling_interval: None,
    };
    Ok(
        HeaderSummary {
            info,
            sampling_frequency: if uniform {
                Some(rate0)
            } else {
                None
            },
            total_duration_ms: total_wide as u64,
        },
    )
}

fn copy_samples(v: &Vec<i16>) -> (r: Vec<i16>)
    ensures
        r@ == v@,
{
    let mut out: Vec<i16> = Vec::new();
    for i in 0..v.len()
        invariant
            out@ =~= v@.take(i as int),
    {
        out.push(v[i]);
        proof {
            assert(out@ =~= v@.take(i + 1));
        }
    }
    proof {
        assert(v@.take(v@.len() as int) =~= v@);
    }
    out
}

/// Installs a loaded data window: validates that the signal rows (all but
/// the reserved last row) have uniform length, strips the reserved row,
/// eagerly derives the average-referenced view, and decodes markers from
/// the reserved row whenever the header labels it an annotation channel
/// (using the uniform sampling rate, or one when rates disagree). On any
/// failure nothing is installed.
pub fn install_samples(
    meta: &RecordingMetadata,
    sampling_frequency: Option<u64>,
    data: &Vec<Vec<i16>>,
) -> (r: Result<LoadedData, EegError>)
    ensures
        r is Ok <==> data@.len() > 1 && signal_rows_uniform(data.deep_view()),
        r is Err ==> r->Err_0 == EegError::FormatError,
        r matches Ok(ld) ==> ({
            let m = data.deep_view();
            let sig = m.take(m.len() - 1);
            let sf_used = (match sampling_frequency {
                Some(s) => s,
                None => 1u64,
            });
            &&& ld.signals@.len() == m.len() - 1
            &&& forall|c: int| 0 <= c < sig.len() ==> (#[trigger] ld.signals@[c])@ == sig[c]
            &&& ld.avg_ref matches Some(ar) && ar@.len() == sig.len() && (forall|c: int|
                0 <= c < sig.len() ==> (#[trigger] ar@[c])@.len() == sig[c].len()) && (forall|
                c: int,
                t: int,
            |
                0 <= c < sig.len() && 0 <= t < sig[c].len() ==> (#[trigger] ar@[c]@[t]) as int
                    == referenced_sample(sig, c, t))
            &&& ld.markers.wf()
            &&& ld.markers.markers@ == (if has_annotation_channel(*meta) {
                decoded_markers(words_of_row(m.last()), sf_used as int)
            } else {
                Seq::<i64>::empty()
            })
        }),
{
    let n = data.len();
    if n <= 1 {
        return Err(EegError::FormatError);
    }
    let ghost m = data.deep_view();
    proof {
        assert(m[0] == data@[0].deep_view());
        assert(data@[0]@ =~= m[0]);
    }
    let first_len = data[0].len();
    for c in 0..n - 1
        invariant
            n == data@.len(),
            n == m.len(),
            n > 1,
            m == data.deep_view(),
            first_len == m[0].len(),
            forall|i: int| 0 <= i < c as int ==> (#[trigger] m[i]).len() == first_len as int,
    {
        proof {
            assert(m[c as int] == data@[c as int].deep_view());
            assert(data@[c as int]@ =~= m[c as int]);
        }
        if data[c].len() != first_len {
            proof {
                assert(!signal_rows_uniform(m));
            }
            return Err(EegError::FormatError);
        }
    }
    let mut signals: Vec<Vec<i16>> = Vec::new();
    for c in 0..n - 1
        invariant
            n == data@.len(),
            n == m.len(),
            n > 1,
            m == data.deep_view(),
            signals@.len() == c,
            forall|i: int| 0 <= i < c as int ==> (#[trigger] signals@[i])@ == m[i],
            forall|i: int| 0 <= i < c as int ==> (#[trigger] signals@[i])@.len() == m[0].len(),
            forall|i: int| 0 <= i < n - 1 ==> (#[trigger] m[i]).len() == m[0].len(),
    {
        proof {
            assert(m[c as int] == data@[c as int].deep_view());
            assert(data@[c as int]@ =~= m[c as int]);
        }
        let row = copy_samples(&data[c]);
        signals.push(row);
    }
    let ghost sig = m.take(m.len() - 1);
    proof {
        assert(signals.deep_view() =~~= sig);
        assert(forall|c: int| 0 <= c < signals@.len() ==> (#[trigger] signals@[c])@
            == signals.deep_view()[c]);
    }
    let avg_ref: Option<Vec<Vec<i16>>> = match compute_average_reference_i16(&signals) {
        Ok(ar) => Some(ar),
        Err(_) => None,
    };
    proof {
        assert(n - 1 < n);
        assert(m[n - 1] == data@[n - 1].deep_view());
        assert(data@[n - 1]@ =~= m[n - 1]);
    }
    let last_row = &data[n - 1];
    let mut words: Vec<u16> = Vec::new();
    for i in 0..last_row.len()
        invariant
            last_row@ == m[m.len() - 1],
            words@.len() == i,
            forall|j: int| 0 <= j < i as int ==> (#[trigger] words@[j]) == word_of_sample(
                last_row@[j],
            ),
    {
        let x = last_row[i];
        words.push(#[verifier::truncate] (x as u16));
    }
    proof {
        assert(words@ =~= words_of_row(m.last()));
    }
    let sf_used: u64 = match sampling_frequency {
        Some(s) => s,
        None => 1,
    };
    let mut is_annotation = false;
    if meta.channels.len() > 0 {
        let last_idx = meta.channels.len() - 1;
        is_annotation = str_contains(meta.channels[last_idx].label.as_str(), "EDF Annotations");
        proof {
            assert(meta.channels@[meta.channels@.len() - 1] == meta.channels@.last());
        }
    }
    let markers = if is_annotation {
        parse_edf_annotations(&words, sf_used)
    } else {
        Markers { n_markers: 0, markers: Vec::new() }
    };
    Ok(LoadedData { signals, avg_ref, markers })
}

} // verus!
