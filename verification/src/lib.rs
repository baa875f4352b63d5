//! Core of an EEG recording tool: decoding of container metadata, annotation
//! markers packed into a reserved channel, average re-referencing, a digital
//! filter pipeline, stimulation-artifact removal, and the state machine that
//! runs each of those as a one-shot background job.
//!
//! Matrices are channel-major: a `Vec<Vec<i16>>` holds one row per channel,
//! all rows of equal length. Fractional quantities (marker positions, time
//! offsets, cutoff frequencies) are carried as scaled integers; see the
//! module documentation of each component for its scale.

use vstd::prelude::*;

pub mod annotations;
pub mod arith;
pub mod artifact;
pub mod jobs;
pub mod loading;
pub mod reference;
pub mod signal;

verus! {

/// Error taxonomy of the library.
///
/// `IOError`: a path is missing or unreadable (raised by the unverified I/O
/// shell, never by the library itself). `FormatError`: a structurally invalid
/// input (zero channels, inconsistent row lengths, malformed header values).
/// `FilterError`: a cutoff outside `(0, Nyquist)`. `ArithmeticError`:
/// degenerate numeric input. `UnexpectedDisconnect`: a job's sender vanished
/// without delivering a result.
#[derive(Clone, Copy, Debug, PartialEq, Eq, Structural)]
pub enum EegError {
    IOError,
    FormatError,
    FilterError,
    ArithmeticError,
    UnexpectedDisconnect,
}

impl EegError {
    /// A short operator-visible description of the error.
    pub fn text(&self) -> (r: &'static str)
        ensures
            r@.len() > 0,
    {
        proof {
            reveal_strlit("path missing or unreadable");
            reveal_strlit("malformed or inconsistent recording structure");
            reveal_strlit("filter cutoff outside (0, Nyquist)");
            reveal_strlit("degenerate numeric input");
            reveal_strlit("worker disconnected without a result");
        }
        match self {
            EegError::IOError => "path missing or unreadable",
            EegError::FormatError => "malformed or inconsistent recording structure",
            EegError::FilterError => "filter cutoff outside (0, Nyquist)",
            EegError::ArithmeticError => "degenerate numeric input",
            EegError::UnexpectedDisconnect => "worker disconnected without a result",
        }
    }
}

/// Channel-level summary of a loaded recording, derived once from the
/// container header and read-only thereafter. `ch_names` is parallel to the
/// rows of the sample matrix; `sfreq` is the single sampling rate (in Hz)
/// adopted for the whole recording.
#[derive(Debug, Default, Clone)]
pub struct EEGInfo {
    pub num_ch: i32,
    pub ch_namesx: Option<Vec<String>>,
    pub ch_names: Vec<String>,
    pub sfreq: i32,
    pub data_orientation: Option<String>,
    pub binary_format: Option<String>,
    pub sampling_interval_in: Option<String>,
    pub sampling_interval: Option<i32>,
}

/// Event-marker positions decoded from the reserved annotation channel.
///
/// Each entry is a recording-relative sample position in millionths of a
/// sample (fixed point, scale `1_000_000`), in record order, not sorted.
/// Invariant: `n_markers` equals the list's length.
#[derive(Debug, Default, Clone)]
pub struct Markers {
    pub n_markers: usize,
    pub markers: Vec<i64>,
}

impl Markers {
    /// Well-formedness: the stored count matches the list.
    pub open spec fn wf(&self) -> bool {
        self.n_markers == self.markers@.len()
    }
}

} // verus!
