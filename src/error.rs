//! Errors of a segmentation request.

use vstd::prelude::*;
use qrcode::types::QrError;

verus! {

/// Why a payload could not be split into symbols.
#[derive(Clone, Copy, Debug, PartialEq, Eq)]
pub enum SegmentError {
    /// A normal version number outside `1..=40`.
    InvalidSizeClass,
    /// A Micro QR version: the segmenter does not use Micro symbols.
    UnsupportedSizeClass,
    /// The slack and the index byte leave no room for payload bytes.
    InsufficientCapacity,
    /// The payload needs more chunks than one index byte can number.
    TooManyChunks,
    /// The encoder rejected the chunk with this index.
    EncodingFailed { chunk_index: usize, cause: QrError },
}

} // verus!
