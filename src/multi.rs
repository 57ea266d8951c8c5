//! A payload encoded as a sequence of QR symbols.

use vstd::prelude::*;
use qrcode::types::QrError;
use qrcode::QrCode;
use crate::capacity::{EcLevel, Version, QR_VERSION_SLACK};
use crate::error::SegmentError;
use crate::segment::{plan_chunks, plan_spec};
use crate::symbol::{encode_symbol, symbol_for};
use crate::render::{append_str, is_base64_form, is_text_form, text_of, text_render, QrData};

verus! {

/// Normal version used where the caller names none: the largest.
pub const DEFAULT_QR_VERSION: i16 = 40;

/// Level used where the caller names none: the weakest, which holds most.
pub const DEFAULT_EC_LEVEL: EcLevel = EcLevel::L;

/// The symbols of one payload, in chunk-index order.
pub struct MultiQrCode {
    pub codes: Vec<QrCode>,
}

/// The number of a version, normal or Micro.
pub open spec fn version_number(version: Version) -> int {
    match version {
        Version::Normal(x) => x as int,
        Version::Micro(x) => x as int,
    }
}

/// The smallest slack known to be enough at level `L` for `version`, where
/// the version is a valid normal one.
pub open spec fn default_slack(version: Version) -> int {
    match version {
        Version::Normal(x) => if 1 <= x <= 40 { QR_VERSION_SLACK@[x - 1] as int } else { 0 },
        Version::Micro(_) => 0,
    }
}

/// `codes` are the symbols of `chunks`, one each, in order.
pub open spec fn encodes_all(chunks: Seq<Seq<u8>>, version: int, ec: int, codes: Seq<QrCode>) -> bool {
    &&& codes.len() == chunks.len()
    &&& forall|i: int| 0 <= i < chunks.len() ==>
            #[trigger] symbol_for(chunks[i], version, ec) == Ok::<QrCode, QrError>(codes[i])
}

/// Chunk `i` is the first that the encoder rejects, with `cause`.
pub open spec fn first_rejected(chunks: Seq<Seq<u8>>, version: int, ec: int, i: int, cause: QrError) -> bool {
    &&& 0 <= i < chunks.len()
    &&& symbol_for(chunks[i], version, ec) == Err::<QrCode, QrError>(cause)
    &&& forall|j: int| 0 <= j < i ==> (#[trigger] symbol_for(chunks[j], version, ec)) is Ok
}

/// What segmenting `data` for `version`, `ec` and `slack` returns: the
/// planning error, or the symbols of all the planned chunks, or the first
/// encoder rejection.
pub open spec fn segment_outcome(
    data: Seq<u8>,
    version: Version,
    ec: EcLevel,
    slack: int,
    r: Result<MultiQrCode, SegmentError>,
) -> bool {
    match plan_spec(data, version, ec, slack) {
        Err(e) => r == Err::<MultiQrCode, SegmentError>(e),
        Ok(chunks) => {
            let v = version_number(version);
            &&& r is Ok <==> forall|i: int| 0 <= i < chunks.len() ==>
                    (#[trigger] symbol_for(chunks[i], v, ec.index())) is Ok
            &&& r matches Ok(m) ==> encodes_all(chunks, v, ec.index(), m.codes@)
            &&& r matches Err(e) ==> (e matches SegmentError::EncodingFailed { chunk_index, cause }
                    && first_rejected(chunks, v, ec.index(), chunk_index as int, cause))
        },
    }
}

/// The text drawings of `codes`, one after another.
pub open spec fn joined_text(codes: Seq<QrCode>) -> Seq<char>
    decreases codes.len(),
{
    if codes.len() == 0 {
        Seq::empty()
    } else {
        joined_text(codes.drop_last()) + text_of(codes.last())
    }
}

impl MultiQrCode {
    /// Segments `data` with the default slack of `version`.
    pub fn new(data: &[u8], version: Version, ec: EcLevel) -> (r: Result<Self, SegmentError>)
        ensures
            segment_outcome(data@, version, ec, default_slack(version), r),
    {
        match version {
            Version::Micro(_) => Err(SegmentError::UnsupportedSizeClass),
            Version::Normal(_) => match version.to_index() {
                Some(row) => Self::with_slack(data, version, ec, QR_VERSION_SLACK[row]),
                None => Err(SegmentError::InvalidSizeClass),
            },
        }
    }

    /// Splits `data` into index-tagged chunks that leave `slack` bytes of
    /// each symbol free, and encodes each chunk into one symbol of `version`
    /// at `ec`, stopping at the first chunk that the encoder rejects.
    pub fn with_slack(data: &[u8], version: Version, ec: EcLevel, slack: usize) -> (r: Result<Self, SegmentError>)
        ensures
            segment_outcome(data@, version, ec, slack as int, r),
    {
        let chunks = plan_chunks(data, version, ec, slack)?;
        let number: i16 = match version {
            Version::Normal(x) => x,
            Version::Micro(x) => x,
        };
        let ghost planned = plan_spec(data@, version, ec, slack as int)->Ok_0;
        let ghost v = version_number(version);
        let mut codes: Vec<QrCode> = Vec::new();
        let mut i: usize = 0;
        while i < chunks.len()
            invariant
                plan_spec(data@, version, ec, slack as int) == Ok::<Seq<Seq<u8>>, SegmentError>(planned),
                v == version_number(version),
                planned.len() == chunks@.len(),
                forall|j: int| 0 <= j < chunks@.len() ==> #[trigger] chunks@[j]@ == planned[j],
                v == number as int,
                1 <= number <= 40,
                i <= chunks@.len(),
                codes@.len() == i,
                forall|j: int| 0 <= j < i ==>
                    #[trigger] symbol_for(planned[j], v, ec.index()) == Ok::<QrCode, QrError>(codes@[j]),
            decreases chunks@.len() - i,
        {
            match encode_symbol(chunks[i].as_slice(), number, ec) {
                Ok(code) => codes.push(code),
                Err(cause) => {
                    assert(chunks@[i as int]@ == planned[i as int]);
                    assert(symbol_for(planned[i as int], v, ec.index()) == Err::<QrCode, QrError>(cause));
                    assert(forall|j: int| 0 <= j < i ==> (#[trigger] symbol_for(planned[j], v, ec.index())) is Ok);
                    return Err(SegmentError::EncodingFailed { chunk_index: i, cause });
                },
            }
            i += 1;
        }
        Ok(MultiQrCode { codes })
    }

    /// Segments `data` into the largest normal symbols at level `L`, with
    /// their default slack.
    pub fn default(data: &[u8]) -> (r: Result<Self, SegmentError>)
        ensures
            segment_outcome(
                data@,
                Version::Normal(DEFAULT_QR_VERSION),
                DEFAULT_EC_LEVEL,
                default_slack(Version::Normal(DEFAULT_QR_VERSION)),
                r,
            ),
    {
        Self::new(data, Version::Normal(DEFAULT_QR_VERSION), DEFAULT_EC_LEVEL)
    }

    /// Each symbol drawn as text, in order.
    pub fn to_strings(&self) -> (r: Vec<QrData>)
        ensures
            r@.len() == self.codes@.len(),
            forall|i: int| 0 <= i < r@.len() ==>
                is_text_form(#[trigger] r@[i], self.codes@[i]),
    {
        let mut out: Vec<QrData> = Vec::new();
        let mut i: usize = 0;
        while i < self.codes.len()
            invariant
                i <= self.codes@.len(),
                out@.len() == i,
                forall|j: int| 0 <= j < i ==>
                    is_text_form(#[trigger] out@[j], self.codes@[j]),
            decreases self.codes@.len() - i,
        {
            out.push(QrData::String(text_render(&self.codes[i])));
            i += 1;
        }
        out
    }

    /// Each symbol as its packed bitmap in base64, in order.
    pub fn to_base64(&self) -> (r: Vec<QrData>)
        ensures
            r@.len() == self.codes@.len(),
            forall|i: int| 0 <= i < r@.len() ==>
                is_base64_form(#[trigger] r@[i], self.codes@[i]),
    {
        let mut out: Vec<QrData> = Vec::new();
        let mut i: usize = 0;
        while i < self.codes.len()
            invariant
                i <= self.codes@.len(),
                out@.len() == i,
                forall|j: int| 0 <= j < i ==>
                    is_base64_form(#[trigger] out@[j], self.codes@[j]),
            decreases self.codes@.len() - i,
        {
            out.push(QrData::base64_from(&self.codes[i]));
            i += 1;
        }
        out
    }

    /// All the symbols drawn as text, one after another.
    pub fn to_string(&self) -> (r: String)
        ensures
            r@ == joined_text(self.codes@),
    {
        let strings = self.to_strings();
        let mut text = String::new();
        let mut i: usize = 0;
        while i < strings.len()
            invariant
                i <= strings@.len(),
                strings@.len() == self.codes@.len(),
                forall|j: int| 0 <= j < strings@.len() ==>
                    is_text_form(#[trigger] strings@[j], self.codes@[j]),
                text@ == joined_text(self.codes@.take(i as int)),
            decreases strings@.len() - i,
        {
            if let QrData::String(part) = &strings[i] {
                append_str(&mut text, part.as_str());
            }
            assert(self.codes@.take(i + 1).drop_last() =~= self.codes@.take(i as int));
            i += 1;
        }
        assert(self.codes@.take(i as int) =~= self.codes@);
        text
    }
}

} // verus!
