use vstd::prelude::*;

verus! {

/// Every failure the container engine can report. Callers branch on the
/// variant; none of these conditions aborts the program.
#[derive(Debug, Clone, Copy, PartialEq, Eq, Structural)]
pub enum PngError {
    /// The first eight bytes of a buffer are not the fixed signature.
    BadSignature,
    /// Fewer bytes remain than a length field or a fixed field demands.
    Truncated,
    /// The checksum recomputed over type and payload disagrees with the wire value.
    ChecksumMismatch,
    /// A type code fails the alphabetic or reserved-bit validity rule.
    InvalidFormat,
    /// A type-code text is not exactly four bytes long.
    InvalidLength,
    /// A payload holds bytes that are not valid UTF-8 text.
    InvalidUtf8,
    /// No chunk of the requested type is present.
    NotFound,
}

impl PngError {
    /// A short, stable description of the failure.
    pub fn message(&self) -> &'static str {
        match self {
            PngError::BadSignature => "bad signature",
            PngError::Truncated => "truncated input",
            PngError::ChecksumMismatch => "checksum mismatch",
            PngError::InvalidFormat => "invalid chunk type",
            PngError::InvalidLength => "chunk type text must be 4 bytes",
            PngError::InvalidUtf8 => "payload is not valid utf-8",
            PngError::NotFound => "no chunk of that type",
        }
    }
}

} // verus!
