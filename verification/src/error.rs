//! Error type of the reader, and the decimal rendering used by the
//! `SignalNotFound` payload.

use vstd::prelude::*;

verus! {

/// Everything that can go wrong while opening a file image or running a
/// query against it.
#[derive(Debug, PartialEq, Eq)]
pub enum PltxError {
    /// A fixed-size structure extends past the end of the file image.
    Io(String),
    /// One of the magic byte checks failed; both byte strings are kept for
    /// diagnosis.
    InvalidMagic { expected: Vec<u8>, got: Vec<u8> },
    /// Reserved for format versions this engine refuses.
    UnsupportedVersion(u8),
    /// The header declares a compression code outside the known tag set.
    UnsupportedCompression(u8),
    /// A codec rejected the compressed bytes.
    DecompressionFailed(String),
    /// A structural invariant of the format is violated.
    CorruptedData(String),
    /// A query names a signal id absent from the index.
    SignalNotFound(String),
    /// A signal metadata string is not valid UTF-8.
    InvalidUtf8,
    /// Reserved for malformed numeric fields.
    ParseError(String),
}

/// The ASCII digit for one decimal place.
pub open spec fn spec_dec_digit(d: nat) -> char {
    ((d + 0x30) as u8) as char
}

/// The decimal rendering of a natural number: no sign, no padding, no
/// separators.
pub open spec fn spec_dec(v: nat) -> Seq<char>
    decreases v,
{
    if v < 10 {
        seq![spec_dec_digit(v)]
    } else {
        spec_dec(v / 10) + seq![spec_dec_digit(v % 10)]
    }
}

/// Relies on `u32`'s `Display` implementation through `ToString::to_string`:
/// it renders the value in decimal with no sign, padding or separators.
#[verifier::external_body]
pub(crate) fn u32_to_decimal(v: u32) -> (r: String)
    ensures
        r@ == spec_dec(v as nat),
{
    v.to_string()
}

} // verus!
