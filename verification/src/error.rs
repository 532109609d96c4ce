//! The errors of the codec.

use crate::emitter::{decimal_digits, write_number};
use crate::text::{ascii_chars, string_from_ascii};
use vstd::prelude::*;
use vstd::string::StringExecFns;

verus! {

/// What can go wrong while encoding or decoding.
#[derive(Debug, Clone)]
pub enum SixelError {
    /// A width or height is zero, or the image is over a size limit.
    InvalidDimensions { width: usize, height: usize },
    /// The pixel buffer does not have `width * height * 4` bytes.
    BufferSizeMismatch { expected: usize, actual: usize },
    /// The data is not a well-formed SIXEL sequence.
    InvalidData(String),
    /// No Device Control String was found.
    NoSixelData,
    /// The colour quantizer gave no usable palette.
    Quantization(String),
    /// A checked computation went over the range of its type.
    IntegerOverflow,
}

/// The mathematical value of a [`SixelError`].
pub enum ErrorView {
    InvalidDimensions { width: int, height: int },
    BufferSizeMismatch { expected: int, actual: int },
    InvalidData(Seq<char>),
    NoSixelData,
    Quantization(Seq<char>),
    IntegerOverflow,
}

impl View for SixelError {
    type V = ErrorView;

    open spec fn view(&self) -> ErrorView {
        match *self {
            SixelError::InvalidDimensions { width, height } => ErrorView::InvalidDimensions {
                width: width as int,
                height: height as int,
            },
            SixelError::BufferSizeMismatch { expected, actual } => ErrorView::BufferSizeMismatch {
                expected: expected as int,
                actual: actual as int,
            },
            SixelError::InvalidData(msg) => ErrorView::InvalidData(msg@),
            SixelError::NoSixelData => ErrorView::NoSixelData,
            SixelError::Quantization(msg) => ErrorView::Quantization(msg@),
            SixelError::IntegerOverflow => ErrorView::IntegerOverflow,
        }
    }
}

/// The error for data that breaks the grammar or a per-axis limit.
pub open spec fn malformed_data() -> ErrorView {
    ErrorView::InvalidData("malformed SIXEL data"@)
}

/// The error for an image with too many pixels.
pub open spec fn too_large() -> ErrorView {
    ErrorView::InvalidData("image dimensions too large"@)
}

/// The error for a quantizer result that does not describe the image.
pub open spec fn bad_quantization() -> ErrorView {
    ErrorView::Quantization("quantizer returned an unusable image"@)
}

/// Makes the error that [`malformed_data`] names.
pub fn malformed_error() -> (e: SixelError)
    ensures
        e@ == malformed_data(),
{
    SixelError::InvalidData("malformed SIXEL data".to_string())
}

/// Makes the error that [`too_large`] names.
pub fn too_large_error() -> (e: SixelError)
    ensures
        e@ == too_large(),
{
    SixelError::InvalidData("image dimensions too large".to_string())
}

/// Makes the error that [`bad_quantization`] names.
pub fn bad_quantization_error() -> (e: SixelError)
    ensures
        e@ == bad_quantization(),
{
    SixelError::Quantization("quantizer returned an unusable image".to_string())
}

/// The decimal digits of `n` as characters.
pub open spec fn decimal_text(n: int) -> Seq<char> {
    ascii_chars(decimal_digits(n))
}

/// What an error says of itself.
pub open spec fn message_spec(e: ErrorView) -> Seq<char> {
    match e {
        ErrorView::InvalidDimensions { width, height } => "invalid dimensions: "@ + decimal_text(
            width,
        ) + "x"@ + decimal_text(height),
        ErrorView::BufferSizeMismatch { expected, actual } => "buffer size mismatch: expected "@
            + decimal_text(expected) + " bytes, got "@ + decimal_text(actual),
        ErrorView::InvalidData(msg) => "invalid SIXEL data: "@ + msg,
        ErrorView::NoSixelData => "no SIXEL data found (missing DCS introducer)"@,
        ErrorView::Quantization(msg) => "quantization error: "@ + msg,
        ErrorView::IntegerOverflow => "integer overflow"@,
    }
}

fn number_text(n: usize) -> (out: String)
    ensures
        out@ == decimal_text(n as int),
{
    let mut digits: Vec<u8> = Vec::new();
    write_number(&mut digits, n);
    assert(digits@ =~= decimal_digits(n as int));
    string_from_ascii(digits)
}

impl SixelError {
    /// A sentence that says what went wrong.
    pub fn message(&self) -> (out: String)
        ensures
            out@ == message_spec(self@),
    {
        match self {
            SixelError::InvalidDimensions { width, height } => {
                let mut out = String::from_str("invalid dimensions: ");
                let w = number_text(*width);
                out.append(w.as_str());
                out.append("x");
                let h = number_text(*height);
                out.append(h.as_str());
                out
            },
            SixelError::BufferSizeMismatch { expected, actual } => {
                let mut out = String::from_str("buffer size mismatch: expected ");
                let e = number_text(*expected);
                out.append(e.as_str());
                out.append(" bytes, got ");
                let a = number_text(*actual);
                out.append(a.as_str());
                out
            },
            SixelError::InvalidData(msg) => {
                let mut out = String::from_str("invalid SIXEL data: ");
                out.append(msg.as_str());
                out
            },
            SixelError::NoSixelData => String::from_str(
                "no SIXEL data found (missing DCS introducer)",
            ),
            SixelError::Quantization(msg) => {
                let mut out = String::from_str("quantization error: ");
                out.append(msg.as_str());
                out
            },
            SixelError::IntegerOverflow => String::from_str("integer overflow"),
        }
    }
}

} // verus!
