//! Text-transformation library: case conversion, encodings, data-format
//! conversion and text cleanup, selected by keyword tables, with the flag
//! scanning and dispatch logic specified and verified.
use vstd::prelude::*;

pub mod casing;
pub mod conversion;
pub mod encoding;
pub mod format;
pub mod numkit;
pub mod strkit;
pub mod text_utils;
pub mod utils;

verus! {

/// Why an operation rejected its input, each variant standing for one of
/// the fatal input errors the operations report.
#[derive(Clone, Copy, Debug, PartialEq, Eq, Structural)]
pub enum OpError {
    InvalidHex,
    HexNotUtf8,
    NotBinary,
    NotDecimal,
    NotHexNumber,
    RgbTooShort,
    RgbInvalidHex,
    BadJson,
    BadCss,
    BadXml,
    UnknownOp,
}

/// The report for each error, as the operations word it.
pub open spec fn spec_error_message(e: OpError) -> Seq<char> {
    match e {
        OpError::InvalidHex => "Invalid hex provided."@,
        OpError::HexNotUtf8 => "Unable to convert hex to UTF-8."@,
        OpError::NotBinary => "Not a binary number!"@,
        OpError::NotDecimal => "Invalid number passed."@,
        OpError::NotHexNumber => "Unable to convert hex to decimal."@,
        OpError::RgbTooShort => "Hex string must be at least 6 characters for RGB."@,
        OpError::RgbInvalidHex => "Invalid hex for RGB conversion."@,
        OpError::BadJson => "Unable to read JSON data to string."@,
        OpError::BadCss => "Unable to parse or print CSS."@,
        OpError::BadXml => "Unable to parse input to XML data."@,
        OpError::UnknownOp => "Unknown operation specified."@,
    }
}

impl OpError {
    /// The error's report, for the caller to print.
    pub fn message(&self) -> (r: String)
        ensures
            r@ == spec_error_message(*self),
    {
        match self {
            OpError::InvalidHex => crate::strkit::copy_str("Invalid hex provided."),
            OpError::HexNotUtf8 => crate::strkit::copy_str("Unable to convert hex to UTF-8."),
            OpError::NotBinary => crate::strkit::copy_str("Not a binary number!"),
            OpError::NotDecimal => crate::strkit::copy_str("Invalid number passed."),
            OpError::NotHexNumber => crate::strkit::copy_str("Unable to convert hex to decimal."),
            OpError::RgbTooShort => crate::strkit::copy_str(
                "Hex string must be at least 6 characters for RGB.",
            ),
            OpError::RgbInvalidHex => crate::strkit::copy_str("Invalid hex for RGB conversion."),
            OpError::BadJson => crate::strkit::copy_str("Unable to read JSON data to string."),
            OpError::BadCss => crate::strkit::copy_str("Unable to parse or print CSS."),
            OpError::BadXml => crate::strkit::copy_str("Unable to parse input to XML data."),
            OpError::UnknownOp => crate::strkit::copy_str("Unknown operation specified."),
        }
    }
}

} // verus!
