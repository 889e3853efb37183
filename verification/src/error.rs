//! The errors of text extraction.
use vstd::prelude::*;

verus! {

/// Why the text of a document could not be extracted.
#[derive(Debug, Clone)]
pub enum PdfError {
    /// The structure of the file is faulty.
    ParseError(String),
    /// A stream filter failed.
    DecompressionError(String),
}

impl PdfError {
    /// The message of the error.
    pub fn message(&self) -> (r: &String)
        ensures
            *r == match *self {
                PdfError::ParseError(m) => m,
                PdfError::DecompressionError(m) => m,
            },
    {
        match self {
            PdfError::ParseError(m) => m,
            PdfError::DecompressionError(m) => m,
        }
    }

    /// The error in words: its kind, then its message.
    pub fn describe(&self) -> (r: String)
        ensures
            r@ == match *self {
                PdfError::ParseError(m) => "Parse error: "@ + m@,
                PdfError::DecompressionError(m) => "Decompression error: "@ + m@,
            },
    {
        match self {
            PdfError::ParseError(m) => String::from_str("Parse error: ").concat(m.as_str()),
            PdfError::DecompressionError(m) => String::from_str("Decompression error: ").concat(
                m.as_str(),
            ),
        }
    }
}

/// A structural fault with the given message.
pub fn parse_error(message: &str) -> (r: PdfError)
    ensures
        r is ParseError,
        r->ParseError_0@ == message@,
{
    PdfError::ParseError(String::from_str(message))
}

/// A filter failure with the given message.
pub fn decompression_error(message: &str) -> (r: PdfError)
    ensures
        r is DecompressionError,
        r->DecompressionError_0@ == message@,
{
    PdfError::DecompressionError(String::from_str(message))
}

} // verus!
