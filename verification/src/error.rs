//! Errors raised while reading an ENDF-6 file or an ACE table.

use vstd::prelude::*;

use crate::text::{debug_quoted, debug_text, push_signed, push_str, signed_decimal};

verus! {

/// What went wrong while reading.
#[derive(Debug, Clone, PartialEq, Eq)]
pub enum Error {
    /// A record was expected but the section ended first.
    UnexpectedEof {
        /// What the reader was trying to read.
        expected: &'static str,
    },
    /// A control field (MAT/MF/MT) could not be read as an integer.
    BadControlField { line: String },
    /// An INTG record used an NDIGIT value the format does not define.
    BadNdigit { ndigit: i64 },
    /// A representation the reader does not implement.
    Unsupported { what: &'static str },
    /// A string that is not a GNDS nuclide name.
    BadNuclideName { name: String },
    /// A chemical symbol, or atomic number, that names no element.
    UnknownElement { symbol: String },
    /// An ACE table that could not be read.
    BadAceTable { what: String },
    /// An interpolation law the format does not define.
    BadInterpolation { name: String },
    /// Two things that have to agree in size or identity do not.
    Mismatched { what: &'static str },
}

/// The result of a reading operation.
pub type Result<T> = core::result::Result<T, Error>;

impl Error {
    /// What [`Error::message`] says.
    pub open spec fn message_spec(self) -> Seq<char> {
        match self {
            Error::UnexpectedEof { expected } => "ENDF section ended while reading "@ + expected@,
            Error::BadControlField { line } => "could not read MAT/MF/MT control fields from line: "@
                + debug_text(line@),
            Error::BadNdigit { ndigit } => "INTG record has NDIGIT="@ + signed_decimal(ndigit as int)
                + ", expected 2 through 6"@,
            Error::Unsupported { what } => "this reader does not implement "@ + what@,
            Error::BadNuclideName { name } => debug_text(name@) + " is not a GNDS nuclide name"@,
            Error::UnknownElement { symbol } => "no element has "@ + symbol@,
            Error::BadAceTable { what } => "bad ACE table: "@ + what@,
            Error::BadInterpolation { name } => debug_text(name@) + " is not an interpolation law"@,
            Error::Mismatched { what } => "mismatched "@ + what@,
        }
    }

    /// The error as a sentence for a person to read.
    pub fn message(&self) -> (r: String)
        ensures
            r@ == self.message_spec(),
    {
        let mut r = String::new();
        match self {
            Error::UnexpectedEof { expected } => {
                push_str(&mut r, "ENDF section ended while reading ");
                push_str(&mut r, expected);
            },
            Error::BadControlField { line } => {
                push_str(&mut r, "could not read MAT/MF/MT control fields from line: ");
                let q = debug_quoted(line.as_str());
                push_str(&mut r, q.as_str());
            },
            Error::BadNdigit { ndigit } => {
                push_str(&mut r, "INTG record has NDIGIT=");
                push_signed(&mut r, *ndigit);
                push_str(&mut r, ", expected 2 through 6");
            },
            Error::Unsupported { what } => {
                push_str(&mut r, "this reader does not implement ");
                push_str(&mut r, what);
            },
            Error::BadNuclideName { name } => {
                let q = debug_quoted(name.as_str());
                push_str(&mut r, q.as_str());
                push_str(&mut r, " is not a GNDS nuclide name");
            },
            Error::UnknownElement { symbol } => {
                push_str(&mut r, "no element has ");
                push_str(&mut r, symbol.as_str());
            },
            Error::BadAceTable { what } => {
                push_str(&mut r, "bad ACE table: ");
                push_str(&mut r, what.as_str());
            },
            Error::BadInterpolation { name } => {
                let q = debug_quoted(name.as_str());
                push_str(&mut r, q.as_str());
                push_str(&mut r, " is not an interpolation law");
            },
            Error::Mismatched { what } => {
                push_str(&mut r, "mismatched ");
                push_str(&mut r, what);
            },
        }
        r
    }
}

} // verus!
