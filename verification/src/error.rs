//! Errors surfaced by the document layer: cross-reference failures and
//! parse failures, and the one result type that carries every kind.

use vstd::prelude::*;

use crate::object::HandlingError;
use crate::shared::NumberError;
use crate::ObjectId;

verus! {

/// Errors of the cross-reference table.
#[derive(Debug, PartialEq)]
pub enum XrefError {
    /// The object found at an entry's offset names another id than the
    /// entry: the expected id, then the found one.
    FoundWrongObjectForExpectedEntry((ObjectId, ObjectId)),
    /// No object header stands at the entry's offset.
    XrefTableInvalidEntry(ObjectId),
    /// The entry kind is recognised but not implemented.
    Unsupported,
}

/// Errors of the parsers.
#[derive(Debug, PartialEq)]
pub enum ParseError {
    /// The cap style operand must be 0, 1 or 2; this value is neither.
    InvalidCapStyle(i32),
    /// Bytes of a content stream were left after the last operator; they
    /// are carried for diagnosis.
    FailedToParseAllStreamContent(Vec<u8>),
    /// The input is malformed at this byte offset.
    Malformed(usize),
}

/// Any error of document loading, with a tag for its kind.
#[derive(Debug, PartialEq)]
pub enum PdfError {
    Handling(HandlingError),
    Xref(XrefError),
    Parse(ParseError),
    Number(NumberError),
}

} // verus!
