//! What can go wrong while reading a manifest.
use vstd::prelude::*;
use crate::grammar::Field;

verus! {

/// Why a manifest was refused.
#[derive(Debug, PartialEq, Eq)]
pub enum Error {
    /// The input ended where a byte was still required.
    UnexpectedEof,
    /// A byte other than the one the grammar requires at that point.
    UnexpectedByte(u8),
    /// A value, list item or function body that is not valid UTF-8, with
    /// where its decoding failed.
    ExpectedUtf8(std::str::Utf8Error),
    /// A required field or function that the manifest never defines.
    MissingField(Field),
    /// An assignment `key=...` whose key names no field.
    UnknownField(String),
    /// A function `key() { ... }` whose name is not one of the scripts.
    UnknownScript(String),
}

/// The mathematical counterpart of [`Error`].
pub enum Failure {
    Eof,
    Byte(u8),
    Utf8,
    Missing(Field),
    UnknownField(Seq<char>),
    UnknownScript(Seq<char>),
}

impl View for Error {
    type V = Failure;

    open spec fn view(&self) -> Failure {
        match self {
            Error::UnexpectedEof => Failure::Eof,
            Error::UnexpectedByte(b) => Failure::Byte(*b),
            Error::ExpectedUtf8(_) => Failure::Utf8,
            Error::MissingField(f) => Failure::Missing(*f),
            Error::UnknownField(k) => Failure::UnknownField(k@),
            Error::UnknownScript(k) => Failure::UnknownScript(k@),
        }
    }
}

} // verus!
