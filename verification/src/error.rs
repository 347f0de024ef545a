//! The errors the reader can return.

use vstd::prelude::*;
use vstd::string::StringExecFns;

verus! {

/// Why a signature was rejected.
///
/// `InvalidName` carries text that matches no grammar production: an unknown
/// keyword, a tuple without its `tuple(`/`)` wrapper, text after the
/// parenthesis that closes a tuple, or a bracket pair that no element
/// signature precedes.  `InvalidNumber` carries a width or length suffix
/// that is not a run of base-10 digits, or one whose value does not fit in
/// `usize`.  `NestingTooDeep` reports input nested beyond
/// [`crate::reader::MAX_NESTING`] levels, refused rather than recursed into.
#[derive(Debug, Clone, PartialEq, Eq)]
pub enum Error {
    InvalidName(String),
    InvalidNumber(String),
    NestingTooDeep,
}

/// The mathematical shape of an [`Error`]: the same variants over `Seq<char>`.
pub enum ErrorModel {
    InvalidName(Seq<char>),
    InvalidNumber(Seq<char>),
    NestingTooDeep,
}

impl View for Error {
    type V = ErrorModel;

    open spec fn view(&self) -> ErrorModel {
        match self {
            Error::InvalidName(s) => ErrorModel::InvalidName(s@),
            Error::InvalidNumber(s) => ErrorModel::InvalidNumber(s@),
            Error::NestingTooDeep => ErrorModel::NestingTooDeep,
        }
    }
}

impl Error {
    /// A short description of the error, with the offending text.
    pub fn describe(&self) -> (r: String)
        ensures
            self is InvalidName ==> r@ == "invalid name: "@ + self->InvalidName_0@,
            self is InvalidNumber ==> r@ == "invalid number: "@ + self->InvalidNumber_0@,
            self is NestingTooDeep ==> r@ == "nesting too deep"@,
    {
        match self {
            Error::InvalidName(s) => {
                let mut r = "invalid name: ".to_owned();
                r.append(s.as_str());
                r
            },
            Error::InvalidNumber(s) => {
                let mut r = "invalid number: ".to_owned();
                r.append(s.as_str());
                r
            },
            Error::NestingTooDeep => "nesting too deep".to_owned(),
        }
    }
}

} // verus!
