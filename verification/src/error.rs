//! The errors of both directions of the codec: a kind, and for faults found
//! while reading the byte offset they are reported at.

use vstd::prelude::*;
use vstd::string::StringExecFns;
use crate::grammar::digits;

verus! {

/// `std::io::Error`, which an error of the byte sink carries as it is:
/// nothing is claimed of what it holds.
#[verifier::external_type_specification]
#[verifier::external_body]
pub struct ExIoError(std::io::Error);

/// What went wrong.
#[derive(Debug)]
pub enum ErrorKind {
    /// A failure raised above the codec, in its own words.
    Message(String),
    /// A failure of the byte sink while encoding.
    Io(std::io::Error),
    /// The input ended where more was needed.
    Eof,
    /// Three bytes that are neither `i1e` nor `i0e`.
    ExpectedBoolean,
    /// A number that does not start as one.
    ExpectedInteger,
    /// A byte string that does not start as one.
    ExpectedString,
    /// A byte string of another length than one.
    ExpectedChar,
    /// Another byte than the `l` that opens a list.
    ExpectedList,
    /// Another byte than the `d` that opens a dictionary.
    ExpectedDict,
    /// A byte in a length prefix that is neither a digit nor the `:`.
    ExpectedStringDelim,
    /// Neither a variant's name nor the `d` of a variant with data.
    ExpectedEnum,
    /// Another byte where an `e` has to stand.
    ExpectedEnd,
    /// A byte that starts no value.
    ExpectedSomeValue,
    /// The number `-0`.
    MinusZero,
    /// A number with a zero in front of other digits.
    LeadingZero,
    /// A number that the type asked for cannot hold.
    IntegerOutOfRange,
    /// A string whose bytes are not valid UTF-8.
    StringNotUtf8,
    /// A dictionary key that is no byte string.
    KeyMustBeAString,
    /// Bytes behind a complete value.
    TrailingCharacters,
}

impl ErrorKind {
    /// The words for this kind. A failure of the byte sink words itself, so
    /// it has none here.
    pub open spec fn text(self) -> Option<Seq<char>> {
        match self {
            ErrorKind::Message(msg) => Some(msg@),
            ErrorKind::Io(_) => None,
            ErrorKind::Eof => Some("EOF while parsing"@),
            ErrorKind::ExpectedBoolean => Some("expected boolean"@),
            ErrorKind::ExpectedInteger => Some("expected integer"@),
            ErrorKind::ExpectedString => Some("expected string"@),
            ErrorKind::ExpectedChar => Some("expected character"@),
            ErrorKind::ExpectedList => Some("expected list"@),
            ErrorKind::ExpectedDict => Some("expected dictionary"@),
            ErrorKind::ExpectedStringDelim => Some("expected `:`"@),
            ErrorKind::ExpectedEnum => Some("expected enum"@),
            ErrorKind::ExpectedEnd => Some("expected `e`"@),
            ErrorKind::ExpectedSomeValue => Some("expected value"@),
            ErrorKind::MinusZero => Some("`i-0e` is invalid"@),
            ErrorKind::LeadingZero => Some("leading zeros are invalid"@),
            ErrorKind::IntegerOutOfRange => Some("integer out of range"@),
            ErrorKind::StringNotUtf8 => Some("strings must be a utf-8"@),
            ErrorKind::KeyMustBeAString => Some("key must be a string"@),
            ErrorKind::TrailingCharacters => Some("trailing characters"@),
        }
    }

    /// This kind in words.
    pub fn to_string(&self) -> (r: String)
        ensures
            self.text() matches Some(text) ==> r@ == text,
    {
        match self {
            ErrorKind::Message(msg) => msg.clone(),
            ErrorKind::Io(err) => io_error_to_string(err),
            ErrorKind::Eof => "EOF while parsing".to_owned(),
            ErrorKind::ExpectedBoolean => "expected boolean".to_owned(),
            ErrorKind::ExpectedInteger => "expected integer".to_owned(),
            ErrorKind::ExpectedString => "expected string".to_owned(),
            ErrorKind::ExpectedChar => "expected character".to_owned(),
            ErrorKind::ExpectedList => "expected list".to_owned(),
            ErrorKind::ExpectedDict => "expected dictionary".to_owned(),
            ErrorKind::ExpectedStringDelim => "expected `:`".to_owned(),
            ErrorKind::ExpectedEnum => "expected enum".to_owned(),
            ErrorKind::ExpectedEnd => "expected `e`".to_owned(),
            ErrorKind::ExpectedSomeValue => "expected value".to_owned(),
            ErrorKind::MinusZero => "`i-0e` is invalid".to_owned(),
            ErrorKind::LeadingZero => "leading zeros are invalid".to_owned(),
            ErrorKind::IntegerOutOfRange => "integer out of range".to_owned(),
            ErrorKind::StringNotUtf8 => "strings must be a utf-8".to_owned(),
            ErrorKind::KeyMustBeAString => "key must be a string".to_owned(),
            ErrorKind::TrailingCharacters => "trailing characters".to_owned(),
        }
    }
}

/// The decimal digits of `n` as characters.
pub open spec fn decimal_text(n: nat) -> Seq<char> {
    digits(n).map_values(|b: u8| b as char)
}

/// `ToString::to_string` on a `std::io::Error`, which words the failure as
/// the platform does.
#[verifier::external_body]
fn io_error_to_string(err: &std::io::Error) -> (r: String) {
    err.to_string()
}

/// `ToString::to_string` on a `usize`, which prints `n` in decimal.
#[verifier::external_body]
fn usize_to_string(n: usize) -> (r: String)
    ensures
        r@ == decimal_text(n as nat),
{
    n.to_string()
}

/// A kind together with the offset it is reported at. This is both what an
/// [`Error`] holds and what it denotes in contracts.
#[derive(Debug)]
pub struct ErrorContent {
    pub kind: ErrorKind,
    pub index: Option<usize>,
}

/// An error of the encoder or the decoder.
#[derive(Debug)]
pub struct Error {
    err: Box<ErrorContent>,
}

impl View for Error {
    type V = ErrorContent;

    closed spec fn view(&self) -> ErrorContent {
        *self.err
    }
}

/// The fault `kind` reported at byte offset `index`.
pub open spec fn fault(kind: ErrorKind, index: int) -> ErrorContent {
    ErrorContent { kind, index: Some(index as usize) }
}

impl Error {
    /// The byte offset the error is reported at, if it has one.
    pub fn index(&self) -> (r: Option<usize>)
        ensures
            r == self@.index,
    {
        self.err.index
    }

    /// What went wrong.
    pub fn kind(&self) -> (r: &ErrorKind)
        ensures
            *r == self@.kind,
    {
        &self.err.kind
    }

    /// The error in words: the kind, then the offset where there is one.
    pub fn to_string(&self) -> (r: String)
        ensures
            self@.kind.text() matches Some(text) ==> r@ == match self@.index {
                Some(index) => text + " at index "@ + decimal_text(index as nat),
                None => text,
            },
    {
        let kind = self.err.kind.to_string();
        match self.err.index {
            Some(index) => {
                let number = usize_to_string(index);
                kind.concat(" at index ").concat(number.as_str())
            },
            None => kind,
        }
    }

    /// A fault of the wire grammar, found at `index`.
    pub fn syntax(kind: ErrorKind, index: usize) -> (r: Self)
        ensures
            r@ == fault(kind, index as int),
    {
        Error { err: Box::new(ErrorContent { kind, index: Some(index) }) }
    }

    /// The input ended at `index` while more was needed.
    pub fn eof(index: usize) -> (r: Self)
        ensures
            r@ == fault(ErrorKind::Eof, index as int),
    {
        Error { err: Box::new(ErrorContent { kind: ErrorKind::Eof, index: Some(index) }) }
    }

    /// A failure of the byte sink; it has no offset.
    pub fn io(err: std::io::Error) -> (r: Self)
        ensures
            r@ == (ErrorContent { kind: ErrorKind::Io(err), index: None }),
    {
        Error { err: Box::new(ErrorContent { kind: ErrorKind::Io(err), index: None }) }
    }

    /// A failure raised above the codec, carried as text; it has no offset.
    pub fn custom(msg: String) -> (r: Self)
        ensures
            r@ == (ErrorContent { kind: ErrorKind::Message(msg), index: None }),
    {
        Error { err: Box::new(ErrorContent { kind: ErrorKind::Message(msg), index: None }) }
    }
}

} // verus!
