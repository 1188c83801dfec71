use vstd::prelude::*;
use crate::numtext::{decimal, decimal_chars};
use crate::map::text::string_from_chars;

verus! {

/// What went wrong while reading bytes.
#[derive(Debug)]
pub enum IoError {
    /// A read asked for more bytes than remain.
    UnexpectedEof,
    /// A relative seek overflowed the position.
    InvalidSeek,
    /// A text entry was not valid UTF-8.
    InvalidData,
    /// Any other read failure, with its message.
    Other(String),
}

/// Why a map could not be decoded.
#[derive(Debug)]
pub enum ParseError {
    InvalidSignature(String),
    UnsupportedVersion(u16),
    Io(IoError),
    Zip(String),
    Json(String),
    MissingEntry(String),
    InvalidFormat(String),
}

/// Mathematical model of `IoError`.
pub enum IoErrorView {
    UnexpectedEof,
    InvalidSeek,
    InvalidData,
    Other(Seq<char>),
}

/// Mathematical model of `ParseError`.
pub enum ParseErrorView {
    InvalidSignature(Seq<char>),
    UnsupportedVersion(u16),
    Io(IoErrorView),
    Zip(Seq<char>),
    Json(Seq<char>),
    MissingEntry(Seq<char>),
    InvalidFormat(Seq<char>),
}

impl View for IoError {
    type V = IoErrorView;

    open spec fn view(&self) -> IoErrorView {
        match self {
            IoError::UnexpectedEof => IoErrorView::UnexpectedEof,
            IoError::InvalidSeek => IoErrorView::InvalidSeek,
            IoError::InvalidData => IoErrorView::InvalidData,
            IoError::Other(s) => IoErrorView::Other(s@),
        }
    }
}

impl View for ParseError {
    type V = ParseErrorView;

    open spec fn view(&self) -> ParseErrorView {
        match self {
            ParseError::InvalidSignature(s) => ParseErrorView::InvalidSignature(s@),
            ParseError::UnsupportedVersion(v) => ParseErrorView::UnsupportedVersion(*v),
            ParseError::Io(e) => ParseErrorView::Io(e@),
            ParseError::Zip(s) => ParseErrorView::Zip(s@),
            ParseError::Json(s) => ParseErrorView::Json(s@),
            ParseError::MissingEntry(s) => ParseErrorView::MissingEntry(s@),
            ParseError::InvalidFormat(s) => ParseErrorView::InvalidFormat(s@),
        }
    }
}

/// The error of a read past the end of the input.
pub open spec fn eof() -> ParseErrorView {
    ParseErrorView::Io(IoErrorView::UnexpectedEof)
}

/// The model of a result whose success value has a model of its own.
pub open spec fn result_view<T: View>(r: Result<T, ParseError>) -> Result<T::V, ParseErrorView> {
    match r {
        Ok(v) => Ok(v@),
        Err(e) => Err(e@),
    }
}

pub fn eof_error() -> (e: ParseError)
    ensures
        e@ == eof(),
{
    ParseError::Io(IoError::UnexpectedEof)
}


/// The text of a read error.
pub open spec fn io_message(e: IoErrorView) -> Seq<char> {
    match e {
        IoErrorView::UnexpectedEof => "failed to fill whole buffer"@,
        IoErrorView::InvalidSeek => "invalid seek to a negative or overflowing position"@,
        IoErrorView::InvalidData => "stream did not contain valid UTF-8"@,
        IoErrorView::Other(s) => s,
    }
}

/// The text of a decoding error.
pub open spec fn error_message(e: ParseErrorView) -> Seq<char> {
    match e {
        ParseErrorView::InvalidSignature(s) => "Signature invalide: "@ + s,
        ParseErrorView::UnsupportedVersion(v) => "Version non supportée: "@ + decimal(v as nat),
        ParseErrorView::Io(io) => "Erreur I/O: "@ + io_message(io),
        ParseErrorView::Zip(s) => "Erreur ZIP: "@ + s,
        ParseErrorView::Json(s) => "Erreur JSON: "@ + s,
        ParseErrorView::MissingEntry(s) => "Entrée manquante dans l'archive: "@ + s,
        ParseErrorView::InvalidFormat(s) => "Format invalide: "@ + s,
    }
}

impl IoError {
    pub fn message(&self) -> (r: String)
        ensures
            r@ == io_message(self@),
    {
        match self {
            IoError::UnexpectedEof => String::from_str("failed to fill whole buffer"),
            IoError::InvalidSeek => String::from_str("invalid seek to a negative or overflowing position"),
            IoError::InvalidData => String::from_str("stream did not contain valid UTF-8"),
            IoError::Other(s) => s.clone(),
        }
    }
}

impl ParseError {
    /// The text that describes the error.
    pub fn message(&self) -> (r: String)
        ensures
            r@ == error_message(self@),
    {
        match self {
            ParseError::InvalidSignature(s) => String::from_str("Signature invalide: ").concat(s.as_str()),
            ParseError::UnsupportedVersion(v) => {
                let d = decimal_chars(*v as u64);
                let t = string_from_chars(d.as_slice());
                String::from_str("Version non supportée: ").concat(t.as_str())
            },
            ParseError::Io(e) => {
                let t = e.message();
                String::from_str("Erreur I/O: ").concat(t.as_str())
            },
            ParseError::Zip(s) => String::from_str("Erreur ZIP: ").concat(s.as_str()),
            ParseError::Json(s) => String::from_str("Erreur JSON: ").concat(s.as_str()),
            ParseError::MissingEntry(s) => String::from_str("Entrée manquante dans l'archive: ").concat(
                s.as_str(),
            ),
            ParseError::InvalidFormat(s) => String::from_str("Format invalide: ").concat(s.as_str()),
        }
    }
}

} // verus!
