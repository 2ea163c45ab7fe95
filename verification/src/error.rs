//! The error type shared by every part of the library.

use vstd::prelude::*;
use vstd::string::*;

use crate::stream::state::StreamState;

verus! {

/// Why a text is no 64-bit signed integer.
#[derive(Debug, Clone, Copy, PartialEq, Eq, Structural)]
pub enum IntErrorKind {
    /// The text is empty.
    Empty,
    /// A character is no decimal digit, or a sign stands alone.
    InvalidDigit,
    /// The number is too large.
    PosOverflow,
    /// The number is too small.
    NegOverflow,
}

/// Why a text is no floating-point number.
#[derive(Debug, Clone, Copy, PartialEq, Eq, Structural)]
pub enum FloatErrorKind {
    /// The text is empty.
    Empty,
    /// The text is no floating-point literal.
    Invalid,
}

/// Why a text is no RFC 3339 date and time.
#[derive(Debug, Clone, Copy, PartialEq, Eq, Structural)]
pub enum DateErrorKind {
    OutOfRange,
    Impossible,
    NotEnough,
    Invalid,
    TooShort,
    TooLong,
    BadFormat,
}

/// Everything that can go wrong while streaming, reading or writing a log.
#[derive(Debug)]
pub enum Error {
    /// An element arrived that belongs before what was already seen.
    StateError { got: StreamState, current: StreamState },
    StreamError(String),
    ValidationError(String),
    KeyError(String),
    XMLError(String),
    /// The text is neither `true` nor `false`.
    ParseBooleanError(String),
    ParseIntError(IntErrorKind),
    ParseFloatError(FloatErrorKind),
    FromUtf8Error(String),
    ParseDateTimeError(DateErrorKind),
    XesError(String),
    ChannelError(String),
}

/// What an [`Error`] denotes.
pub enum ErrorView {
    StateError { got: StreamState, current: StreamState },
    StreamError(Seq<char>),
    ValidationError(Seq<char>),
    KeyError(Seq<char>),
    XMLError(Seq<char>),
    ParseBooleanError(Seq<char>),
    ParseIntError(IntErrorKind),
    ParseFloatError(FloatErrorKind),
    FromUtf8Error(Seq<char>),
    ParseDateTimeError(DateErrorKind),
    XesError(Seq<char>),
    ChannelError(Seq<char>),
}

impl IntErrorKind {
    /// The message that goes with the kind.
    pub open spec fn message(self) -> Seq<char> {
        match self {
            IntErrorKind::Empty => "cannot parse integer from empty string"@,
            IntErrorKind::InvalidDigit => "invalid digit found in string"@,
            IntErrorKind::PosOverflow => "number too large to fit in target type"@,
            IntErrorKind::NegOverflow => "number too small to fit in target type"@,
        }
    }

    /// The message that goes with the kind.
    pub fn describe(&self) -> (r: &'static str)
        ensures
            r@ == self.message(),
    {
        match self {
            IntErrorKind::Empty => "cannot parse integer from empty string",
            IntErrorKind::InvalidDigit => "invalid digit found in string",
            IntErrorKind::PosOverflow => "number too large to fit in target type",
            IntErrorKind::NegOverflow => "number too small to fit in target type",
        }
    }
}

impl FloatErrorKind {
    /// The message that goes with the kind.
    pub open spec fn message(self) -> Seq<char> {
        match self {
            FloatErrorKind::Empty => "cannot parse float from empty string"@,
            FloatErrorKind::Invalid => "invalid float literal"@,
        }
    }

    /// The message that goes with the kind.
    pub fn describe(&self) -> (r: &'static str)
        ensures
            r@ == self.message(),
    {
        match self {
            FloatErrorKind::Empty => "cannot parse float from empty string",
            FloatErrorKind::Invalid => "invalid float literal",
        }
    }
}

impl DateErrorKind {
    /// The message that goes with the kind.
    pub open spec fn message(self) -> Seq<char> {
        match self {
            DateErrorKind::OutOfRange => "input is out of range"@,
            DateErrorKind::Impossible => "no possible date and time matching input"@,
            DateErrorKind::NotEnough => "input is not enough for unique date and time"@,
            DateErrorKind::Invalid => "input contains invalid characters"@,
            DateErrorKind::TooShort => "premature end of input"@,
            DateErrorKind::TooLong => "trailing input"@,
            DateErrorKind::BadFormat => "bad or unsupported format string"@,
        }
    }

    /// The message that goes with the kind.
    pub fn describe(&self) -> (r: &'static str)
        ensures
            r@ == self.message(),
    {
        match self {
            DateErrorKind::OutOfRange => "input is out of range",
            DateErrorKind::Impossible => "no possible date and time matching input",
            DateErrorKind::NotEnough => "input is not enough for unique date and time",
            DateErrorKind::Invalid => "input contains invalid characters",
            DateErrorKind::TooShort => "premature end of input",
            DateErrorKind::TooLong => "trailing input",
            DateErrorKind::BadFormat => "bad or unsupported format string",
        }
    }
}

impl View for Error {
    type V = ErrorView;

    open spec fn view(&self) -> ErrorView {
        match self {
            Error::StateError { got, current } => ErrorView::StateError {
                got: *got,
                current: *current,
            },
            Error::StreamError(s) => ErrorView::StreamError(s@),
            Error::ValidationError(s) => ErrorView::ValidationError(s@),
            Error::KeyError(s) => ErrorView::KeyError(s@),
            Error::XMLError(s) => ErrorView::XMLError(s@),
            Error::ParseBooleanError(s) => ErrorView::ParseBooleanError(s@),
            Error::ParseIntError(k) => ErrorView::ParseIntError(*k),
            Error::ParseFloatError(k) => ErrorView::ParseFloatError(*k),
            Error::FromUtf8Error(s) => ErrorView::FromUtf8Error(s@),
            Error::ParseDateTimeError(k) => ErrorView::ParseDateTimeError(*k),
            Error::XesError(s) => ErrorView::XesError(s@),
            Error::ChannelError(s) => ErrorView::ChannelError(s@),
        }
    }
}

impl ErrorView {
    /// The error as a line of text.
    pub open spec fn message(self) -> Seq<char> {
        match self {
            ErrorView::StateError { got, current } =>
                "state order violation: cannot go back into "@ + got.name() + " when in "@
                    + current.name(),
            ErrorView::StreamError(s) => "Stream Error: "@ + s,
            ErrorView::ValidationError(s) => "Validation Error: "@ + s,
            ErrorView::KeyError(s) => "key error "@ + s + " not found"@,
            ErrorView::XMLError(s) => s,
            ErrorView::ParseBooleanError(s) => "cannot parse "@ + s + " to boolean"@,
            ErrorView::ParseIntError(k) => k.message(),
            ErrorView::ParseFloatError(k) => k.message(),
            ErrorView::FromUtf8Error(s) => s,
            ErrorView::ParseDateTimeError(k) => k.message(),
            ErrorView::XesError(s) => s,
            ErrorView::ChannelError(s) => s,
        }
    }
}

impl Clone for Error {
    fn clone(&self) -> (r: Self)
        ensures
            r@ == self@,
    {
        match self {
            Error::StateError { got, current } => Error::StateError {
                got: *got,
                current: *current,
            },
            Error::StreamError(s) => Error::StreamError(s.clone()),
            Error::ValidationError(s) => Error::ValidationError(s.clone()),
            Error::KeyError(s) => Error::KeyError(s.clone()),
            Error::XMLError(s) => Error::XMLError(s.clone()),
            Error::ParseBooleanError(s) => Error::ParseBooleanError(s.clone()),
            Error::ParseIntError(k) => Error::ParseIntError(*k),
            Error::ParseFloatError(k) => Error::ParseFloatError(*k),
            Error::FromUtf8Error(s) => Error::FromUtf8Error(s.clone()),
            Error::ParseDateTimeError(k) => Error::ParseDateTimeError(*k),
            Error::XesError(s) => Error::XesError(s.clone()),
            Error::ChannelError(s) => Error::ChannelError(s.clone()),
        }
    }
}

impl Error {
    /// The error as a line of text.
    pub fn to_string(&self) -> (r: String)
        ensures
            r@ == self@.message(),
    {
        match self {
            Error::StateError { got, current } => String::from_str(
                "state order violation: cannot go back into ",
            ).concat(got.label()).concat(" when in ").concat(current.label()),
            Error::StreamError(s) => String::from_str("Stream Error: ").concat(s.as_str()),
            Error::ValidationError(s) => String::from_str("Validation Error: ").concat(s.as_str()),
            Error::KeyError(s) => String::from_str("key error ").concat(s.as_str()).concat(
                " not found",
            ),
            Error::XMLError(s) => s.clone(),
            Error::ParseBooleanError(s) => String::from_str("cannot parse ").concat(
                s.as_str(),
            ).concat(" to boolean"),
            Error::ParseIntError(k) => String::from_str(k.describe()),
            Error::ParseFloatError(k) => String::from_str(k.describe()),
            Error::FromUtf8Error(s) => s.clone(),
            Error::ParseDateTimeError(k) => String::from_str(k.describe()),
            Error::XesError(s) => s.clone(),
            Error::ChannelError(s) => s.clone(),
        }
    }
}

} // verus!
