//! What can go wrong in a conversion.

use vstd::prelude::*;
use vstd::string::StringExecFns;

verus! {

/// Why a field did not read as a number between 0 and 255.
#[derive(Debug, Copy, Clone, Eq, PartialEq, Structural)]
pub enum ParseIntKind {
    /// The field holds no digits.
    Empty,
    /// The field holds something other than decimal digits.
    InvalidDigit,
    /// The number is above 255.
    PosOverflow,
}

/// An error of a conversion from ANSI text to HTML.
#[derive(Debug, Clone)]
pub enum Error {
    /// A field of an escape sequence did not read as a number.
    ParseInt(ParseIntKind),
    /// The escape sequence holds a code, or a run of codes, that has no meaning.
    InvalidAnsi { msg: String },
}

/// What an error holds, as plain values.
pub enum ErrorView {
    ParseInt(ParseIntKind),
    InvalidAnsi { msg: Seq<char> },
}

impl View for Error {
    type V = ErrorView;

    open spec fn view(&self) -> ErrorView {
        match *self {
            Error::ParseInt(kind) => ErrorView::ParseInt(kind),
            Error::InvalidAnsi { msg } => ErrorView::InvalidAnsi { msg: msg@ },
        }
    }
}

/// The text of one decimal digit.
pub open spec fn digit_text(d: int) -> Seq<char> {
    if d == 0 {
        "0"@
    } else if d == 1 {
        "1"@
    } else if d == 2 {
        "2"@
    } else if d == 3 {
        "3"@
    } else if d == 4 {
        "4"@
    } else if d == 5 {
        "5"@
    } else if d == 6 {
        "6"@
    } else if d == 7 {
        "7"@
    } else if d == 8 {
        "8"@
    } else {
        "9"@
    }
}

/// A number in decimal, without leading zeros.
pub open spec fn decimal_text(n: nat) -> Seq<char>
    decreases n,
{
    if n < 10 {
        digit_text(n as int)
    } else {
        decimal_text(n / 10) + digit_text((n % 10) as int)
    }
}

/// The text that describes why a number did not parse.
pub open spec fn parse_int_text(kind: ParseIntKind) -> Seq<char> {
    match kind {
        ParseIntKind::Empty => "cannot parse integer from empty string"@,
        ParseIntKind::InvalidDigit => "invalid digit found in string"@,
        ParseIntKind::PosOverflow => "number too large to fit in target type"@,
    }
}

/// The text that describes an error.
pub open spec fn error_text(e: ErrorView) -> Seq<char> {
    match e {
        ErrorView::ParseInt(kind) => parse_int_text(kind),
        ErrorView::InvalidAnsi { msg } => "Invalid ANSI: "@ + msg,
    }
}

/// The error that names a number without meaning, between two pieces of text.
pub open spec fn invalid_code_view(before: Seq<char>, code: u8, after: Seq<char>) -> ErrorView {
    ErrorView::InvalidAnsi { msg: before + decimal_text(code as nat) + after }
}

/// The error that a description stands for.
pub open spec fn invalid_ansi_view(msg: Seq<char>) -> ErrorView {
    ErrorView::InvalidAnsi { msg }
}

fn digit(d: u8) -> (text: &'static str)
    requires
        d < 10,
    ensures
        text@ == digit_text(d as int),
{
    if d == 0 {
        "0"
    } else if d == 1 {
        "1"
    } else if d == 2 {
        "2"
    } else if d == 3 {
        "3"
    } else if d == 4 {
        "4"
    } else if d == 5 {
        "5"
    } else if d == 6 {
        "6"
    } else if d == 7 {
        "7"
    } else if d == 8 {
        "8"
    } else {
        "9"
    }
}

/// Writes a number in decimal.
pub fn decimal(n: u8) -> (text: String)
    ensures
        text@ == decimal_text(n as nat),
{
    let mut text = String::new();
    if n >= 100 {
        text.append(digit(n / 100));
    }
    if n >= 10 {
        text.append(digit((n / 10) % 10));
    }
    text.append(digit(n % 10));
    proof {
        reveal_with_fuel(decimal_text, 3);
        if n >= 100 {
            assert((n as nat / 10) / 10 == n as nat / 100);
        }
    }
    text
}

impl Error {
    /// An error for an escape sequence without meaning: the number `code`
    /// between `before` and `after`.
    pub fn invalid_code(before: &str, code: u8, after: &str) -> (e: Error)
        ensures
            e@ == invalid_code_view(before@, code, after@),
    {
        let mut msg = String::from_str(before);
        let number = decimal(code);
        msg.append(number.as_str());
        msg.append(after);
        Error::InvalidAnsi { msg }
    }

    /// An error for an escape sequence without meaning, described by `s`.
    pub fn invalid_ansi(s: &str) -> (e: Error)
        ensures
            e@ == invalid_ansi_view(s@),
    {
        Error::InvalidAnsi { msg: String::from_str(s) }
    }

    /// The text that describes the error.
    pub fn message(&self) -> (text: String)
        ensures
            text@ == error_text(self@),
    {
        match self {
            Error::ParseInt(kind) => {
                match kind {
                    ParseIntKind::Empty => String::from_str(
                        "cannot parse integer from empty string",
                    ),
                    ParseIntKind::InvalidDigit => String::from_str("invalid digit found in string"),
                    ParseIntKind::PosOverflow => String::from_str(
                        "number too large to fit in target type",
                    ),
                }
            },
            Error::InvalidAnsi { msg } => {
                let mut text = String::from_str("Invalid ANSI: ");
                text.append(msg.as_str());
                text
            },
        }
    }
}

} // verus!
