//! The ways in which the command-line arguments can be refused.

use vstd::prelude::*;
use vstd::string::StringExecFns;

verus! {

/// Why the arguments were refused.
#[derive(Debug, PartialEq, Eq)]
pub enum ParseError {
    /// Fewer arguments than hosts, the port flag and ports.
    UsageError,
    /// A host token that is neither an address nor an address block.
    InvalidHost(String),
    /// A host token that is an address block with more addresses than
    /// one block may have.
    HostBlockTooLarge(String),
    /// A flag other than the expected one.
    InvalidArgument,
    /// A port that is not a number from 0 to 65535.
    InvalidPortNumber,
    /// A port range that does not have two ends, or whose ends are reversed.
    InvalidPortRange,
    /// The timeout flag without a value after it.
    MissingTimeoutValue,
    /// A timeout whose number is not a non-negative integer of at most 64
    /// bits.
    InvalidTimeoutValue,
    /// A timeout whose unit is neither `ms` nor `s`.
    InvalidTimeoutUnit,
}

/// A `ParseError` as contracts see it: the host token is a sequence of
/// characters.
pub enum SpecParseError {
    UsageError,
    InvalidHost(Seq<char>),
    HostBlockTooLarge(Seq<char>),
    InvalidArgument,
    InvalidPortNumber,
    InvalidPortRange,
    MissingTimeoutValue,
    InvalidTimeoutValue,
    InvalidTimeoutUnit,
}

/// `items` followed by what `more` holds, or the error in `more`.
pub open spec fn followed_by<T>(items: Seq<T>, more: Result<Seq<T>, SpecParseError>) -> Result<
    Seq<T>,
    SpecParseError,
> {
    match more {
        Ok(rest) => Ok(items + rest),
        Err(e) => Err(e),
    }
}

impl View for ParseError {
    type V = SpecParseError;

    open spec fn view(&self) -> SpecParseError {
        match self {
            ParseError::UsageError => SpecParseError::UsageError,
            ParseError::InvalidHost(t) => SpecParseError::InvalidHost(t@),
            ParseError::HostBlockTooLarge(t) => SpecParseError::HostBlockTooLarge(t@),
            ParseError::InvalidArgument => SpecParseError::InvalidArgument,
            ParseError::InvalidPortNumber => SpecParseError::InvalidPortNumber,
            ParseError::InvalidPortRange => SpecParseError::InvalidPortRange,
            ParseError::MissingTimeoutValue => SpecParseError::MissingTimeoutValue,
            ParseError::InvalidTimeoutValue => SpecParseError::InvalidTimeoutValue,
            ParseError::InvalidTimeoutUnit => SpecParseError::InvalidTimeoutUnit,
        }
    }
}

impl SpecParseError {
    /// The text shown to the user for this error.
    pub open spec fn message(self) -> Seq<char> {
        match self {
            SpecParseError::UsageError => "Usage: ./spark <ips> -p <ports> [-t <timeout>]"@,
            SpecParseError::InvalidHost(_) => "Invalid IP address or CIDR range"@,
            SpecParseError::HostBlockTooLarge(_) => "CIDR range is too large"@,
            SpecParseError::InvalidArgument => "Invalid argument"@,
            SpecParseError::InvalidPortNumber => "Invalid port number"@,
            SpecParseError::InvalidPortRange => "Invalid port range"@,
            SpecParseError::MissingTimeoutValue => "Timeout value is missing"@,
            SpecParseError::InvalidTimeoutValue => "Invalid timeout value"@,
            SpecParseError::InvalidTimeoutUnit => "Invalid timeout unit"@,
        }
    }
}

impl SpecParseError {
    /// The line printed for this error.
    pub open spec fn report_text(self) -> Seq<char> {
        "Error: "@ + self.message()
    }
}

impl ParseError {
    /// The line printed for this error.
    pub fn report_line(&self) -> (line: String)
        ensures
            line@ == self@.report_text(),
    {
        let mut line = "Error: ".to_owned();
        let text = self.message();
        line.append(text.as_str());
        line
    }

    /// The text shown to the user for this error.
    pub fn message(&self) -> (text: String)
        ensures
            text@ == self@.message(),
    {
        match self {
            ParseError::UsageError => "Usage: ./spark <ips> -p <ports> [-t <timeout>]".to_owned(),
            ParseError::InvalidHost(_) => "Invalid IP address or CIDR range".to_owned(),
            ParseError::HostBlockTooLarge(_) => "CIDR range is too large".to_owned(),
            ParseError::InvalidArgument => "Invalid argument".to_owned(),
            ParseError::InvalidPortNumber => "Invalid port number".to_owned(),
            ParseError::InvalidPortRange => "Invalid port range".to_owned(),
            ParseError::MissingTimeoutValue => "Timeout value is missing".to_owned(),
            ParseError::InvalidTimeoutValue => "Invalid timeout value".to_owned(),
            ParseError::InvalidTimeoutUnit => "Invalid timeout unit".to_owned(),
        }
    }
}

} // verus!
