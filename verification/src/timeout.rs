//! The timeout argument: a number followed by `ms` or `s`.

use vstd::prelude::*;
use vstd::slice::slice_subrange;
use crate::error::{ParseError, SpecParseError};
use crate::text::{chars_of, decimal_within, parse_number};

verus! {

/// Seconds waited for a connection when no timeout is given.
pub const DEFAULT_TIMEOUT_SECS: u64 = 2;

/// How long one connection attempt may take. Its view is the length in
/// milliseconds.
#[derive(Debug, Clone, Copy, PartialEq, Eq)]
pub struct Timeout {
    secs: u64,
    millis: u16,
}

impl View for Timeout {
    type V = nat;

    closed spec fn view(&self) -> nat {
        (self.secs * 1000 + self.millis) as nat
    }
}

impl Timeout {
    #[verifier::type_invariant]
    spec fn well_formed(self) -> bool {
        self.millis < 1000
    }

    /// A timeout of `secs` seconds.
    pub fn from_secs(secs: u64) -> (t: Timeout)
        ensures
            t@ == secs * 1000,
    {
        Timeout { secs, millis: 0 }
    }

    /// A timeout of `millis` milliseconds.
    pub fn from_millis(millis: u64) -> (t: Timeout)
        ensures
            t@ == millis,
    {
        Timeout { secs: millis / 1000, millis: (millis % 1000) as u16 }
    }

    /// The whole seconds of the timeout.
    pub fn secs(&self) -> (s: u64)
        ensures
            s == self@ / 1000,
    {
        proof {
            use_type_invariant(self);
        }
        self.secs
    }

    /// The milliseconds beyond the whole seconds, below 1000.
    pub fn subsec_millis(&self) -> (m: u16)
        ensures
            m == self@ % 1000,
    {
        proof {
            use_type_invariant(self);
        }
        self.millis
    }

    /// The timeout in milliseconds.
    pub fn as_millis(&self) -> (m: u128)
        ensures
            m == self@,
    {
        proof {
            use_type_invariant(self);
        }
        self.secs as u128 * 1000 + self.millis as u128
    }
}

impl Default for Timeout {
    /// The timeout used when none is given: two seconds.
    fn default() -> (t: Timeout)
        ensures
            t@ == DEFAULT_TIMEOUT_SECS * 1000,
    {
        Timeout::from_secs(DEFAULT_TIMEOUT_SECS)
    }
}

/// `s` ends with the characters of `suffix`.
pub open spec fn ends_with(s: Seq<char>, suffix: Seq<char>) -> bool {
    s.len() >= suffix.len() && s.subrange(s.len() - suffix.len(), s.len() as int) == suffix
}

/// `s` without its last `n` characters.
pub open spec fn without_suffix(s: Seq<char>, n: int) -> Seq<char> {
    s.subrange(0, s.len() - n)
}

/// The number of milliseconds that a timeout argument stands for.
///
/// The argument is an unsigned decimal number, which fits in 64 bits,
/// directly followed by a unit: `ms` for milliseconds or `s` for seconds.
/// A text that ends in neither unit has an invalid unit; one that ends in a
/// unit after anything but such a number has an invalid value.
pub open spec fn timeout_millis(s: Seq<char>) -> Result<nat, SpecParseError> {
    if ends_with(s, seq!['m', 's']) {
        match decimal_within(without_suffix(s, 2), u64::MAX as nat) {
            Some(v) => Ok(v),
            None => Err(SpecParseError::InvalidTimeoutValue),
        }
    } else if ends_with(s, seq!['s']) {
        match decimal_within(without_suffix(s, 1), u64::MAX as nat) {
            Some(v) => Ok(v * 1000),
            None => Err(SpecParseError::InvalidTimeoutValue),
        }
    } else {
        Err(SpecParseError::InvalidTimeoutUnit)
    }
}

/// Resolves a timeout argument given as characters.
pub fn parse_timeout_chars(s: &[char]) -> (r: Result<Timeout, ParseError>)
    ensures
        match r {
            Ok(t) => timeout_millis(s@) == Ok::<nat, SpecParseError>(t@),
            Err(e) => timeout_millis(s@) == Err::<nat, SpecParseError>(e@),
        },
{
    let n: usize = s.len();
    if n >= 2 && s[n - 2] == 'm' && s[n - 1] == 's' {
        assert(s@.subrange(n - 2, n as int) == seq!['m', 's']);
        match parse_number(slice_subrange(s, 0, n - 2), u64::MAX) {
            Some(v) => Ok(Timeout::from_millis(v)),
            None => Err(ParseError::InvalidTimeoutValue),
        }
    } else if n >= 1 && s[n - 1] == 's' {
        assert(s@.subrange(n - 1, n as int) == seq!['s']);
        proof {
            if n >= 2 {
                assert(s@.subrange(n - 2, n as int)[0] == s@[n - 2]);
                assert(s@.subrange(n - 2, n as int)[1] == s@[n - 1]);
            }
        }
        match parse_number(slice_subrange(s, 0, n - 1), u64::MAX) {
            Some(v) => Ok(Timeout::from_secs(v)),
            None => Err(ParseError::InvalidTimeoutValue),
        }
    } else {
        proof {
            if n >= 1 {
                assert(s@.subrange(n - 1, n as int)[0] == s@[n - 1]);
            }
            if n >= 2 {
                assert(s@.subrange(n - 2, n as int)[1] == s@[n - 1]);
            }
        }
        Err(ParseError::InvalidTimeoutUnit)
    }
}

/// Resolves a timeout argument such as `500ms` or `3s`, or says why it is
/// refused.
pub fn parse_timeout(s: &str) -> (r: Result<Timeout, ParseError>)
    ensures
        match r {
            Ok(t) => timeout_millis(s@) == Ok::<nat, SpecParseError>(t@),
            Err(e) => timeout_millis(s@) == Err::<nat, SpecParseError>(e@),
        },
{
    let chars = chars_of(s);
    parse_timeout_chars(chars.as_slice())
}

} // verus!
