//! From the raw arguments to the targets of a run.

use vstd::prelude::*;
use crate::address::Address;
use crate::error::{ParseError, SpecParseError};
use crate::hosts::{host_list, parse_hosts};
use crate::ports::{parse_ports, port_list};
use crate::text::chars_of;
use crate::timeout::{parse_timeout, timeout_millis, Timeout, DEFAULT_TIMEOUT_SECS};

verus! {

/// What a run probes: every port on every host, each attempt bounded by
/// the timeout.
#[derive(Debug, PartialEq, Eq)]
pub struct Targets {
    pub hosts: Vec<Address>,
    pub ports: Vec<u16>,
    pub timeout: Timeout,
}

/// `Targets` as contracts see them: the hosts and ports in order, and the
/// timeout in milliseconds.
pub struct SpecTargets {
    pub hosts: Seq<Address>,
    pub ports: Seq<u16>,
    pub timeout: nat,
}

impl View for Targets {
    type V = SpecTargets;

    open spec fn view(&self) -> SpecTargets {
        SpecTargets { hosts: self.hosts@, ports: self.ports@, timeout: self.timeout@ }
    }
}

/// The timeout, in milliseconds, that the optional timeout flag and value
/// stand for.
///
/// With neither, the timeout is the default. A flag must be `-t` and must
/// be followed by a value; a value cannot stand without its flag.
pub open spec fn timeout_choice(flag: Option<Seq<char>>, value: Option<Seq<char>>) -> Result<
    nat,
    SpecParseError,
> {
    match flag {
        None => match value {
            None => Ok((DEFAULT_TIMEOUT_SECS * 1000) as nat),
            Some(_) => Err(SpecParseError::InvalidArgument),
        },
        Some(f) => if f != "-t"@ {
            Err(SpecParseError::InvalidArgument)
        } else {
            match value {
                None => Err(SpecParseError::MissingTimeoutValue),
                Some(v) => timeout_millis(v),
            }
        },
    }
}

/// The targets that the argument groups resolve to. The groups are read in
/// their order, and the first one that is refused gives the error: the
/// hosts, the port flag, which must be `-p`, the ports, the timeout.
pub open spec fn resolved(
    raw_hosts: Seq<char>,
    port_flag: Seq<char>,
    raw_ports: Seq<char>,
    timeout_flag: Option<Seq<char>>,
    raw_timeout: Option<Seq<char>>,
) -> Result<SpecTargets, SpecParseError> {
    match host_list(raw_hosts) {
        Err(e) => Err(e),
        Ok(hosts) => if port_flag != "-p"@ {
            Err(SpecParseError::InvalidArgument)
        } else {
            match port_list(raw_ports) {
                Err(e) => Err(e),
                Ok(ports) => match timeout_choice(timeout_flag, raw_timeout) {
                    Err(e) => Err(e),
                    Ok(timeout) => Ok(SpecTargets { hosts, ports, timeout }),
                },
            }
        },
    }
}

/// The text of an optional argument.
pub open spec fn text_of(arg: Option<&str>) -> Option<Seq<char>> {
    match arg {
        Some(s) => Some(s@),
        None => None,
    }
}

/// Whether `s` is a dash followed by `letter`.
fn is_flag(s: &str, letter: char) -> (yes: bool)
    ensures
        yes == (s@ == seq!['-', letter]),
{
    let chars = chars_of(s);
    let yes = chars.len() == 2 && chars[0] == '-' && chars[1] == letter;
    proof {
        if yes {
            assert(s@ =~= seq!['-', letter]);
        }
    }
    yes
}

/// Resolves the optional timeout flag and value.
pub fn resolve_timeout(timeout_flag: Option<&str>, raw_timeout: Option<&str>) -> (r: Result<
    Timeout,
    ParseError,
>)
    ensures
        match r {
            Ok(t) => timeout_choice(text_of(timeout_flag), text_of(raw_timeout)) == Ok::<
                nat,
                SpecParseError,
            >(t@),
            Err(e) => timeout_choice(text_of(timeout_flag), text_of(raw_timeout)) == Err::<
                nat,
                SpecParseError,
            >(e@),
        },
{
    proof {
        reveal_strlit("-t");
    }
    match timeout_flag {
        None => match raw_timeout {
            None => Ok(Timeout::default()),
            Some(_) => Err(ParseError::InvalidArgument),
        },
        Some(flag) => {
            if !is_flag(flag, 't') {
                assert(flag@ != "-t"@) by {
                    if flag@ == "-t"@ {
                        assert(flag@ =~= seq!['-', 't']);
                    }
                }
                return Err(ParseError::InvalidArgument);
            }
            assert(flag@ =~= "-t"@);
            match raw_timeout {
                None => Err(ParseError::MissingTimeoutValue),
                Some(value) => parse_timeout(value),
            }
        },
    }
}

/// Resolves the argument groups of a run to its targets, or says why they
/// are refused. Nothing is probed and nothing else is touched.
pub fn resolve(
    raw_hosts: &str,
    port_flag: &str,
    raw_ports: &str,
    timeout_flag: Option<&str>,
    raw_timeout: Option<&str>,
) -> (r: Result<Targets, ParseError>)
    ensures
        match r {
            Ok(targets) => resolved(
                raw_hosts@,
                port_flag@,
                raw_ports@,
                text_of(timeout_flag),
                text_of(raw_timeout),
            ) == Ok::<SpecTargets, SpecParseError>(targets@) && targets@.hosts.no_duplicates(),
            Err(e) => resolved(
                raw_hosts@,
                port_flag@,
                raw_ports@,
                text_of(timeout_flag),
                text_of(raw_timeout),
            ) == Err::<SpecTargets, SpecParseError>(e@),
        },
{
    proof {
        reveal_strlit("-p");
    }
    let hosts = match parse_hosts(raw_hosts) {
        Ok(hosts) => hosts,
        Err(e) => {
            return Err(e);
        },
    };
    if !is_flag(port_flag, 'p') {
        assert(port_flag@ != "-p"@) by {
            if port_flag@ == "-p"@ {
                assert(port_flag@ =~= seq!['-', 'p']);
            }
        }
        return Err(ParseError::InvalidArgument);
    }
    assert(port_flag@ =~= "-p"@);
    let ports = match parse_ports(raw_ports) {
        Ok(ports) => ports,
        Err(e) => {
            return Err(e);
        },
    };
    let timeout = match resolve_timeout(timeout_flag, raw_timeout) {
        Ok(timeout) => timeout,
        Err(e) => {
            return Err(e);
        },
    };
    Ok(Targets { hosts, ports, timeout })
}

/// The text of the argument at `i`, if there is one.
pub open spec fn arg_at(args: Seq<String>, i: int) -> Option<Seq<char>> {
    if 0 <= i < args.len() {
        Some(args[i]@)
    } else {
        None
    }
}

/// The targets that a whole argument list resolves to. The list starts
/// with the program's name; hosts, port flag and ports follow, then
/// optionally the timeout flag and value. Fewer than four entries are a
/// usage error, and entries after the sixth are not looked at.
pub open spec fn resolved_args(args: Seq<String>) -> Result<SpecTargets, SpecParseError> {
    if args.len() < 4 {
        Err(SpecParseError::UsageError)
    } else {
        resolved(args[1]@, args[2]@, args[3]@, arg_at(args, 4), arg_at(args, 5))
    }
}

/// Resolves the argument list of the program, its name first, to the
/// targets of the run, or says why it is refused.
pub fn parse_args(args: &Vec<String>) -> (r: Result<Targets, ParseError>)
    ensures
        match r {
            Ok(targets) => resolved_args(args@) == Ok::<SpecTargets, SpecParseError>(targets@)
                && targets@.hosts.no_duplicates(),
            Err(e) => resolved_args(args@) == Err::<SpecTargets, SpecParseError>(e@),
        },
{
    let n: usize = args.len();
    if n < 4 {
        return Err(ParseError::UsageError);
    }
    let timeout_flag: Option<&str> = if n > 4 {
        Some(args[4].as_str())
    } else {
        None
    };
    let raw_timeout: Option<&str> = if n > 5 {
        Some(args[5].as_str())
    } else {
        None
    };
    resolve(args[1].as_str(), args[2].as_str(), args[3].as_str(), timeout_flag, raw_timeout)
}

} // verus!
