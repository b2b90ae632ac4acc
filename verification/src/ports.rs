//! The port argument: a comma-separated list of ports and port ranges.

use vstd::prelude::*;
use crate::error::{followed_by, ParseError, SpecParseError};
use crate::text::{
    chars_of, cut, decimal_within, join, lemma_split_concat, lemma_split_first, lemma_split_join,
    parse_number, split,
};

verus! {

/// The greatest port number.
pub const MAX_PORT: u16 = 65535;

/// The ports from `first` to `last`, both included, in rising order.
pub open spec fn port_range(first: nat, last: nat) -> Seq<u16> {
    Seq::new((last - first + 1) as nat, |i: int| (first + i) as u16)
}

/// The ports that one token of the list stands for.
///
/// A token without a dash is one port number. A token with a dash is a
/// range: exactly two port numbers around one dash, the first no greater
/// than the second. A port number is an unsigned decimal number up to 65535.
pub open spec fn port_token(tok: Seq<char>) -> Result<Seq<u16>, SpecParseError> {
    if tok.contains('-') {
        let ends = split(tok, '-');
        if ends.len() != 2 {
            Err(SpecParseError::InvalidPortRange)
        } else {
            match (decimal_within(ends[0], MAX_PORT as nat), decimal_within(ends[1], MAX_PORT as nat)) {
                (Some(first), Some(last)) => if first <= last {
                    Ok(port_range(first, last))
                } else {
                    Err(SpecParseError::InvalidPortRange)
                },
                _ => Err(SpecParseError::InvalidPortNumber),
            }
        }
    } else {
        match decimal_within(tok, MAX_PORT as nat) {
            Some(p) => Ok(seq![p as u16]),
            None => Err(SpecParseError::InvalidPortNumber),
        }
    }
}

/// The ports of each token in turn, one after the other; the error of the
/// first token that has one.
pub open spec fn port_tokens(tokens: Seq<Seq<char>>) -> Result<Seq<u16>, SpecParseError>
    decreases tokens.len(),
{
    if tokens.len() == 0 {
        Ok(Seq::empty())
    } else {
        match port_token(tokens[0]) {
            Ok(ports) => followed_by(ports, port_tokens(tokens.drop_first())),
            Err(e) => Err(e),
        }
    }
}

/// The ports that a port argument resolves to. Ports are kept in the order
/// written, and a port written twice occurs twice.
pub open spec fn port_list(s: Seq<char>) -> Result<Seq<u16>, SpecParseError> {
    port_tokens(split(s, ','))
}

/// The ports of tokens taken together are the ports of the first tokens
/// followed by the ports of the later ones.
pub proof fn lemma_port_tokens_concat(x: Seq<Seq<char>>, y: Seq<Seq<char>>)
    ensures
        port_tokens(x + y) == match port_tokens(x) {
            Ok(ports) => followed_by(ports, port_tokens(y)),
            Err(e) => Err(e),
        },
    decreases x.len(),
{
    if x.len() == 0 {
        assert(x + y == y);
        if port_tokens(y) is Ok {
            assert(Seq::<u16>::empty() + port_tokens(y)->Ok_0 == port_tokens(y)->Ok_0);
        }
    } else {
        let rest = x.drop_first();
        assert((x + y)[0] == x[0]);
        assert((x + y).drop_first() == rest + y);
        lemma_port_tokens_concat(rest, y);
        if port_token(x[0]) is Ok && port_tokens(rest) is Ok && port_tokens(y) is Ok {
            let a = port_token(x[0])->Ok_0;
            let b = port_tokens(rest)->Ok_0;
            let c = port_tokens(y)->Ok_0;
            assert(a + (b + c) == (a + b) + c);
        }
    }
}

/// Two port arguments joined by a comma resolve to the ports of the first
/// followed by the ports of the second, and to the error of the first of
/// the two that has one.
pub proof fn lemma_port_list_concat(a: Seq<char>, b: Seq<char>)
    ensures
        port_list(a + seq![','] + b) == match port_list(a) {
            Ok(ports) => followed_by(ports, port_list(b)),
            Err(e) => Err(e),
        },
{
    lemma_split_concat(a, b, ',');
    lemma_port_tokens_concat(split(a, ','), split(b, ','));
}

/// What each of `tokens` stands for, where every one of them is accepted.
pub open spec fn expansions(tokens: Seq<Seq<char>>) -> Seq<Seq<u16>> {
    tokens.map_values(|t: Seq<char>| port_token(t)->Ok_0)
}

/// A comma-separated list of accepted tokens resolves to exactly the
/// expansion of each token, one after the other in the order written, with
/// nothing dropped and nothing merged.
pub proof fn lemma_port_list_is_concatenation(tokens: Seq<Seq<char>>)
    requires
        tokens.len() >= 1,
        forall|i: int| 0 <= i < tokens.len() ==> !(#[trigger] tokens[i]).contains(','),
        forall|i: int| 0 <= i < tokens.len() ==> port_token(#[trigger] tokens[i]) is Ok,
    ensures
        port_list(join(tokens, ',')) == Ok::<Seq<u16>, SpecParseError>(
            expansions(tokens).flatten(),
        ),
{
    lemma_split_join(tokens, ',');
    lemma_port_tokens_flatten(tokens);
}

/// Accepted tokens resolve to their expansions laid end to end.
pub proof fn lemma_port_tokens_flatten(tokens: Seq<Seq<char>>)
    requires
        forall|i: int| 0 <= i < tokens.len() ==> port_token(#[trigger] tokens[i]) is Ok,
    ensures
        port_tokens(tokens) == Ok::<Seq<u16>, SpecParseError>(expansions(tokens).flatten()),
    decreases tokens.len(),
{
    if tokens.len() == 0 {
        assert(expansions(tokens) == Seq::<Seq<u16>>::empty());
    } else {
        let rest = tokens.drop_first();
        assert forall|i: int| 0 <= i < rest.len() implies port_token(#[trigger] rest[i]) is Ok by {
            assert(rest[i] == tokens[i + 1]);
        }
        lemma_port_tokens_flatten(rest);
        assert(expansions(tokens).drop_first() == expansions(rest));
        assert(expansions(tokens).first() == port_token(tokens[0])->Ok_0);
    }
}

/// Appends the ports of one token to `out`; leaves `out` as it was when the
/// token is refused.
pub fn parse_port_token(tok: &[char], out: &mut Vec<u16>) -> (r: Result<(), ParseError>)
    ensures
        match r {
            Ok(_) => followed_by(old(out)@, port_token(tok@)) == Ok::<Seq<u16>, SpecParseError>(
                final(out)@,
            ),
            Err(e) => port_token(tok@) == Err::<Seq<u16>, SpecParseError>(e@) && final(out)@ == old(
                out,
            )@,
        },
{
    let (head, rest) = cut(tok, '-');
    match rest {
        None => match parse_number(tok, MAX_PORT as u64) {
            Some(p) => {
                out.push(p as u16);
                assert(out@ == old(out)@ + seq![p as u16]);
                Ok(())
            },
            None => Err(ParseError::InvalidPortNumber),
        },
        Some(tail) => {
            let (_, third) = cut(tail, '-');
            if third.is_some() {
                proof {
                    lemma_split_first(third.unwrap()@, '-');
                    assert(split(tok@, '-').len() >= 3);
                }
                return Err(ParseError::InvalidPortRange);
            }
            assert(split(tok@, '-') == seq![head@, tail@]) by {
                assert(seq![head@] + seq![tail@] =~= seq![head@, tail@]);
            }
            let first: u64 = match parse_number(head, MAX_PORT as u64) {
                Some(v) => v,
                None => {
                    return Err(ParseError::InvalidPortNumber);
                },
            };
            let last: u64 = match parse_number(tail, MAX_PORT as u64) {
                Some(v) => v,
                None => {
                    return Err(ParseError::InvalidPortNumber);
                },
            };
            if first > last {
                return Err(ParseError::InvalidPortRange);
            }
            let mut p: u64 = first;
            while p <= last
                invariant
                    first <= p <= last + 1,
                    last <= MAX_PORT,
                    out@ == old(out)@ + port_range(first as nat, last as nat).subrange(
                        0,
                        p - first,
                    ),
                decreases last + 1 - p,
            {
                out.push(p as u16);
                p += 1;
            }
            assert(port_range(first as nat, last as nat).subrange(0, p - first) == port_range(
                first as nat,
                last as nat,
            ));
            Ok(())
        },
    }
}

/// Resolves a port argument given as characters.
pub fn parse_port_chars(s: &[char]) -> (r: Result<Vec<u16>, ParseError>)
    ensures
        match r {
            Ok(ports) => port_list(s@) == Ok::<Seq<u16>, SpecParseError>(ports@),
            Err(e) => port_list(s@) == Err::<Seq<u16>, SpecParseError>(e@),
        },
{
    let mut out: Vec<u16> = Vec::new();
    let mut rest: &[char] = s;
    loop
        invariant
            port_list(s@) == followed_by(out@, port_list(rest@)),
        decreases rest@.len(),
    {
        let (tok, after) = cut(rest, ',');
        let ghost before = out@;
        let ghost tokens = split(rest@, ',');
        match parse_port_token(tok, &mut out) {
            Err(e) => {
                return Err(e);
            },
            Ok(_) => {},
        }
        match after {
            None => {
                proof {
                    assert(tokens == seq![tok@]);
                    assert(tokens[0] == tok@);
                    assert(tokens.drop_first() == Seq::<Seq<char>>::empty());
                    assert(port_tokens(tokens.drop_first()) == Ok::<Seq<u16>, SpecParseError>(
                        Seq::empty(),
                    ));
                    assert(port_token(tok@)->Ok_0 + Seq::<u16>::empty() == port_token(tok@)->Ok_0);
                }
                return Ok(out);
            },
            Some(more) => {
                proof {
                    assert(tokens[0] == tok@);
                    assert(tokens.drop_first() == split(more@, ','));
                    let a = port_token(tok@)->Ok_0;
                    let b = port_list(more@);
                    if b is Ok {
                        assert(before + (a + b->Ok_0) == (before + a) + b->Ok_0);
                    }
                }
                rest = more;
            },
        }
    }
}

/// Resolves a port argument such as `443,80,8000-8002` to the ports it
/// names, or says why it is refused.
pub fn parse_ports(s: &str) -> (r: Result<Vec<u16>, ParseError>)
    ensures
        match r {
            Ok(ports) => port_list(s@) == Ok::<Seq<u16>, SpecParseError>(ports@),
            Err(e) => port_list(s@) == Err::<Seq<u16>, SpecParseError>(e@),
        },
{
    let chars = chars_of(s);
    parse_port_chars(chars.as_slice())
}

} // verus!
