//! The host argument: a comma-separated list of addresses and address
//! blocks.

use vstd::prelude::*;
use std::collections::HashSet;
use crate::address::{address_value, parse_address, Address};
use crate::block::{block_addresses, block_value, parse_block, MAX_HOST_BITS};
use crate::error::{followed_by, ParseError, SpecParseError};
use crate::text::{chars_of, cut, split};

verus! {

/// The addresses that one token of the list stands for.
///
/// A token is tried as a single address first and as an address block
/// second. A block stands for all of its addresses, unless it has more
/// than `MAX_HOST_BITS` host bits, in which case it is refused as too
/// large. A token that is neither is refused as invalid.
pub open spec fn host_token(tok: Seq<char>) -> Result<Seq<Address>, SpecParseError> {
    match address_value(tok) {
        Some(a) => Ok(seq![a]),
        None => match block_value(tok) {
            Some((base, prefix)) => if base.bits() - prefix <= MAX_HOST_BITS {
                Ok(block_addresses(base, prefix))
            } else {
                Err(SpecParseError::HostBlockTooLarge(tok))
            },
            None => Err(SpecParseError::InvalidHost(tok)),
        },
    }
}

/// The addresses of each token in turn, one after the other; the error of
/// the first token that has one.
pub open spec fn host_tokens(tokens: Seq<Seq<char>>) -> Result<Seq<Address>, SpecParseError>
    decreases tokens.len(),
{
    if tokens.len() == 0 {
        Ok(Seq::empty())
    } else {
        match host_token(tokens[0]) {
            Ok(hosts) => followed_by(hosts, host_tokens(tokens.drop_first())),
            Err(e) => Err(e),
        }
    }
}

/// `s` with every address kept where it first occurs and dropped where it
/// occurs again.
pub open spec fn distinct(s: Seq<Address>) -> Seq<Address>
    decreases s.len(),
{
    if s.len() == 0 {
        Seq::empty()
    } else {
        let before = distinct(s.drop_last());
        if before.contains(s.last()) {
            before
        } else {
            before.push(s.last())
        }
    }
}

/// The hosts that a host argument resolves to: the addresses of its
/// tokens in the order written, each address once.
pub open spec fn host_list(s: Seq<char>) -> Result<Seq<Address>, SpecParseError> {
    match host_tokens(split(s, ',')) {
        Ok(all) => Ok(distinct(all)),
        Err(e) => Err(e),
    }
}

/// `distinct` holds the same addresses as its argument, each of them once.
pub proof fn lemma_distinct(s: Seq<Address>)
    ensures
        distinct(s).no_duplicates(),
        forall|a: Address| distinct(s).contains(a) <==> s.contains(a),
        distinct(s).len() <= s.len(),
    decreases s.len(),
{
    if s.len() > 0 {
        let front = s.drop_last();
        let before = distinct(front);
        let last = s.last();
        lemma_distinct(front);
        assert forall|a: Address| distinct(s).contains(a) <==> s.contains(a) by {
            if s.contains(a) {
                let i = choose|i: int| 0 <= i < s.len() && s[i] == a;
                if i < s.len() - 1 {
                    assert(front[i] == a);
                    assert(front.contains(a));
                    assert(before.contains(a));
                    let j = choose|j: int| 0 <= j < before.len() && before[j] == a;
                    assert(before.push(last)[j] == a);
                } else {
                    assert(last == a);
                    assert(before.push(last)[before.len() as int] == a);
                }
                assert(distinct(s).contains(a));
            }
            if distinct(s).contains(a) {
                let j = choose|j: int| 0 <= j < distinct(s).len() && distinct(s)[j] == a;
                if j < before.len() {
                    assert(before[j] == a);
                    assert(before.contains(a));
                    assert(front.contains(a));
                    let i = choose|i: int| 0 <= i < front.len() && front[i] == a;
                    assert(s[i] == a);
                } else {
                    assert(s[s.len() - 1] == a);
                }
                assert(s.contains(a));
            }
        }
    }
}

/// Reading one more accepted token moves its addresses from what is still
/// to come to what has been seen.
proof fn lemma_host_tokens_step(tokens: Seq<Seq<char>>, seen: Seq<Address>, more: Seq<Address>)
    requires
        tokens.len() >= 1,
        host_token(tokens[0]) == Ok::<Seq<Address>, SpecParseError>(more),
    ensures
        followed_by(seen, host_tokens(tokens)) == followed_by(
            seen + more,
            host_tokens(tokens.drop_first()),
        ),
{
    let later = host_tokens(tokens.drop_first());
    if later is Ok {
        assert(seen + (more + later->Ok_0) == (seen + more) + later->Ok_0);
    }
}

/// The addresses met so far, for looking one up without walking the list.
struct Seen {
    v4: HashSet<u32>,
    v6: HashSet<u128>,
}

impl Seen {
    spec fn holds(self, a: Address) -> bool {
        match a {
            Address::V4(n) => self.v4@.contains(n),
            Address::V6(n) => self.v6@.contains(n),
        }
    }

    /// Exactly the addresses of `hosts` are held.
    spec fn matches(self, hosts: Seq<Address>) -> bool {
        forall|a: Address| self.holds(a) <==> hosts.contains(a)
    }

    fn new() -> (seen: Seen)
        ensures
            forall|a: Address| !seen.holds(a),
    {
        Seen { v4: HashSet::new(), v6: HashSet::new() }
    }

    /// Takes `a` in; the result tells whether it was new.
    fn insert(&mut self, a: Address) -> (fresh: bool)
        ensures
            fresh == !old(self).holds(a),
            forall|x: Address| final(self).holds(x) <==> old(self).holds(x) || x == a,
    {
        broadcast use vstd::std_specs::hash::group_hash_axioms;

        match a {
            Address::V4(n) => self.v4.insert(n),
            Address::V6(n) => self.v6.insert(n),
        }
    }
}

/// Appends to `hosts` each of `more` that has not been met yet.
fn add_new(
    hosts: &mut Vec<Address>,
    met: &mut Seen,
    more: &Vec<Address>,
    Ghost(seen): Ghost<Seq<Address>>,
)
    requires
        old(hosts)@ == distinct(seen),
        old(met).matches(old(hosts)@),
    ensures
        final(hosts)@ == distinct(seen + more@),
        final(met).matches(final(hosts)@),
{
    let mut i: usize = 0;
    assert(seen + more@.subrange(0, 0) == seen);
    while i < more.len()
        invariant
            i <= more.len(),
            hosts@ == distinct(seen + more@.subrange(0, i as int)),
            met.matches(hosts@),
        decreases more.len() - i,
    {
        let a: Address = more[i];
        let ghost before = hosts@;
        proof {
            let next = seen + more@.subrange(0, i + 1);
            assert(next.drop_last() == seen + more@.subrange(0, i as int));
            assert(next.last() == a);
        }
        if met.insert(a) {
            hosts.push(a);
            proof {
                assert forall|x: Address| met.holds(x) <==> hosts@.contains(x) by {
                    if before.contains(x) {
                        let j = choose|j: int| 0 <= j < before.len() && before[j] == x;
                        assert(hosts@[j] == x);
                    }
                    if x == a {
                        assert(hosts@[before.len() as int] == x);
                    }
                    if hosts@.contains(x) {
                        let j = choose|j: int| 0 <= j < hosts@.len() && hosts@[j] == x;
                        if j < before.len() {
                            assert(before[j] == x);
                        }
                    }
                }
            }
        }
        i += 1;
    }
    assert(more@.subrange(0, more.len() as int) == more@);
}

/// Why a token of the host list is refused.
enum Refusal {
    Invalid,
    TooLarge,
}

impl Refusal {
    /// The error for the token `tok`.
    spec fn of(self, tok: Seq<char>) -> SpecParseError {
        match self {
            Refusal::Invalid => SpecParseError::InvalidHost(tok),
            Refusal::TooLarge => SpecParseError::HostBlockTooLarge(tok),
        }
    }
}

/// Reads one token of the host list: its addresses in order, or why it is
/// refused.
fn parse_host_token(tok: &[char]) -> (r: Result<Vec<Address>, Refusal>)
    ensures
        match r {
            Ok(hosts) => host_token(tok@) == Ok::<Seq<Address>, SpecParseError>(hosts@),
            Err(why) => host_token(tok@) == Err::<Seq<Address>, SpecParseError>(why.of(tok@)),
        },
{
    let mut out: Vec<Address> = Vec::new();
    match parse_address(tok) {
        Some(a) => {
            out.push(a);
            assert(out@ == seq![a]);
            Ok(out)
        },
        None => match parse_block(tok) {
            Some(block) => {
                if block.expand_into(&mut out) {
                    assert(out@ == block_addresses(block@.0, block@.1));
                    Ok(out)
                } else {
                    Err(Refusal::TooLarge)
                }
            },
            None => Err(Refusal::Invalid),
        },
    }
}

/// Resolves a host argument such as `10.0.0.1,192.168.1.0/30` to the
/// addresses it names, or says why it is refused.
pub fn parse_hosts(s: &str) -> (r: Result<Vec<Address>, ParseError>)
    ensures
        match r {
            Ok(hosts) => host_list(s@) == Ok::<Seq<Address>, SpecParseError>(hosts@)
                && hosts@.no_duplicates(),
            Err(e) => host_list(s@) == Err::<Seq<Address>, SpecParseError>(e@),
        },
{
    let chars = chars_of(s);
    let n: usize = chars.len();
    let mut hosts: Vec<Address> = Vec::new();
    let mut met = Seen::new();
    let mut rest: &[char] = chars.as_slice();
    let mut start: usize = 0;
    let ghost mut seen: Seq<Address> = Seq::empty();
    proof {
        assert(s@.subrange(0, n as int) == s@);
        let all = host_tokens(split(s@, ','));
        if all is Ok {
            assert(seen + all->Ok_0 == all->Ok_0);
        }
    }
    loop
        invariant
            n == s@.len(),
            start <= n,
            rest@ == s@.subrange(start as int, n as int),
            host_tokens(split(s@, ',')) == followed_by(seen, host_tokens(split(rest@, ','))),
            hosts@ == distinct(seen),
            met.matches(hosts@),
        decreases rest@.len(),
    {
        let (tok, after) = cut(rest, ',');
        let ghost tokens = split(rest@, ',');
        assert(tokens[0] == tok@);
        let end: usize = start + tok.len();
        assert(tok@ == s@.subrange(start as int, end as int));
        match parse_host_token(tok) {
            Err(why) => {
                let text: String = s.substring_char(start, end).to_owned();
                return Err(
                    match why {
                        Refusal::Invalid => ParseError::InvalidHost(text),
                        Refusal::TooLarge => ParseError::HostBlockTooLarge(text),
                    },
                );
            },
            Ok(more) => {
                add_new(&mut hosts, &mut met, &more, Ghost(seen));
                proof {
                    lemma_host_tokens_step(tokens, seen, more@);
                    seen = seen + more@;
                }
            },
        }
        match after {
            None => {
                proof {
                    assert(tokens.drop_first() == Seq::<Seq<char>>::empty());
                    assert(host_tokens(tokens.drop_first()) == Ok::<Seq<Address>, SpecParseError>(
                        Seq::empty(),
                    ));
                    assert(seen + Seq::<Address>::empty() == seen);
                    lemma_distinct(seen);
                }
                return Ok(hosts);
            },
            Some(more) => {
                assert(tokens.drop_first() == split(more@, ','));
                start = end + 1;
                rest = more;
            },
        }
    }
}

} // verus!
