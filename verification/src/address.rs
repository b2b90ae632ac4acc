//! Host addresses and the text forms in which they are written.

use vstd::prelude::*;
use vstd::slice::slice_subrange;
use crate::text::{all_digits, cut, digits_value, is_digit, lemma_split_first, parse_number, split};

verus! {

/// An IPv4 or IPv6 address, held as the number that its bytes spell in
/// network order.
#[derive(Debug, Clone, Copy, PartialEq, Eq, Hash, Structural)]
pub enum Address {
    V4(u32),
    V6(u128),
}

impl Address {
    /// The number of bits in an address of this family.
    pub open spec fn bits(self) -> nat {
        match self {
            Address::V4(_) => 32,
            Address::V6(_) => 128,
        }
    }

    /// The address as a number.
    pub open spec fn number(self) -> nat {
        match self {
            Address::V4(v) => v as nat,
            Address::V6(v) => v as nat,
        }
    }

    /// The address of the same family with the number `n`.
    pub open spec fn with_number(self, n: nat) -> Address {
        match self {
            Address::V4(_) => Address::V4(n as u32),
            Address::V6(_) => Address::V6(n as u128),
        }
    }
}

/// The value of one part of a dotted IPv4 address: one to three decimal
/// digits, without a leading zero unless the part is `0` itself, and no
/// greater than 255.
pub open spec fn octet_value(s: Seq<char>) -> Option<u8> {
    if 1 <= s.len() <= 3 && all_digits(s) && (s.len() == 1 || s[0] != '0') && digits_value(s)
        <= 255 {
        Some(digits_value(s) as u8)
    } else {
        None
    }
}

/// The address with the four given bytes, first byte first.
pub open spec fn ipv4_from_octets(a: u8, b: u8, c: u8, d: u8) -> u32 {
    (a * 0x100_0000 + b * 0x1_0000 + c * 0x100 + d) as u32
}

/// The value of an IPv4 address in dotted form: exactly four parts
/// separated by dots, each of them an octet.
pub open spec fn ipv4_value(s: Seq<char>) -> Option<u32> {
    let parts = split(s, '.');
    if parts.len() == 4 {
        match (
            octet_value(parts[0]),
            octet_value(parts[1]),
            octet_value(parts[2]),
            octet_value(parts[3]),
        ) {
            (Some(a), Some(b), Some(c), Some(d)) => Some(ipv4_from_octets(a, b, c, d)),
            _ => None,
        }
    } else {
        None
    }
}

/// Reads one part of a dotted IPv4 address.
pub fn parse_octet(s: &[char]) -> (r: Option<u8>)
    ensures
        r == octet_value(s@),
{
    let n: usize = s.len();
    if n == 0 || n > 3 || s[0] == '+' || (n > 1 && s[0] == '0') {
        proof {
            if n > 0 && s[0] == '+' {
                assert(!is_digit(s@[0]));
            }
        }
        return None;
    }
    match parse_number(s, 255) {
        Some(v) => Some(v as u8),
        None => None,
    }
}

/// Reads an IPv4 address in dotted form.
pub fn parse_ipv4(s: &[char]) -> (r: Option<u32>)
    ensures
        r == ipv4_value(s@),
{
    let (first, rest) = cut(s, '.');
    let Some(after_first) = rest else {
        return None;
    };
    let (second, rest) = cut(after_first, '.');
    let Some(after_second) = rest else {
        assert(split(s@, '.') =~= seq![first@, second@]);
        return None;
    };
    let (third, rest) = cut(after_second, '.');
    let Some(after_third) = rest else {
        assert(split(s@, '.') =~= seq![first@, second@, third@]);
        return None;
    };
    let (fourth, rest) = cut(after_third, '.');
    if rest.is_some() {
        proof {
            lemma_split_first(rest.unwrap()@, '.');
            assert(split(s@, '.').len() >= 5);
        }
        return None;
    }
    assert(split(s@, '.') =~= seq![first@, second@, third@, fourth@]);
    let Some(a) = parse_octet(first) else {
        return None;
    };
    let Some(b) = parse_octet(second) else {
        return None;
    };
    let Some(c) = parse_octet(third) else {
        return None;
    };
    let Some(d) = parse_octet(fourth) else {
        return None;
    };
    Some(a as u32 * 0x100_0000 + b as u32 * 0x1_0000 + c as u32 * 0x100 + d as u32)
}

/// The number a hexadecimal digit of either case stands for.
pub open spec fn hex_digit_value(c: char) -> Option<nat> {
    if '0' <= c <= '9' {
        Some((c as int - '0' as int) as nat)
    } else if 'a' <= c <= 'f' {
        Some((c as int - 'a' as int + 10) as nat)
    } else if 'A' <= c <= 'F' {
        Some((c as int - 'A' as int + 10) as nat)
    } else {
        None
    }
}

/// Every character of `s` is a hexadecimal digit.
pub open spec fn all_hex_digits(s: Seq<char>) -> bool {
    forall|i: int| 0 <= i < s.len() ==> hex_digit_value(#[trigger] s[i]) is Some
}

/// The number that a run of hexadecimal digits denotes, most significant
/// first.
pub open spec fn hex_value(s: Seq<char>) -> nat
    decreases s.len(),
{
    if s.len() == 0 {
        0
    } else {
        hex_value(s.drop_last()) * 16 + match hex_digit_value(s.last()) {
            Some(d) => d,
            None => 0,
        }
    }
}

/// The value of one group of an IPv6 address: one to four hexadecimal
/// digits.
pub open spec fn group_value(s: Seq<char>) -> Option<u16> {
    if 1 <= s.len() <= 4 && all_hex_digits(s) {
        Some(hex_value(s) as u16)
    } else {
        None
    }
}

/// `groups` followed by what `more` holds, if it holds anything.
pub open spec fn groups_then(groups: Seq<u16>, more: Option<Seq<u16>>) -> Option<Seq<u16>> {
    match more {
        Some(rest) => Some(groups + rest),
        None => None,
    }
}

/// The two groups that an IPv4 address fills at the end of an IPv6 address.
pub open spec fn groups_of_ipv4(v: u32) -> Seq<u16> {
    seq![(v / 0x1_0000) as u16, (v % 0x1_0000) as u16]
}

/// The groups that colon-separated parts stand for. Each part is one
/// group; where `v4_tail` is set, the last part may instead be a dotted
/// IPv4 address, which stands for two groups.
pub open spec fn group_run(parts: Seq<Seq<char>>, v4_tail: bool) -> Option<Seq<u16>>
    decreases parts.len(),
{
    if parts.len() == 0 {
        Some(Seq::empty())
    } else if parts.len() == 1 && v4_tail && ipv4_value(parts[0]) is Some {
        Some(groups_of_ipv4(ipv4_value(parts[0])->0))
    } else {
        match group_value(parts[0]) {
            Some(g) => groups_then(seq![g], group_run(parts.drop_first(), v4_tail)),
            None => None,
        }
    }
}

/// The groups written in `s`: none when `s` is empty, otherwise those of
/// its colon-separated parts.
pub open spec fn groups_of(s: Seq<char>, v4_tail: bool) -> Option<Seq<u16>> {
    if s.len() == 0 {
        Some(Seq::empty())
    } else {
        group_run(split(s, ':'), v4_tail)
    }
}

/// Position of the first pair of adjacent colons in `s`, or `s.len()` when
/// there is none.
pub open spec fn first_gap(s: Seq<char>) -> int
    decreases s.len(),
{
    if s.len() < 2 {
        s.len() as int
    } else if s[0] == ':' && s[1] == ':' {
        0
    } else {
        1 + first_gap(s.drop_first())
    }
}

/// The address with the eight given groups, first group first.
pub open spec fn ipv6_from_groups(g: Seq<u16>) -> u128
    recommends
        g.len() == 8,
{
    (g[0] * 0x1_0000_0000_0000_0000_0000_0000_0000 + g[1] * 0x1_0000_0000_0000_0000_0000_0000
        + g[2] * 0x1_0000_0000_0000_0000_0000 + g[3] * 0x1_0000_0000_0000_0000 + g[4]
        * 0x1_0000_0000_0000 + g[5] * 0x1_0000_0000 + g[6] * 0x1_0000 + g[7]) as u128
}

/// `n` groups of zero.
pub open spec fn zero_groups(n: int) -> Seq<u16> {
    Seq::new(n as nat, |i: int| 0u16)
}

/// The value of an IPv6 address in text form.
///
/// Without a pair of adjacent colons the text is eight groups separated by
/// colons. With one, the pair stands for as many zero groups as are needed
/// to make eight, and at least one; groups may stand before and after it.
/// The last two groups may be written as a dotted IPv4 address, but never
/// before the pair of colons.
pub open spec fn ipv6_value(s: Seq<char>) -> Option<u128> {
    let gap = first_gap(s);
    if 0 <= gap < s.len() {
        match (groups_of(s.subrange(0, gap), false), groups_of(s.subrange(gap + 2, s.len() as int), true)) {
            (Some(head), Some(tail)) => if head.len() + tail.len() <= 7 {
                Some(ipv6_from_groups(head + zero_groups(8 - head.len() - tail.len()) + tail))
            } else {
                None
            },
            _ => None,
        }
    } else {
        match groups_of(s, true) {
            Some(groups) => if groups.len() == 8 {
                Some(ipv6_from_groups(groups))
            } else {
                None
            },
            None => None,
        }
    }
}

/// The address that a text stands for: an IPv4 address in dotted form or
/// an IPv6 address.
pub open spec fn address_value(s: Seq<char>) -> Option<Address> {
    match ipv4_value(s) {
        Some(v) => Some(Address::V4(v)),
        None => match ipv6_value(s) {
            Some(v) => Some(Address::V6(v)),
            None => None,
        },
    }
}

/// Reads one hexadecimal digit.
pub fn parse_hex_digit(c: char) -> (r: Option<u8>)
    ensures
        match r {
            Some(d) => hex_digit_value(c) == Some(d as nat) && d < 16,
            None => hex_digit_value(c) is None,
        },
{
    if c >= '0' && c <= '9' {
        Some((c as u32 - '0' as u32) as u8)
    } else if c >= 'a' && c <= 'f' {
        Some((c as u32 - 'a' as u32 + 10) as u8)
    } else if c >= 'A' && c <= 'F' {
        Some((c as u32 - 'A' as u32 + 10) as u8)
    } else {
        None
    }
}

/// Reads one group of an IPv6 address.
pub fn parse_group(s: &[char]) -> (r: Option<u16>)
    ensures
        r == group_value(s@),
{
    let n: usize = s.len();
    if n == 0 || n > 4 {
        return None;
    }
    let mut acc: u32 = 0;
    let mut i: usize = 0;
    while i < n
        invariant
            i <= n <= 4,
            n == s@.len(),
            all_hex_digits(s@.subrange(0, i as int)),
            acc == hex_value(s@.subrange(0, i as int)),
            i == 0 ==> acc == 0,
            i == 1 ==> acc < 0x10,
            i == 2 ==> acc < 0x100,
            i == 3 ==> acc < 0x1000,
            i == 4 ==> acc < 0x1_0000,
        decreases n - i,
    {
        let ghost p = s@.subrange(0, i + 1);
        proof {
            assert(p.drop_last() == s@.subrange(0, i as int));
            assert(p.last() == s@[i as int]);
        }
        match parse_hex_digit(s[i]) {
            None => {
                return None;
            },
            Some(d) => {
                acc = acc * 16 + d as u32;
            },
        }
        i += 1;
        proof {
            assert forall|k: int| 0 <= k < p.len() implies hex_digit_value(#[trigger] p[k])
                is Some by {
                if k < p.len() - 1 {
                    assert(p[k] == s@.subrange(0, i - 1)[k]);
                }
            }
        }
    }
    assert(s@.subrange(0, n as int) == s@);
    Some(acc as u16)
}

/// Reads the groups written in `s`.
pub fn parse_groups(s: &[char], v4_tail: bool) -> (r: Option<Vec<u16>>)
    ensures
        match r {
            Some(groups) => groups_of(s@, v4_tail) == Some(groups@),
            None => groups_of(s@, v4_tail) is None,
        },
{
    let mut out: Vec<u16> = Vec::new();
    if s.len() == 0 {
        return Some(out);
    }
    let mut rest: &[char] = s;
    assert(Seq::<u16>::empty() + group_run(split(s@, ':'), v4_tail)->0 == group_run(
        split(s@, ':'),
        v4_tail,
    )->0);
    loop
        invariant
            groups_of(s@, v4_tail) == groups_then(out@, group_run(split(rest@, ':'), v4_tail)),
        decreases rest@.len(),
    {
        let (tok, after) = cut(rest, ':');
        let ghost parts = split(rest@, ':');
        let ghost before = out@;
        assert(parts[0] == tok@);
        match after {
            None => {
                assert(parts.drop_first() == Seq::<Seq<char>>::empty());
                assert(group_run(parts.drop_first(), v4_tail) == Some(Seq::<u16>::empty()));
                if v4_tail {
                    if let Some(v) = parse_ipv4(tok) {
                        out.push((v / 0x1_0000) as u16);
                        out.push((v % 0x1_0000) as u16);
                        assert(out@ == before + groups_of_ipv4(v));
                        return Some(out);
                    }
                }
                match parse_group(tok) {
                    Some(g) => {
                        out.push(g);
                        assert(out@ == before + (seq![g] + Seq::<u16>::empty()));
                        return Some(out);
                    },
                    None => {
                        return None;
                    },
                }
            },
            Some(more) => {
                proof {
                    lemma_split_first(more@, ':');
                    assert(parts.drop_first() == split(more@, ':'));
                }
                match parse_group(tok) {
                    Some(g) => {
                        out.push(g);
                        proof {
                            let later = group_run(split(more@, ':'), v4_tail);
                            if later is Some {
                                assert(before + (seq![g] + later->0) == before.push(g) + later->0);
                            }
                        }
                        rest = more;
                    },
                    None => {
                        return None;
                    },
                }
            },
        }
    }
}

/// Position of the first pair of adjacent colons in `s`, or `s.len()`.
pub fn find_gap(s: &[char]) -> (i: usize)
    ensures
        i == first_gap(s@),
        i <= s@.len(),
        i < s@.len() ==> i + 2 <= s@.len(),
{
    let n: usize = s.len();
    let mut i: usize = 0;
    assert(s@.subrange(0, n as int) == s@);
    while n - i >= 2 && !(s[i] == ':' && s[i + 1] == ':')
        invariant
            i <= n,
            n == s@.len(),
            first_gap(s@) == i + first_gap(s@.subrange(i as int, n as int)),
        decreases n - i,
    {
        proof {
            let t = s@.subrange(i as int, n as int);
            assert(t.drop_first() == s@.subrange(i + 1, n as int));
        }
        i += 1;
    }
    if n - i >= 2 {
        i
    } else {
        proof {
            let t = s@.subrange(i as int, n as int);
            assert(first_gap(t) == t.len());
        }
        n
    }
}

/// The address with the eight groups of `g`, first group first.
fn ipv6_of_groups(g: &Vec<u16>) -> (v: u128)
    requires
        g@.len() == 8,
    ensures
        v == ipv6_from_groups(g@),
{
    g[0] as u128 * 0x1_0000_0000_0000_0000_0000_0000_0000 + g[1] as u128
        * 0x1_0000_0000_0000_0000_0000_0000 + g[2] as u128 * 0x1_0000_0000_0000_0000_0000
        + g[3] as u128 * 0x1_0000_0000_0000_0000 + g[4] as u128 * 0x1_0000_0000_0000
        + g[5] as u128 * 0x1_0000_0000 + g[6] as u128 * 0x1_0000 + g[7] as u128
}

/// Reads an IPv6 address.
pub fn parse_ipv6(s: &[char]) -> (r: Option<u128>)
    ensures
        r == ipv6_value(s@),
{
    let n: usize = s.len();
    let gap: usize = find_gap(s);
    if gap < n {
        let Some(mut groups) = parse_groups(slice_subrange(s, 0, gap), false) else {
            return None;
        };
        let Some(tail) = parse_groups(slice_subrange(s, gap + 2, n), true) else {
            return None;
        };
        let ghost head = groups@;
        if groups.len() > 7 || tail.len() > 7 - groups.len() {
            return None;
        }
        let zeros: usize = 8 - groups.len() - tail.len();
        let mut i: usize = 0;
        while i < zeros
            invariant
                i <= zeros,
                groups@ == head + zero_groups(i as int),
            decreases zeros - i,
        {
            groups.push(0);
            i += 1;
            assert(groups@ == head + zero_groups(i as int));
        }
        let mut j: usize = 0;
        while j < tail.len()
            invariant
                j <= tail.len(),
                groups@ == head + zero_groups(zeros as int) + tail@.subrange(0, j as int),
            decreases tail.len() - j,
        {
            groups.push(tail[j]);
            j += 1;
            assert(groups@ == head + zero_groups(zeros as int) + tail@.subrange(0, j as int));
        }
        assert(tail@.subrange(0, tail.len() as int) == tail@);
        Some(ipv6_of_groups(&groups))
    } else {
        let Some(groups) = parse_groups(s, true) else {
            return None;
        };
        if groups.len() != 8 {
            return None;
        }
        Some(ipv6_of_groups(&groups))
    }
}

/// Reads an address: IPv4 in dotted form, or IPv6.
pub fn parse_address(s: &[char]) -> (r: Option<Address>)
    ensures
        r == address_value(s@),
{
    match parse_ipv4(s) {
        Some(v) => Some(Address::V4(v)),
        None => match parse_ipv6(s) {
            Some(v) => Some(Address::V6(v)),
            None => None,
        },
    }
}

} // verus!
