//! Address blocks: a base address and the number of leading bits that
//! every address of the block shares with it.

use vstd::prelude::*;
use vstd::arithmetic::div_mod::{
    lemma_fundamental_div_mod, lemma_fundamental_div_mod_converse, lemma_small_mod,
};
use vstd::arithmetic::power2::{
    lemma2_to64, lemma_pow2_adds, lemma_pow2_pos, lemma_pow2_strictly_increases, lemma_pow2_unfold,
    pow2,
};
use crate::address::{address_value, parse_address, Address};
use crate::text::{cut, decimal_value, lemma_split_first, parse_number, split};

verus! {

/// The most host bits that a block may have to be expanded into a list:
/// no block is expanded to more than 65536 addresses.
pub const MAX_HOST_BITS: u8 = 16;

/// The number of addresses in the block of `base` with `prefix` shared
/// bits.
pub open spec fn block_size(base: Address, prefix: nat) -> nat {
    pow2((base.bits() - prefix) as nat)
}

/// The number of the lowest address in the block: `base` with all bits
/// after the first `prefix` cleared.
pub open spec fn block_first(base: Address, prefix: nat) -> nat {
    (base.number() - base.number() % block_size(base, prefix)) as nat
}

/// Every address of the block, the network and broadcast addresses
/// included, in rising numeric order.
pub open spec fn block_addresses(base: Address, prefix: nat) -> Seq<Address> {
    Seq::new(
        block_size(base, prefix),
        |i: int| base.with_number((block_first(base, prefix) + i) as nat),
    )
}

/// Whether `a` lies in the block of `base` with `prefix` shared bits: it is
/// of the same family and agrees with `base` in all bits before the host
/// bits.
pub open spec fn in_block(a: Address, base: Address, prefix: nat) -> bool {
    &&& a.bits() == base.bits()
    &&& a.number() / block_size(base, prefix) == base.number() / block_size(base, prefix)
}

/// The base address and prefix length that a block written as
/// `address/length` stands for: exactly one slash, an address before it,
/// and after it an unsigned decimal number no greater than the number of
/// bits of the address.
pub open spec fn block_value(tok: Seq<char>) -> Option<(Address, nat)> {
    let parts = split(tok, '/');
    if parts.len() == 2 {
        match (address_value(parts[0]), decimal_value(parts[1])) {
            (Some(base), Some(prefix)) => if prefix <= base.bits() {
                Some((base, prefix))
            } else {
                None
            },
            _ => None,
        }
    } else {
        None
    }
}

/// A block of addresses: the base address it was written with and the
/// number of leading bits that its addresses share. The base need not be
/// the lowest address of the block.
#[derive(Debug, Clone, Copy, PartialEq, Eq)]
pub struct AddressBlock {
    base: Address,
    prefix_len: u8,
}

impl View for AddressBlock {
    type V = (Address, nat);

    closed spec fn view(&self) -> (Address, nat) {
        (self.base, self.prefix_len as nat)
    }
}

/// The whole address space has a whole number of blocks of each size, so
/// the block of an address never reaches past the last address.
pub proof fn lemma_block_fits(n: nat, bits: nat, host_bits: nat)
    requires
        host_bits <= bits,
        n < pow2(bits),
    ensures
        pow2(host_bits) > 0,
        n % pow2(host_bits) <= n,
        n - n % pow2(host_bits) + pow2(host_bits) <= pow2(bits),
{
    let size = pow2(host_bits) as int;
    let count = pow2((bits - host_bits) as nat) as int;
    lemma_pow2_pos(host_bits);
    lemma_pow2_adds((bits - host_bits) as nat, host_bits);
    assert(pow2(bits) == count * size);
    lemma_fundamental_div_mod(n as int, size);
    let q = n as int / size;
    assert(n as int == size * q + n as int % size);
    assert(0 <= n as int % size < size);
    assert(q >= 0) by (nonlinear_arith)
        requires
            size > 0,
            n >= 0,
            q == n as int / size,
    ;
    assert(q < count) by (nonlinear_arith)
        requires
            size * q <= n,
            n < count * size,
            size > 0,
    ;
    assert((q + 1) * size <= count * size) by (nonlinear_arith)
        requires
            q + 1 <= count,
            size > 0,
    ;
    assert((q + 1) * size == size * q + size) by (nonlinear_arith);
}

/// The addresses of a block are exactly the addresses that lie in it, the
/// base among them, each once and in rising numeric order from the lowest.
pub proof fn lemma_block_addresses(base: Address, prefix: nat)
    requires
        prefix <= base.bits(),
    ensures
        block_addresses(base, prefix).len() == block_size(base, prefix),
        forall|i: int|
            0 <= i < block_size(base, prefix) ==> {
                &&& (#[trigger] block_addresses(base, prefix)[i]).number() == block_first(
                    base,
                    prefix,
                ) + i
                &&& in_block(block_addresses(base, prefix)[i], base, prefix)
            },
        forall|a: Address|
            in_block(a, base, prefix) ==> #[trigger] block_addresses(base, prefix).contains(a),
        in_block(base, base, prefix),
{
    let all = block_addresses(base, prefix);
    let bits = base.bits();
    let host_bits = (bits - prefix) as nat;
    let size = block_size(base, prefix) as int;
    let n = base.number() as int;
    let first = block_first(base, prefix) as int;
    lemma2_to64();
    lemma_pow2_adds(64, 64);
    lemma_block_fits(base.number(), bits, host_bits);
    lemma_fundamental_div_mod(n, size);
    let q = n / size;
    assert(first == q * size) by (nonlinear_arith)
        requires
            n == size * q + n % size,
            first == n - n % size,
    ;
    assert forall|i: int| 0 <= i < size implies {
        &&& (#[trigger] all[i]).number() == first + i
        &&& in_block(all[i], base, prefix)
    } by {
        lemma_fundamental_div_mod_converse(first + i, size, q, i);
    }
    assert forall|a: Address| in_block(a, base, prefix) implies #[trigger] all.contains(a) by {
        let m = a.number() as int;
        lemma_fundamental_div_mod(m, size);
        let r = m % size;
        assert(m == first + r) by (nonlinear_arith)
            requires
                m == size * (m / size) + r,
                m / size == q,
                first == q * size,
        ;
        assert(all[r].number() == m);
        assert(all[r] == a);
    }
}

/// Two to the power of `e`.
fn power_of_two(e: u8) -> (p: u128)
    requires
        e < 128,
    ensures
        p == pow2(e as nat),
{
    proof {
        lemma2_to64();
        lemma_pow2_adds(64, 64);
        lemma_pow2_unfold(128);
    }
    let mut p: u128 = 1;
    let mut k: u8 = 0;
    while k < e
        invariant
            k <= e < 128,
            p == pow2(k as nat),
            pow2(127) == 0x8000_0000_0000_0000_0000_0000_0000_0000,
        decreases e - k,
    {
        proof {
            lemma_pow2_unfold((k + 1) as nat);
            if k + 1 < 127 {
                lemma_pow2_strictly_increases((k + 1) as nat, 127);
            }
        }
        p = p * 2;
        k += 1;
    }
    p
}

impl AddressBlock {
    #[verifier::type_invariant]
    spec fn well_formed(self) -> bool {
        self.prefix_len <= self.base.bits()
    }

    /// The block of `base` with `prefix_len` shared bits, unless an address
    /// of that family has fewer bits.
    pub fn new(base: Address, prefix_len: u8) -> (r: Option<AddressBlock>)
        ensures
            match r {
                Some(block) => block@ == (base, prefix_len as nat) && prefix_len <= base.bits(),
                None => prefix_len > base.bits(),
            },
    {
        let bits: u8 = match base {
            Address::V4(_) => 32,
            Address::V6(_) => 128,
        };
        if prefix_len <= bits {
            Some(AddressBlock { base, prefix_len })
        } else {
            None
        }
    }

    /// The address that the block was written with.
    pub fn base(&self) -> (a: Address)
        ensures
            a == self@.0,
    {
        self.base
    }

    /// The number of leading bits that the addresses of the block share.
    pub fn prefix_len(&self) -> (n: u8)
        ensures
            n == self@.1,
            n <= self@.0.bits(),
    {
        proof {
            use_type_invariant(self);
        }
        self.prefix_len
    }

    /// The number of trailing bits in which the addresses of the block
    /// differ.
    pub fn host_bits(&self) -> (n: u8)
        ensures
            n == self@.0.bits() - self@.1,
    {
        proof {
            use_type_invariant(self);
        }
        match self.base {
            Address::V4(_) => 32 - self.prefix_len,
            Address::V6(_) => 128 - self.prefix_len,
        }
    }

    /// The address at place `i` of the block, counted from zero at the
    /// lowest address, or `None` when the block has no more than `i`
    /// addresses. This reaches every address of every block, however
    /// large, without expanding it.
    pub fn address_at(&self, i: u128) -> (r: Option<Address>)
        ensures
            match r {
                Some(a) => i < block_size(self@.0, self@.1) && a == block_addresses(
                    self@.0,
                    self@.1,
                )[i as int],
                None => i >= block_size(self@.0, self@.1),
            },
    {
        let host_bits: u8 = self.host_bits();
        proof {
            use_type_invariant(self);
            lemma2_to64();
            lemma_pow2_adds(64, 64);
            lemma_block_fits(self.base.number(), self.base.bits(), host_bits as nat);
        }
        match self.base {
            Address::V4(n) => {
                let size: u128 = power_of_two(host_bits);
                if i >= size {
                    None
                } else {
                    let first: u128 = n as u128 - n as u128 % size;
                    Some(Address::V4((first + i) as u32))
                }
            },
            Address::V6(n) => {
                if host_bits == 128 {
                    proof {
                        lemma_small_mod(n as nat, pow2(128));
                    }
                    Some(Address::V6(i))
                } else {
                    let size: u128 = power_of_two(host_bits);
                    if i >= size {
                        None
                    } else {
                        let first: u128 = n - n % size;
                        Some(Address::V6(first + i))
                    }
                }
            },
        }
    }

    /// Appends every address of the block to `out`, in rising numeric
    /// order. A block with more than `MAX_HOST_BITS` host bits is not
    /// expanded: `out` stays as it was and the result is `false`.
    pub fn expand_into(&self, out: &mut Vec<Address>) -> (done: bool)
        ensures
            done == (self@.0.bits() - self@.1 <= MAX_HOST_BITS),
            done ==> final(out)@ == old(out)@ + block_addresses(self@.0, self@.1),
            !done ==> final(out)@ == old(out)@,
    {
        let host_bits: u8 = self.host_bits();
        if host_bits > MAX_HOST_BITS {
            return false;
        }
        let size: u128 = power_of_two(host_bits);
        let ghost all = block_addresses(self@.0, self@.1);
        proof {
            use_type_invariant(self);
            lemma2_to64();
            lemma_pow2_adds(64, 64);
            lemma_block_fits(self.base.number(), self.base.bits(), host_bits as nat);
        }
        match self.base {
            Address::V4(n) => {
                let first: u128 = n as u128 - n as u128 % size;
                let mut i: u128 = 0;
                while i < size
                    invariant
                        i <= size,
                        size == all.len(),
                        first + size <= 0x1_0000_0000,
                        first == block_first(self@.0, self@.1),
                        self@.0 == Address::V4(n),
                        all == block_addresses(self@.0, self@.1),
                        out@ == old(out)@ + all.subrange(0, i as int),
                    decreases size - i,
                {
                    out.push(Address::V4((first + i) as u32));
                    i += 1;
                    assert(out@ == old(out)@ + all.subrange(0, i as int));
                }
                assert(all.subrange(0, size as int) == all);
            },
            Address::V6(n) => {
                let first: u128 = n - n % size;
                let mut i: u128 = 0;
                while i < size
                    invariant
                        i <= size,
                        size == all.len(),
                        first + size <= 0x1_0000_0000_0000_0000_0000_0000_0000_0000,
                        first == block_first(self@.0, self@.1),
                        self@.0 == Address::V6(n),
                        all == block_addresses(self@.0, self@.1),
                        out@ == old(out)@ + all.subrange(0, i as int),
                    decreases size - i,
                {
                    out.push(Address::V6(first + i));
                    i += 1;
                    assert(out@ == old(out)@ + all.subrange(0, i as int));
                }
                assert(all.subrange(0, size as int) == all);
            },
        }
        true
    }
}

/// Reads a block written as `address/length`.
pub fn parse_block(tok: &[char]) -> (r: Option<AddressBlock>)
    ensures
        match r {
            Some(block) => block_value(tok@) == Some(block@),
            None => block_value(tok@) is None,
        },
{
    let (head, rest) = cut(tok, '/');
    let Some(tail) = rest else {
        return None;
    };
    let (_, more) = cut(tail, '/');
    if more.is_some() {
        proof {
            lemma_split_first(more.unwrap()@, '/');
            assert(split(tok@, '/').len() >= 3);
        }
        return None;
    }
    assert(split(tok@, '/') =~= seq![head@, tail@]);
    let Some(base) = parse_address(head) else {
        return None;
    };
    let Some(prefix) = parse_number(tail, 128) else {
        return None;
    };
    AddressBlock::new(base, prefix as u8)
}

} // verus!
