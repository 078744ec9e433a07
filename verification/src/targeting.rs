//! Target selection for discovery scans: dotted-quad address parsing and
//! IPv4 CIDR blocks with their usable host addresses. The application hands
//! the enumerated hosts to the external port scanner.

use crate::protocol::ip_bits;
use crate::protocol::Ipv4Address;
use crate::text::all_digits;
use crate::text::digits_value;
use crate::text::is_digit;
use crate::text::split_on;
use crate::text::split_string;
use crate::utils::lemma_pow2_32;
use crate::utils::lemma_pow2_monotone;
use crate::utils::lemma_pow2_pos;
use crate::utils::pow2;
use vstd::arithmetic::div_mod::lemma_fundamental_div_mod;
use vstd::prelude::*;
use vstd::string::*;

verus! {

/// A valid dotted-quad octet: one to three digits, no leading zero unless
/// the octet is exactly `0`, and a value of at most 255.
pub open spec fn valid_octet(t: Seq<char>) -> bool {
    1 <= t.len() <= 3 && all_digits(t) && digits_value(t) <= 255 && (t.len() > 1 ==> t[0] != '0')
}

/// What a dotted-quad IPv4 literal parses to: four valid octets separated
/// by dots.
pub open spec fn spec_parse_ipv4(s: Seq<char>) -> Option<Ipv4Address> {
    let parts = split_on(s, '.');
    if parts.len() == 4 && valid_octet(parts[0]) && valid_octet(parts[1]) && valid_octet(parts[2])
        && valid_octet(parts[3]) {
        Some(
            (Ipv4Address {
                a: digits_value(parts[0]) as u8,
                b: digits_value(parts[1]) as u8,
                c: digits_value(parts[2]) as u8,
                d: digits_value(parts[3]) as u8,
            }),
        )
    } else {
        None
    }
}

/// Parses one dotted-quad octet.
fn parse_octet(s: &str) -> (r: Option<u8>)
    ensures
        match r {
            Some(v) => valid_octet(s@) && v as nat == digits_value(s@),
            None => !valid_octet(s@),
        },
{
    let len = s.unicode_len();
    if len == 0 || len > 3 {
        return None;
    }
    let mut value: u32 = 0;
    let mut i: usize = 0;
    proof {
        assert(s@.take(0) =~= Seq::<char>::empty());
    }
    while i < len
        invariant
            i <= len,
            len == s@.len(),
            len <= 3,
            all_digits(s@.take(i as int)),
            value == digits_value(s@.take(i as int)),
            i == 0 ==> value == 0,
            i == 1 ==> value <= 9,
            i == 2 ==> value <= 99,
            value <= 999,
        decreases len - i,
    {
        let c = s.get_char(i);
        if c < '0' || c > '9' {
            proof {
                assert(!is_digit(s@[i as int]));
            }
            return None;
        }
        proof {
            assert(s@.take(i + 1).drop_last() =~= s@.take(i as int));
            assert(s@.take(i + 1).last() == s@[i as int]);
        }
        value = value * 10 + ((c as u8) - 48) as u32;
        i = i + 1;
    }
    proof {
        assert(s@.take(len as int) =~= s@);
    }
    if value > 255 {
        return None;
    }
    if len > 1 && s.get_char(0) == '0' {
        return None;
    }
    Some(value as u8)
}

/// Parses a dotted-quad IPv4 literal, as `Ipv4Addr` does: four octets of
/// one to three digits each, values up to 255, no leading zeros.
pub fn parse_ipv4(s: &str) -> (r: Option<Ipv4Address>)
    ensures
        r == spec_parse_ipv4(s@),
{
    let parts = split_string(s, '.');
    if parts.len() != 4 {
        return None;
    }
    let a = match parse_octet(parts[0].as_str()) {
        Some(v) => v,
        None => {
            return None;
        },
    };
    let b = match parse_octet(parts[1].as_str()) {
        Some(v) => v,
        None => {
            return None;
        },
    };
    let c = match parse_octet(parts[2].as_str()) {
        Some(v) => v,
        None => {
            return None;
        },
    };
    let d = match parse_octet(parts[3].as_str()) {
        Some(v) => v,
        None => {
            return None;
        },
    };
    Some(Ipv4Address { a, b, c, d })
}

/// An IPv4 CIDR block: a base address and a prefix length.
#[derive(Debug, Clone, Copy, PartialEq, Eq, Structural)]
pub struct Cidr {
    pub base: Ipv4Address,
    pub prefix: u8,
}

/// A well-formed block has a prefix length of at most 32.
pub open spec fn cidr_wf(c: Cidr) -> bool {
    c.prefix <= 32
}

/// What a CIDR literal parses to: a dotted-quad address, a slash, and a
/// decimal prefix length of at most 32.
pub open spec fn spec_parse_cidr(s: Seq<char>) -> Option<Cidr> {
    let parts = split_on(s, '/');
    if parts.len() == 2 {
        match spec_parse_ipv4(parts[0]) {
            Some(ip) => {
                let p = parts[1];
                if 1 <= p.len() <= 2 && all_digits(p) && digits_value(p) <= 32 {
                    Some((Cidr { base: ip, prefix: digits_value(p) as u8 }))
                } else {
                    None
                }
            },
            None => None,
        }
    } else {
        None
    }
}

/// Parses a CIDR literal such as `10.0.0.0/8`.
pub fn parse_cidr(s: &str) -> (r: Option<Cidr>)
    ensures
        r == spec_parse_cidr(s@),
        r matches Some(c) ==> cidr_wf(c),
{
    let parts = split_string(s, '/');
    if parts.len() != 2 {
        return None;
    }
    let ip = match parse_ipv4(parts[0].as_str()) {
        Some(ip) => ip,
        None => {
            return None;
        },
    };
    let p: &str = parts[1].as_str();
    let plen = p.unicode_len();
    if plen == 0 || plen > 2 {
        return None;
    }
    let c0 = p.get_char(0);
    if c0 < '0' || c0 > '9' {
        proof {
            assert(!is_digit(p@[0]));
        }
        return None;
    }
    let mut value: u8 = (c0 as u8) - 48;
    proof {
        assert(p@.take(1).drop_last() =~= Seq::<char>::empty());
        assert(p@.take(1).last() == p@[0]);
        assert(digits_value(Seq::<char>::empty()) == 0);
        assert(value == digits_value(p@.take(1)));
    }
    if plen == 2 {
        let c1 = p.get_char(1);
        if c1 < '0' || c1 > '9' {
            proof {
                assert(!is_digit(p@[1]));
            }
            return None;
        }
        proof {
            assert(p@.take(2).drop_last() =~= p@.take(1));
            assert(p@.take(2).last() == p@[1]);
        }
        value = value * 10 + ((c1 as u8) - 48);
    }
    proof {
        assert(p@.take(plen as int) =~= p@);
    }
    if value > 32 {
        return None;
    }
    Some(Cidr { base: ip, prefix: value })
}

/// The network address of a block: the base with its host bits cleared.
pub open spec fn network_bits(c: Cidr) -> nat
    recommends
        cidr_wf(c),
{
    let span = pow2((32 - c.prefix) as nat);
    (ip_bits(c.base) / span) * span
}

/// How many usable host addresses a block holds: everything between the
/// network and broadcast addresses, except that blocks of one or two
/// addresses use them all.
pub open spec fn spec_host_count(c: Cidr) -> nat
    recommends
        cidr_wf(c),
{
    let span = pow2((32 - c.prefix) as nat);
    if c.prefix >= 31 {
        span
    } else {
        (span - 2) as nat
    }
}

/// The 32-bit value of usable host number `i` of a block: hosts start just
/// past the network address, except in blocks of one or two addresses.
pub open spec fn spec_nth_host(c: Cidr, i: nat) -> nat
    recommends
        cidr_wf(c),
        i < spec_host_count(c),
{
    network_bits(c) + i + (if c.prefix < 31 {
        1nat
    } else {
        0nat
    })
}

/// The span of a block fits the 32-bit address space, and the network
/// address starts a full span that ends within it.
proof fn lemma_cidr_bounds(c: Cidr)
    requires
        cidr_wf(c),
    ensures
        1 <= pow2((32 - c.prefix) as nat) <= 0x1_0000_0000,
        network_bits(c) + pow2((32 - c.prefix) as nat) <= 0x1_0000_0000,
        network_bits(c) <= ip_bits(c.base),
{
    let k = (32 - c.prefix) as nat;
    let span = pow2(k) as int;
    let m = 0x1_0000_0000int;
    lemma_pow2_pos(k);
    lemma_pow2_32();
    crate::utils::lemma_pow2_add(k, c.prefix as nat);
    let t = pow2(c.prefix as nat) as int;
    lemma_pow2_pos(c.prefix as nat);
    assert(m == span * t);
    let bits = ip_bits(c.base) as int;
    assert(bits < m);
    let q = bits / span;
    lemma_fundamental_div_mod(bits, span);
    assert(bits % span >= 0 && bits % span < span) by {
        vstd::arithmetic::div_mod::lemma_mod_bound(bits, span);
    }
    assert(q * span <= bits) by {
        assert(bits == span * q + bits % span);
        assert(span * q == q * span) by {
            vstd::arithmetic::mul::lemma_mul_is_commutative(span, q);
        }
    }
    assert(q >= 0) by {
        vstd::arithmetic::div_mod::lemma_div_pos_is_pos(bits, span);
    }
    assert(q < t) by {
        assert(q * span < t * span) by {
            assert(t * span == span * t) by {
                vstd::arithmetic::mul::lemma_mul_is_commutative(t, span);
            }
        }
        vstd::arithmetic::mul::lemma_mul_strict_inequality_converse(q, t, span);
    }
    assert(q * span + span <= m) by {
        assert(q * span + span == (q + 1) * span) by {
            vstd::arithmetic::mul::lemma_mul_is_distributive_add_other_way(span, q, 1);
        }
        assert((q + 1) * span <= t * span) by {
            vstd::arithmetic::mul::lemma_mul_inequality(q + 1, t, span);
        }
        assert(t * span == span * t) by {
            vstd::arithmetic::mul::lemma_mul_is_commutative(t, span);
        }
    }
}

impl Cidr {
    /// How many usable host addresses the block holds.
    pub fn host_count(&self) -> (n: u32)
        requires
            cidr_wf(*self),
        ensures
            n as nat == spec_host_count(*self),
    {
        let hostbits: u32 = 32 - self.prefix as u32;
        let mut span: u64 = 1;
        let mut j: u32 = 0;
        proof {
            lemma_pow2_32();
        }
        while j < hostbits
            invariant
                j <= hostbits <= 32,
                span == pow2(j as nat),
                span <= 0x1_0000_0000,
                pow2(32) == 0x1_0000_0000,
            decreases hostbits - j,
        {
            proof {
                lemma_pow2_monotone((j + 1) as nat, 32);
            }
            span = span * 2;
            j = j + 1;
        }
        if self.prefix >= 31 {
            proof {
                assert(pow2(0) == 1 && pow2(1) == 2) by {
                    reveal_with_fuel(pow2, 3);
                }
            }
            span as u32
        } else {
            proof {
                assert(pow2(2) == 4) by {
                    reveal_with_fuel(pow2, 4);
                }
                lemma_pow2_monotone(2, (32 - self.prefix) as nat);
            }
            (span - 2) as u32
        }
    }

    /// The 32-bit value of usable host number `i` of the block.
    pub fn nth_host(&self, i: u32) -> (r: Ipv4Address)
        requires
            cidr_wf(*self),
            i < spec_host_count(*self),
        ensures
            ip_bits(r) == spec_nth_host(*self, i as nat),
    {
        proof {
            lemma_cidr_bounds(*self);
        }
        let hostbits: u32 = 32 - self.prefix as u32;
        let mut span: u64 = 1;
        let mut j: u32 = 0;
        proof {
            lemma_pow2_32();
        }
        while j < hostbits
            invariant
                j <= hostbits <= 32,
                span == pow2(j as nat),
                span <= 0x1_0000_0000,
                pow2(32) == 0x1_0000_0000,
            decreases hostbits - j,
        {
            proof {
                lemma_pow2_monotone((j + 1) as nat, 32);
            }
            span = span * 2;
            j = j + 1;
        }
        let bits: u64 = self.base.to_bits() as u64;
        let network: u64 = (bits / span) * span;
        let offset: u64 = if self.prefix < 31 {
            i as u64 + 1
        } else {
            i as u64
        };
        let value: u64 = network + offset;
        proof {
            assert(network == network_bits(*self));
            assert(value < 0x1_0000_0000);
        }
        Ipv4Address::from_bits(value as u32)
    }
}

} // verus!
