//! Base-128 varint and length-prefixed string codec for the Minecraft
//! Server List Ping protocol.
//!
//! A varint stores 7 bits of the unsigned value per byte, least significant
//! group first; the high bit of a byte is set on every byte except the last.
//! A value never spans more than 5 bytes, since the protocol caps varints at
//! 32 bits. A length-prefixed string is the varint byte length of the UTF-8
//! data followed by the data itself.

use crate::utils::RunError;
use vstd::arithmetic::div_mod::lemma_fundamental_div_mod;
use vstd::arithmetic::div_mod::lemma_mod_multiples_vanish;
use vstd::arithmetic::div_mod::lemma_multiply_divide_lt;
use vstd::arithmetic::mul::lemma_mul_is_associative;
use vstd::arithmetic::mul::lemma_mul_is_distributive_add;
use vstd::prelude::*;
use vstd::string::*;
use vstd::utf8::encode_utf8;
use vstd::utf8::decode_utf8;
use vstd::utf8::valid_utf8;
use vstd::utf8::encode_utf8_valid_utf8;
use vstd::utf8::encode_utf8_decode_utf8;

verus! {

/// The byte sequence that encodes `v` as a base-128 varint.
pub open spec fn varint_encoding(v: nat) -> Seq<u8>
    decreases v,
{
    if v < 128 {
        seq![v as u8]
    } else {
        seq![(v % 128 + 128) as u8] + varint_encoding(v / 128)
    }
}

/// The unsigned value stored in a varint prefix of `s`, reading 7-bit groups
/// until a byte with a clear high bit; an unterminated prefix contributes
/// only the groups that are present.
pub open spec fn varint_value(s: Seq<u8>) -> nat
    decreases s.len(),
{
    if s.len() == 0 {
        0
    } else if s[0] < 128 {
        s[0] as nat
    } else {
        (s[0] - 128) as nat + 128 * varint_value(s.drop_first())
    }
}

/// Length of the terminated varint at the start of `s`, if there is one of at
/// most 5 bytes; `None` when the varint is unterminated or longer than the
/// 32-bit protocol limit allows.
pub open spec fn varint_size(s: Seq<u8>) -> Option<nat>
    decreases s.len(),
{
    if s.len() == 0 {
        None
    } else if s[0] < 128 {
        Some(1nat)
    } else {
        match varint_size(s.drop_first()) {
            Some(n) => if n + 1 <= 5 {
                Some((n + 1) as nat)
            } else {
                None
            },
            None => None,
        }
    }
}

/// Appends the varint encoding of `value`, reinterpreted as unsigned, to
/// `buf`. Negative values therefore always take the full 5 bytes.
pub fn write_varint(buf: &mut Vec<u8>, value: i32)
    ensures
        final(buf)@ == old(buf)@ + varint_encoding((value as u32) as nat),
{
    let ghost prefix: Seq<u8> = buf@;
    let ghost v0: nat = (value as u32) as nat;
    let mut u_val: u32 = value as u32;
    proof {
        assert(buf@.take(prefix.len() as int) =~= prefix);
        assert(varint_encoding(v0) =~= buf@.skip(prefix.len() as int) + varint_encoding(
            u_val as nat,
        ));
    }
    loop
        invariant_except_break
            prefix.len() <= buf@.len(),
            buf@.take(prefix.len() as int) == prefix,
            varint_encoding(v0) == buf@.skip(prefix.len() as int) + varint_encoding(
                u_val as nat,
            ),
        ensures
            buf@ == prefix + varint_encoding(v0),
        decreases u_val,
    {
        let ghost u_before: u32 = u_val;
        let mut temp: u8 = (u_val & 0x7F) as u8;
        proof {
            assert(u_val & 0x7F == u_val % 128) by (bit_vector);
            assert(u_val >> 7 == u_val / 128) by (bit_vector);
            assert((u_val % 128) as u8 | 0x80 == (u_val % 128 + 128) as u8) by (bit_vector);
            if u_val >= 128 {
                assert(u_val / 128 < u_val) by (nonlinear_arith)
                    requires
                        u_val >= 128,
                ;
            }
        }
        u_val = u_val >> 7;
        if u_val != 0 {
            temp = temp | 0x80;
        }
        let ghost buf_before: Seq<u8> = buf@;
        buf.push(temp);
        proof {
            let plen = prefix.len() as int;
            assert(buf@ =~= buf_before + seq![temp]);
            assert(buf@.take(plen) =~= prefix);
            assert(buf@.skip(plen) =~= buf_before.skip(plen) + seq![temp]);
            if u_val == 0 {
                assert(varint_encoding(u_before as nat) =~= seq![temp]);
                assert(varint_encoding(v0) =~= buf@.skip(plen));
                assert(buf@ =~= prefix + varint_encoding(v0));
            } else {
                assert(varint_encoding(u_before as nat) =~= seq![temp] + varint_encoding(
                    u_val as nat,
                ));
                assert(varint_encoding(v0) =~= buf@.skip(plen) + varint_encoding(u_val as nat));
            }
        }
        if u_val == 0 {
            break;
        }
    }
}

/// 128 raised to the power `k`: the weight of the `k`-th 7-bit group.
pub open spec fn pow128(k: nat) -> nat
    decreases k,
{
    if k == 0 {
        1
    } else {
        128 * pow128((k - 1) as nat)
    }
}

/// The concrete weights of the five groups a 32-bit varint can have.
proof fn lemma_pow128_values()
    ensures
        pow128(0) == 1,
        pow128(1) == 128,
        pow128(2) == 0x4000,
        pow128(3) == 0x20_0000,
        pow128(4) == 0x1000_0000,
        pow128(5) == 0x8_0000_0000,
{
    assert(pow128(0) == 1);
    assert(pow128(1) == 128);
    assert(pow128(2) == 0x4000);
    assert(pow128(3) == 0x20_0000);
    assert(pow128(4) == 0x1000_0000);
    assert(pow128(5) == 0x8_0000_0000);
}

/// An encoding is never empty, carries continuation bits on every byte but
/// the last, and stores exactly the encoded value.
proof fn lemma_encoding_shape(v: nat)
    ensures
        varint_encoding(v).len() >= 1,
        forall|j: int|
            0 <= j < varint_encoding(v).len() - 1 ==> varint_encoding(v)[j] >= 128,
        varint_encoding(v)[varint_encoding(v).len() - 1] < 128,
        varint_value(varint_encoding(v)) == v,
    decreases v,
{
    if v < 128 {
        assert(varint_value(varint_encoding(v)) == v);
    } else {
        lemma_encoding_shape(v / 128);
        let head: u8 = (v % 128 + 128) as u8;
        let tail = varint_encoding(v / 128);
        assert(varint_encoding(v) =~= seq![head] + tail);
        assert(varint_encoding(v).drop_first() =~= tail);
        assert(forall|j: int|
            0 <= j < varint_encoding(v).len() - 1 ==> varint_encoding(v)[j] >= 128) by {
            assert(forall|j: int| 1 <= j < tail.len() + 1 ==> varint_encoding(v)[j] == tail[j - 1]);
        }
        lemma_fundamental_div_mod(v as int, 128);
        assert(varint_value(varint_encoding(v)) == (head - 128) as nat + 128 * varint_value(tail));
        assert(varint_value(varint_encoding(v)) == v);
    }
}

/// A value below `128^k` encodes in at most `k` bytes.
proof fn lemma_encoding_len(v: nat, k: nat)
    requires
        k >= 1,
        v < pow128(k),
    ensures
        varint_encoding(v).len() <= k,
    decreases k,
{
    if v < 128 {
    } else {
        assert(pow128(k) == 128 * pow128((k - 1) as nat));
        if k == 1 {
            assert(v < 128);
        } else {
            lemma_multiply_divide_lt(v as int, 128, pow128((k - 1) as nat) as int);
            lemma_encoding_len(v / 128, (k - 1) as nat);
        }
    }
}

/// A sequence whose first `m` bytes all carry the continuation bit holds no
/// terminated varint of `m` or fewer bytes.
proof fn lemma_size_lower_bound(s: Seq<u8>, m: nat)
    requires
        m <= s.len(),
        forall|j: int| 0 <= j < m ==> s[j] >= 128,
    ensures
        match varint_size(s) {
            Some(n) => n > m,
            None => true,
        },
    decreases m,
{
    if m > 0 {
        assert(s[0] >= 128);
        assert(forall|j: int| 0 <= j < m - 1 ==> s.drop_first()[j] >= 128) by {
            assert(forall|j: int| 0 <= j < s.len() - 1 ==> s.drop_first()[j] == s[j + 1]);
        }
        lemma_size_lower_bound(s.drop_first(), (m - 1) as nat);
    }
}

/// A terminated varint is between 1 and 5 bytes and fits in the sequence.
pub proof fn lemma_size_max(s: Seq<u8>)
    ensures
        match varint_size(s) {
            Some(n) => 1 <= n <= 5 && n <= s.len(),
            None => true,
        },
    decreases s.len(),
{
    if s.len() > 0 && s[0] >= 128 {
        lemma_size_max(s.drop_first());
    }
}

/// A run of continuation bytes closed by a terminator byte at index `k < 5`
/// is a varint of exactly `k + 1` bytes.
proof fn lemma_size_terminated(s: Seq<u8>, k: nat)
    requires
        k < s.len(),
        k <= 4,
        forall|j: int| 0 <= j < k ==> s[j] >= 128,
        s[k as int] < 128,
    ensures
        varint_size(s) == Some((k + 1) as nat),
    decreases k,
{
    if k == 0 {
    } else {
        assert(forall|j: int| 0 <= j < s.len() - 1 ==> s.drop_first()[j] == s[j + 1]);
        lemma_size_terminated(s.drop_first(), (k - 1) as nat);
    }
}

/// A sequence of continuation bytes only is unterminated.
proof fn lemma_size_unterminated(s: Seq<u8>)
    requires
        forall|j: int| 0 <= j < s.len() ==> s[j] >= 128,
    ensures
        varint_size(s) is None,
{
    lemma_size_lower_bound(s, s.len());
    lemma_size_max(s);
}

/// Appending one byte after a run of continuation bytes adds one more 7-bit
/// group at the next weight.
proof fn lemma_value_snoc(t: Seq<u8>, b: u8)
    requires
        forall|j: int| 0 <= j < t.len() ==> t[j] >= 128,
    ensures
        varint_value(t.push(b)) == varint_value(t) + ((b % 128) as nat) * pow128(t.len()),
    decreases t.len(),
{
    if t.len() == 0 {
        assert(t.push(b) =~= seq![b]);
        assert(pow128(0) == 1);
        if b < 128 {
            assert(varint_value(seq![b]) == b as nat);
            assert((b % 128) as nat == b as nat);
        } else {
            assert(seq![b].drop_first() =~= Seq::<u8>::empty());
            assert(varint_value(Seq::<u8>::empty()) == 0);
            assert(varint_value(seq![b]) == (b - 128) as nat);
            assert((b as int) % 128 == b - 128);
        }
        assert(varint_value(t.push(b)) == ((b % 128) as nat) * 1);
    } else {
        assert(forall|j: int| 0 <= j < t.len() - 1 ==> t.drop_first()[j] == t[j + 1]);
        lemma_value_snoc(t.drop_first(), b);
        assert(t.push(b).drop_first() =~= t.drop_first().push(b));
        assert(t.push(b)[0] == t[0]);
        let d: nat = (b % 128) as nat;
        let w: nat = pow128((t.len() - 1) as nat);
        assert(varint_value(t.push(b)) == (t[0] - 128) as nat + 128 * (varint_value(t.drop_first())
            + d * w));
        lemma_mul_is_distributive_add(128, varint_value(t.drop_first()) as int, (d * w) as int);
        assert(pow128(t.len()) == 128 * w);
        assert(128 * (d * w) == d * (128 * w)) by {
            lemma_mul_is_associative(128, d as int, w as int);
            lemma_mul_is_associative(d as int, 128, w as int);
            assert(128 * (d as int) == (d as int) * 128);
        }
        assert(varint_value(t.push(b)) == (t[0] - 128) as nat + (128 * varint_value(
            t.drop_first(),
        ) + d * pow128(t.len())));
        assert(varint_value(t) == (t[0] - 128) as nat + 128 * varint_value(t.drop_first()));
    }
}

/// The value of a varint prefix stays below the weight of the next group.
proof fn lemma_value_bound(s: Seq<u8>)
    ensures
        varint_value(s) < pow128(s.len()),
    decreases s.len(),
{
    if s.len() == 0 {
    } else if s[0] < 128 {
        assert(pow128(s.len()) >= 128 * 1) by {
            lemma_pow128_pos((s.len() - 1) as nat);
        }
    } else {
        lemma_value_bound(s.drop_first());
        let w: nat = pow128((s.len() - 1) as nat);
        assert(varint_value(s.drop_first()) + 1 <= w);
        assert(128 * varint_value(s.drop_first()) + 128 <= 128 * w) by {
            lemma_mul_is_distributive_add(128, varint_value(s.drop_first()) as int, 1);
            vstd::arithmetic::mul::lemma_mul_inequality(
                (varint_value(s.drop_first()) + 1) as int,
                w as int,
                128,
            );
        }
    }
}

/// Every group weight is positive.
proof fn lemma_pow128_pos(k: nat)
    ensures
        pow128(k) >= 1,
    decreases k,
{
    if k > 0 {
        lemma_pow128_pos((k - 1) as nat);
    }
}

/// A varint prefix that is not terminated yet but could still become a
/// varint if more bytes arrive.
pub open spec fn varint_pending(s: Seq<u8>) -> bool {
    s.len() < 5 && forall|j: int| 0 <= j < s.len() ==> s[j] >= 128
}

/// What reading a varint from a partially received buffer can come to.
#[derive(Debug, Clone, Copy, PartialEq, Eq, Structural)]
pub enum VarintRead {
    /// A terminated varint: its value (truncated to 32 bits, as the
    /// protocol reads it) and the position just past it.
    Value(u32, usize),
    /// The data ends inside the varint; more bytes could complete it.
    Pending,
    /// The varint exceeds the 5-byte limit of 32-bit varints.
    Bad,
}

/// Reads the varint that starts at `buf[pos]`, telling a truncated buffer
/// apart from an overlong varint.
pub fn read_varint_status(buf: &[u8], pos: usize) -> (r: VarintRead)
    requires
        pos <= buf@.len(),
    ensures
        match varint_size(buf@.skip(pos as int)) {
            Some(n) => r matches VarintRead::Value(v, next) && v as nat == varint_value(
                buf@.skip(pos as int).take(n as int),
            ) % 0x1_0000_0000 && next == pos + n,
            None => r == (if varint_pending(buf@.skip(pos as int)) {
                VarintRead::Pending
            } else {
                VarintRead::Bad
            }),
        },
{
    let ghost s: Seq<u8> = buf@.skip(pos as int);
    let mut i: usize = 0;
    let mut val: u32 = 0;
    proof {
        lemma_pow128_values();
        assert(s.take(0) =~= Seq::<u8>::empty());
    }
    loop
        invariant
            pos + i <= buf@.len(),
            s == buf@.skip(pos as int),
            s.len() == buf@.len() - pos,
            i <= 4,
            forall|j: int| 0 <= j < i ==> s[j] >= 128,
            val as nat == varint_value(s.take(i as int)),
            val < pow128(i as nat),
            pow128(4) == 0x1000_0000,
        decreases 5 - i,
    {
        proof {
            lemma_pow128_values();
        }
        if i >= buf.len() - pos {
            proof {
                assert(s.len() == i);
                lemma_size_unterminated(s);
            }
            return VarintRead::Pending;
        }
        let b: u8 = buf[pos + i];
        let d: u8 = b & 0x7F;
        proof {
            assert(b & 0x7F == b % 128) by (bit_vector);
            assert(s[i as int] == b);
            assert(s.take(i + 1) =~= s.take(i as int).push(b));
            lemma_value_snoc(s.take(i as int), b);
        }
        let ghost val_before: u32 = val;
        if i == 0 {
            val = d as u32;
            proof {
                assert(varint_value(s.take(1)) == (d as nat) * 1 + 0);
            }
        } else if i == 1 {
            val = val | ((d as u32) << 7);
            proof {
                assert(
                    val_before | ((d as u32) << 7) == val_before + (d as u32) * 128
                ) by (bit_vector)
                    requires
                        val_before < 128 && d < 128,
                ;
            }
        } else if i == 2 {
            val = val | ((d as u32) << 14);
            proof {
                assert(
                    val_before | ((d as u32) << 14) == val_before + (d as u32) * 0x4000
                ) by (bit_vector)
                    requires
                        val_before < 0x4000 && d < 128,
                ;
            }
        } else if i == 3 {
            val = val | ((d as u32) << 21);
            proof {
                assert(
                    val_before | ((d as u32) << 21) == val_before + (d as u32) * 0x20_0000
                ) by (bit_vector)
                    requires
                        val_before < 0x20_0000 && d < 128,
                ;
            }
        } else {
            val = val | ((d as u32) << 28);
            proof {
                assert(
                    val_before | ((d as u32) << 28) == val_before + ((d as u32) % 16)
                        * 0x1000_0000
                ) by (bit_vector)
                    requires
                        val_before < 0x1000_0000 && d < 128,
                ;
                lemma_varint_truncated_group(val_before, d, varint_value(s.take(i + 1)));
            }
        }
        if b < 0x80 {
            proof {
                lemma_size_terminated(s, i as nat);
                if i < 4 {
                    assert(val as nat == varint_value(s.take(i + 1)));
                    lemma_value_bound(s.take(i + 1));
                    vstd::arithmetic::div_mod::lemma_small_mod(
                        varint_value(s.take(i + 1)),
                        0x1_0000_0000,
                    );
                }
            }
            return VarintRead::Value(val, pos + i + 1);
        }
        if i == 4 {
            proof {
                assert(forall|j: int| 0 <= j < 5 ==> s[j] >= 128);
                lemma_size_lower_bound(s, 5);
                lemma_size_max(s);
            }
            return VarintRead::Bad;
        }
        i = i + 1;
        proof {
            lemma_value_bound(s.take(i as int));
        }
    }
}

/// Reads the terminated varint that starts at `buf[pos]`, strictly: a varint
/// that runs past the end of the buffer or past the 5-byte limit of 32-bit
/// varints is rejected.
pub fn read_varint(buf: &[u8], pos: usize) -> (r: Result<(u32, usize), RunError>)
    requires
        pos <= buf@.len(),
    ensures
        match varint_size(buf@.skip(pos as int)) {
            Some(n) => r matches Ok(v) && v.0 as nat == varint_value(
                buf@.skip(pos as int).take(n as int),
            ) % 0x1_0000_0000 && v.1 == pos + n,
            None => r matches Err(e) && e == RunError::MalformedResponse,
        },
{
    match read_varint_status(buf, pos) {
        VarintRead::Value(v, next) => Ok((v, next)),
        VarintRead::Pending => Err(RunError::MalformedResponse),
        VarintRead::Bad => Err(RunError::MalformedResponse),
    }
}

/// How many bytes the forgiving scanner consumes from `s`: bytes are taken
/// while the continuation bit is set, stopping at the terminator, at the end
/// of the data, or after 5 bytes, whichever comes first.
pub open spec fn varint_scan_len(s: Seq<u8>) -> nat {
    varint_scan_len_fuel(s, 5)
}

pub open spec fn varint_scan_len_fuel(s: Seq<u8>, fuel: nat) -> nat
    decreases fuel,
{
    if fuel == 0 || s.len() == 0 {
        0
    } else if s[0] < 128 {
        1
    } else {
        1 + varint_scan_len_fuel(s.drop_first(), (fuel - 1) as nat)
    }
}

/// Decodes a varint from the front of `bytes` without failing: it consumes
/// up to 5 bytes, stopping early at a terminator byte or at the end of the
/// data, and returns the value read so far (truncated to 32 bits) together
/// with the number of bytes consumed.
pub fn decode_varint(bytes: &[u8]) -> (r: (usize, u8))
    ensures
        r.1 as nat == varint_scan_len(bytes@),
        r.0 as nat == varint_value(bytes@.take(varint_scan_len(bytes@) as int)) % 0x1_0000_0000,
{
    let ghost s: Seq<u8> = bytes@;
    let mut i: usize = 0;
    let mut val: u32 = 0;
    proof {
        lemma_pow128_values();
        assert(s.take(0) =~= Seq::<u8>::empty());
        assert(s.skip(0) =~= s);
    }
    loop
        invariant_except_break
            i <= 4,
            i <= s.len(),
            s == bytes@,
            forall|j: int| 0 <= j < i ==> s[j] >= 128,
            val as nat == varint_value(s.take(i as int)),
            val < pow128(i as nat),
            varint_scan_len_fuel(s, 5) == i + varint_scan_len_fuel(s.skip(i as int), (5 - i) as nat),
            pow128(4) == 0x1000_0000,
        ensures
            i as nat == varint_scan_len(s),
            val as nat == varint_value(s.take(i as int)) % 0x1_0000_0000,
            i <= 5,
        decreases 5 - i,
    {
        proof {
            lemma_pow128_values();
        }
        if i >= bytes.len() {
            proof {
                assert(s.skip(i as int) =~= Seq::<u8>::empty());
                lemma_value_bound(s.take(i as int));
                vstd::arithmetic::div_mod::lemma_small_mod(
                    varint_value(s.take(i as int)),
                    0x1_0000_0000,
                );
            }
            break;
        }
        let b: u8 = bytes[i];
        let d: u8 = b & 0x7F;
        proof {
            assert(b & 0x7F == b % 128) by (bit_vector);
            assert(s[i as int] == b);
            assert(s.take(i + 1) =~= s.take(i as int).push(b));
            lemma_value_snoc(s.take(i as int), b);
            assert(s.skip(i as int)[0] == b);
            assert(s.skip(i as int).drop_first() =~= s.skip(i + 1));
        }
        let ghost val_before: u32 = val;
        if i == 0 {
            val = d as u32;
            proof {
                assert(varint_value(s.take(1)) == (d as nat) * 1 + 0);
            }
        } else if i == 1 {
            val = val | ((d as u32) << 7);
            proof {
                assert(
                    val_before | ((d as u32) << 7) == val_before + (d as u32) * 128
                ) by (bit_vector)
                    requires
                        val_before < 128 && d < 128,
                ;
            }
        } else if i == 2 {
            val = val | ((d as u32) << 14);
            proof {
                assert(
                    val_before | ((d as u32) << 14) == val_before + (d as u32) * 0x4000
                ) by (bit_vector)
                    requires
                        val_before < 0x4000 && d < 128,
                ;
            }
        } else if i == 3 {
            val = val | ((d as u32) << 21);
            proof {
                assert(
                    val_before | ((d as u32) << 21) == val_before + (d as u32) * 0x20_0000
                ) by (bit_vector)
                    requires
                        val_before < 0x20_0000 && d < 128,
                ;
            }
        } else {
            val = val | ((d as u32) << 28);
            proof {
                assert(
                    val_before | ((d as u32) << 28) == val_before + ((d as u32) % 16)
                        * 0x1000_0000
                ) by (bit_vector)
                    requires
                        val_before < 0x1000_0000 && d < 128,
                ;
                lemma_varint_truncated_group(val_before, d, varint_value(s.take(i + 1)));
            }
        }
        if b < 0x80 {
            proof {
                if i < 4 {
                    lemma_value_bound(s.take(i + 1));
                    vstd::arithmetic::div_mod::lemma_small_mod(
                        varint_value(s.take(i + 1)),
                        0x1_0000_0000,
                    );
                }
            }
            i = i + 1;
            break;
        }
        if i == 4 {
            proof {
                assert(varint_scan_len_fuel(s.skip(i as int), (5 - i) as nat) == 1
                    + varint_scan_len_fuel(s.skip(i + 1), 0nat));
            }
            i = i + 1;
            break;
        }
        i = i + 1;
        proof {
            lemma_value_bound(s.take(i as int));
        }
    }
    (val as usize, i as u8)
}

/// The arithmetic behind truncating the fifth 7-bit group to 32 bits: only
/// the low 4 bits of the fifth group survive.
proof fn lemma_varint_truncated_group(val_before: u32, d: u8, full: nat)
    requires
        d < 128,
        val_before < 0x1000_0000,
        full == val_before as nat + (d as nat) * 0x1000_0000,
    ensures
        full % 0x1_0000_0000 == val_before as nat + ((d % 16) as nat) * 0x1000_0000,
{
    let q: int = (d as int) / 16;
    let r: int = (d as int) % 16;
    let lo: int = val_before as int + r * 0x1000_0000;
    lemma_fundamental_div_mod(d as int, 16);
    assert((d as int) * 0x1000_0000 == q * 0x1_0000_0000 + r * 0x1000_0000) by (nonlinear_arith)
        requires
            d as int == 16 * q + r,
    ;
    assert(full as int == 0x1_0000_0000 * q + lo);
    lemma_mod_multiples_vanish(q, lo, 0x1_0000_0000);
    vstd::arithmetic::div_mod::lemma_small_mod(lo as nat, 0x1_0000_0000);
}

/// Data framed by its varint byte length, the shape of both protocol strings
/// and whole packets.
pub open spec fn length_prefixed(data: Seq<u8>) -> Seq<u8> {
    varint_encoding(data.len()) + data
}

/// The longest string the protocol accepts, in bytes of UTF-8 data.
pub const MAX_STRING_LEN: usize = 32767;

/// Appends the length-prefixed UTF-8 data of `s` to `buf`.
pub fn write_string(buf: &mut Vec<u8>, s: &str)
    requires
        s.spec_bytes().len() <= MAX_STRING_LEN,
    ensures
        final(buf)@ == old(buf)@ + length_prefixed(s.spec_bytes()),
{
    let bytes: &[u8] = s.as_bytes();
    let len: usize = bytes.len();
    let ghost start: Seq<u8> = buf@;
    write_varint(buf, len as i32);
    buf.extend_from_slice(bytes);
    proof {
        assert(((len as i32) as u32) as nat == bytes@.len());
        assert(buf@ =~= start + length_prefixed(s.spec_bytes()));
    }
}

/// Appends a whole packet to `buf`: the varint length of `body` followed by
/// `body` itself.
pub fn write_packet(buf: &mut Vec<u8>, body: &[u8])
    requires
        body@.len() <= 0x7FFF_FFFF,
    ensures
        final(buf)@ == old(buf)@ + length_prefixed(body@),
{
    let ghost start: Seq<u8> = buf@;
    write_varint(buf, body.len() as i32);
    buf.extend_from_slice(body);
    proof {
        assert(((body@.len() as i32) as u32) as nat == body@.len());
        assert(buf@ =~= start + length_prefixed(body@));
    }
}

/// What decoding a length-prefixed string from the front of `s` yields: the
/// decoded characters and the number of bytes consumed, or nothing when the
/// length prefix is bad, the declared length exceeds the protocol cap or the
/// available data, or the data is not UTF-8.
pub open spec fn string_decode(s: Seq<u8>) -> Option<(Seq<char>, nat)> {
    match varint_size(s) {
        Some(n) => {
            let len = varint_value(s.take(n as int)) % 0x1_0000_0000;
            if len <= MAX_STRING_LEN && n + len <= s.len() {
                let payload = s.subrange(n as int, (n + len) as int);
                if valid_utf8(payload) {
                    Some((decode_utf8(payload), (n + len) as nat))
                } else {
                    None
                }
            } else {
                None
            }
        },
        None => None,
    }
}

/// Relies on `String::from_utf8`: it succeeds exactly on valid UTF-8 input
/// and then returns the string made of those bytes.
#[verifier::external_body]
fn bytes_to_string(v: Vec<u8>) -> (r: Option<String>)
    ensures
        valid_utf8(v@) <==> r is Some,
        r matches Some(s) ==> encode_utf8(s@) == v@,
{
    match String::from_utf8(v) {
        Ok(s) => Some(s),
        Err(_) => None,
    }
}

/// Reads the length-prefixed string that starts at `buf[pos]`. The byte
/// count promised by the prefix is never used to allocate more than what the
/// buffer actually holds, and lengths above [`MAX_STRING_LEN`] are rejected.
pub fn decode_string(buf: &[u8], pos: usize) -> (r: Result<(String, usize), RunError>)
    requires
        pos <= buf@.len(),
    ensures
        match string_decode(buf@.skip(pos as int)) {
            Some(p) => r matches Ok(q) && q.0@ == p.0 && q.1 == pos + p.1,
            None => r matches Err(e) && e == RunError::MalformedResponse,
        },
{
    let ghost s: Seq<u8> = buf@.skip(pos as int);
    let (len32, cursor) = match read_varint(buf, pos) {
        Ok(p) => p,
        Err(_) => {
            return Err(RunError::MalformedResponse);
        },
    };
    let ghost n: nat = varint_size(s)->Some_0;
    proof {
        lemma_size_max(s);
    }
    if len32 > MAX_STRING_LEN as u32 {
        return Err(RunError::MalformedResponse);
    }
    let len: usize = len32 as usize;
    if len > buf.len() - cursor {
        proof {
            assert(n + len > s.len());
        }
        return Err(RunError::MalformedResponse);
    }
    let mut payload: Vec<u8> = Vec::new();
    let mut k: usize = 0;
    while k < len
        invariant
            k <= len,
            cursor + len <= buf@.len(),
            buf@.len() <= usize::MAX,
            payload@ =~= buf@.subrange(cursor as int, cursor + k),
        decreases len - k,
    {
        payload.push(buf[cursor + k]);
        k = k + 1;
        proof {
            assert(payload@ =~= buf@.subrange(cursor as int, cursor + k));
        }
    }
    proof {
        assert(payload@ =~= s.subrange(n as int, n + len));
    }
    match bytes_to_string(payload) {
        Some(text) => {
            proof {
                vstd::utf8::encode_utf8_decode_utf8(text@);
            }
            Ok((text, cursor + len))
        },
        None => Err(RunError::MalformedResponse),
    }
}

/// How a varint terminates determines the forgiving scanner's count too:
/// wherever a strict varint is present, the scanner consumes exactly it.
proof fn lemma_size_scan_agree(s: Seq<u8>, fuel: nat)
    requires
        varint_size(s) is Some,
        varint_size(s)->Some_0 <= fuel,
    ensures
        varint_scan_len_fuel(s, fuel) == varint_size(s)->Some_0,
    decreases s.len(),
{
    lemma_size_max(s);
    if s.len() > 0 && s[0] >= 128 {
        lemma_size_max(s.drop_first());
        lemma_size_scan_agree(s.drop_first(), (fuel - 1) as nat);
    }
}

/// Varint round trip: encoding any 32-bit signed integer takes at most 5
/// bytes, and decoding the encoding (with anything appended after it) yields
/// exactly the encoded value and consumes exactly the encoding, under both
/// the strict reader and the forgiving scanner.
pub proof fn lemma_varint_round_trip(x: i32, rest: Seq<u8>)
    ensures
        ({
            let v = (x as u32) as nat;
            let enc = varint_encoding(v);
            &&& 1 <= enc.len() <= 5
            &&& varint_value(enc) == v
            &&& varint_size(enc + rest) == Some(enc.len())
            &&& varint_scan_len(enc + rest) == enc.len()
            &&& (enc + rest).take(enc.len() as int) == enc
        }),
{
    let v = (x as u32) as nat;
    let enc = varint_encoding(v);
    lemma_encoding_shape(v);
    lemma_pow128_values();
    lemma_encoding_len(v, 5);
    let whole = enc + rest;
    assert(whole.take(enc.len() as int) =~= enc);
    assert(forall|j: int| 0 <= j < enc.len() ==> whole[j] == enc[j]);
    lemma_size_terminated(whole, (enc.len() - 1) as nat);
    lemma_size_scan_agree(whole, 5);
}

/// String framing round trip: any string of at most [`MAX_STRING_LEN`] bytes
/// of UTF-8 data survives encoding and decoding unchanged, with anything
/// appended after the frame left untouched.
pub proof fn lemma_string_round_trip(s: Seq<char>, rest: Seq<u8>)
    requires
        encode_utf8(s).len() <= MAX_STRING_LEN,
    ensures
        string_decode(length_prefixed(encode_utf8(s)) + rest) == Some(
            (s, length_prefixed(encode_utf8(s)).len() as nat),
        ),
{
    let bytes = encode_utf8(s);
    let lenc = varint_encoding(bytes.len());
    let whole = length_prefixed(bytes) + rest;
    lemma_encoding_shape(bytes.len());
    lemma_pow128_values();
    lemma_encoding_len(bytes.len(), 5);
    assert(whole =~= lenc + (bytes + rest));
    assert(whole.take(lenc.len() as int) =~= lenc) by {
        assert(forall|j: int| 0 <= j < lenc.len() ==> whole[j] == lenc[j]);
    }
    assert(forall|j: int| 0 <= j < lenc.len() ==> whole[j] == lenc[j]);
    lemma_size_terminated(whole, (lenc.len() - 1) as nat);
    let n = varint_size(whole)->Some_0;
    assert(n == lenc.len());
    assert(varint_value(whole.take(n as int)) == bytes.len());
    vstd::arithmetic::div_mod::lemma_small_mod(bytes.len(), 0x1_0000_0000);
    assert(whole.subrange(n as int, n + bytes.len() as int) =~= bytes);
    encode_utf8_valid_utf8(s);
    encode_utf8_decode_utf8(s);
}

} // verus!
