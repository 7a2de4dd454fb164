//! Variable-length integers of QUIC (RFC 9000, section 16).
//!
//! The two top bits of the first byte say how many bytes the integer takes:
//! 1, 2, 4 or 8. The other bits hold the number, most significant first.

use crate::buffer;
use bytes::{Bytes, BytesMut};
use vstd::prelude::*;

verus! {

/// Why no integer could be read.
#[derive(Clone, Copy, Debug, PartialEq, Eq, Structural)]
pub enum VarintError {
    /// There was not a single byte.
    Empty,
    /// The bytes ended inside the integer.
    Truncated,
}

/// How many bytes an integer takes that starts with `first`.
pub open spec fn varint_len(first: u8) -> nat {
    if first < 64 {
        1
    } else if first < 128 {
        2
    } else if first < 192 {
        4
    } else {
        8
    }
}

/// The number that the bytes of one integer hold.
pub open spec fn varint_value(s: Seq<u8>) -> nat
    recommends
        s.len() > 0,
        s.len() == varint_len(s[0]),
{
    buffer::be_value(s.update(0, (s[0] % 64) as u8))
}

/// The integer at the front of `s`, and the number of bytes that it takes.
pub open spec fn varint_of(s: Seq<u8>) -> Result<(nat, nat), VarintError> {
    if s.len() == 0 {
        Err(VarintError::Empty)
    } else if s.len() < varint_len(s[0]) {
        Err(VarintError::Truncated)
    } else {
        Ok((varint_value(s.take(varint_len(s[0]) as int)), varint_len(s[0])))
    }
}

/// The bytes that `write_varint` writes for `v`: the shortest form that holds
/// it. A number of 2^62 or more has no form of its own; its upper two bits
/// are lost in the length.
pub open spec fn varint_bytes(v: u64) -> Seq<u8> {
    if v < 0x40 {
        buffer::be_bytes(v as nat, 1)
    } else if v < 0x4000 {
        buffer::be_bytes((0x4000 + v) as nat, 2)
    } else if v < 0x4000_0000 {
        buffer::be_bytes((0x8000_0000 + v) as nat, 4)
    } else if v < 0x4000_0000_0000_0000 {
        buffer::be_bytes((0xc000_0000_0000_0000 + v) as nat, 8)
    } else {
        buffer::be_bytes((0xc000_0000_0000_0000u64 | v) as nat, 8)
    }
}

/// How many bytes an integer takes that starts with `first`.
pub fn varint_size(first: u8) -> (n: usize)
    ensures
        n == varint_len(first),
{
    let class = first >> 6;
    assert(class == first / 64) by (bit_vector)
        requires
            class == first >> 6,
    ;
    if class == 0 {
        1
    } else if class == 1 {
        2
    } else if class == 2 {
        4
    } else {
        8
    }
}

/// The number that an integer holds whose first byte is `first` and whose
/// other bytes are `rest`.
pub fn varint_join(first: u8, rest: &[u8]) -> (v: u64)
    requires
        rest@.len() + 1 == varint_len(first),
    ensures
        v == varint_value(seq![first] + rest@),
        v < 0x4000_0000_0000_0000,
{
    let ghost whole = seq![(first % 64) as u8] + rest@;
    proof {
        assert((seq![first] + rest@).update(0, (first % 64) as u8) =~= whole);
        reveal_with_fuel(buffer::be_value, 2);
        assert(whole.take(1) =~= seq![(first % 64) as u8]);
        assert(seq![(first % 64) as u8].drop_last() =~= Seq::empty());
        assert(buffer::pow256(0) == 1);
    }
    let mut v: u64 = (first % 64) as u64;
    let mut i: usize = 0;
    while i < rest.len()
        invariant
            i <= rest@.len() <= 7,
            whole == seq![(first % 64) as u8] + rest@,
            v == buffer::be_value(whole.take(i + 1)),
            v < 64 * buffer::pow256(i as nat),
        decreases rest@.len() - i,
    {
        proof {
            lemma_pow256_small(i as nat);
            lemma_pow256_small((i + 1) as nat);
            assert(whole.take(i + 2).drop_last() =~= whole.take(i + 1));
            assert(whole.take(i + 2).last() == rest@[i as int]);
        }
        v = v * 256 + rest[i] as u64;
        i += 1;
    }
    proof {
        assert(whole.take(i + 1) =~= whole);
        lemma_pow256_small(i as nat);
    }
    v
}

proof fn lemma_pow256_small(n: nat)
    requires
        n <= 7,
    ensures
        0 < buffer::pow256(n) <= 0x100_0000_0000_0000,
        buffer::pow256(n + 1) == 256 * buffer::pow256(n),
{
    reveal_with_fuel(buffer::pow256, 9);
}

/// Takes one integer off the front of `data`.
///
/// Where there is none, the bytes that were there are used up.
pub fn read_varint_bytes(data: &mut Bytes) -> (r: Result<u64, VarintError>)
    ensures
        match (r, varint_of(buffer::bytes_of(*old(data)))) {
            (Ok(v), Ok((value, len))) => {
                &&& v == value
                &&& buffer::bytes_of(*final(data)) == buffer::bytes_of(*old(data)).skip(len as int)
            },
            (Err(e), Err(why)) => e == why && buffer::bytes_of(*final(data)).len() == 0,
            _ => false,
        },
        r is Ok ==> r->Ok_0 < 0x4000_0000_0000_0000,
{
    let ghost s = buffer::bytes_of(*data);
    if data.len() == 0 {
        return Err(VarintError::Empty);
    }
    let first = buffer::get_u8(data);
    let extra = varint_size(first) - 1;
    if data.len() < extra {
        let rest: usize = data.len();
        let _ = data.split_to(rest);
        return Err(VarintError::Truncated);
    }
    let rest = data.split_to(extra);
    proof {
        assert(seq![first] + buffer::bytes_of(rest) =~= s.take(extra + 1));
        assert(buffer::bytes_of(*data) =~= s.skip(extra + 1));
    }
    Ok(varint_join(first, buffer::bytes_slice(&rest)))
}

/// Appends `val` to `buf` in its shortest form.
pub fn write_varint(buf: &mut BytesMut, val: u64)
    requires
        buffer::fits_buffer(buffer::bytes_mut_of(*old(buf)).len() + 8),
    ensures
        buffer::bytes_mut_of(*final(buf)) == buffer::bytes_mut_of(*old(buf)) + varint_bytes(val),
{
    if val < 0x40 {
        buffer::put_u8(buf, val as u8);
        proof {
            reveal_with_fuel(buffer::be_bytes, 2);
            assert(buffer::bytes_mut_of(*buf) =~= buffer::bytes_mut_of(*old(buf)) + buffer::be_bytes(val as nat, 1));
        }
    } else if val < 0x4000 {
        assert(0x4000u16 | (val as u16) == 0x4000 + val) by (bit_vector)
            requires
                val < 0x4000,
        ;
        buffer::put_u16(buf, 0x4000 | val as u16);
    } else if val < 0x4000_0000 {
        assert(0x8000_0000u32 | (val as u32) == 0x8000_0000 + val) by (bit_vector)
            requires
                val < 0x4000_0000,
        ;
        buffer::put_u32(buf, 0x8000_0000 | val as u32);
    } else {
        assert(val < 0x4000_0000_0000_0000 ==> 0xc000_0000_0000_0000u64 | val
            == 0xc000_0000_0000_0000 + val) by (bit_vector);
        buffer::put_u64(buf, 0xc000_0000_0000_0000 | val);
    }
}

/// What `write_varint` writes, whatever follows it, is read back as the same
/// number and takes no byte of what follows.
pub proof fn law_varint_roundtrip(v: u64, rest: Seq<u8>)
    requires
        v < 0x4000_0000_0000_0000,
    ensures
        varint_of(varint_bytes(v) + rest) == Ok::<(nat, nat), VarintError>(
            (v as nat, varint_bytes(v).len()),
        ),
{
    reveal_with_fuel(buffer::pow256, 9);
    let (tag, n): (nat, nat) = if v < 0x40 {
        (0, 1)
    } else if v < 0x4000 {
        (0x40, 2)
    } else if v < 0x4000_0000 {
        (0x80, 4)
    } else {
        (0xc0, 8)
    };
    let w = buffer::pow256((n - 1) as nat);
    let s = varint_bytes(v);
    assert(s == buffer::be_bytes(tag * w + v as nat, n));
    assert(tag * w + v < buffer::pow256(n));
    buffer::lemma_be_roundtrip(tag * w + v as nat, n);
    buffer::lemma_be_value_first(s);
    let low = buffer::be_value(s.skip(1));
    assert(tag <= s[0] < tag + 64) by (nonlinear_arith)
        requires
            s[0] * w + low == tag * w + v,
            low < w,
            v < 64 * w,
            w > 0,
    ;
    assert(varint_len(s[0]) == n);
    let t = s.update(0, (s[0] % 64) as u8);
    assert(s[0] % 64 == s[0] - tag);
    buffer::lemma_be_value_first(t);
    assert(t.skip(1) =~= s.skip(1));
    assert((s[0] - tag) * w == s[0] * w - tag * w) by (nonlinear_arith);
    assert((s + rest).take(n as int) =~= s);
}

/// The two top bits of the first byte give the number of bytes, and the other
/// bits and the bytes after it the number.
pub proof fn law_varint_is_read(first: u8, rest: Seq<u8>)
    ensures
        ({
            let s = seq![first] + rest;
            let low = (first % 64) as nat;
            let got = varint_of(s);
            &&& first < 64 ==> got == Ok::<(nat, nat), VarintError>((first as nat, 1))
            &&& 64 <= first < 128 ==> got == if rest.len() < 1 {
                Err(VarintError::Truncated)
            } else {
                Ok((low * 256 + rest[0] as nat, 2nat))
            }
            &&& 128 <= first < 192 ==> got == if rest.len() < 3 {
                Err(VarintError::Truncated)
            } else {
                Ok(
                    (
                        low * 16777216 + rest[0] as nat * 65536 + rest[1] as nat * 256
                            + rest[2] as nat,
                        4nat,
                    ),
                )
            }
            &&& 192 <= first ==> got == if rest.len() < 7 {
                Err(VarintError::Truncated)
            } else {
                Ok(
                    (
                        (low * 16777216 + rest[0] as nat * 65536 + rest[1] as nat * 256
                            + rest[2] as nat) * 0x1_0000_0000 + rest[3] as nat * 16777216
                            + rest[4] as nat * 65536 + rest[5] as nat * 256 + rest[6] as nat,
                        8nat,
                    ),
                )
            }
        }),
        varint_of(Seq::<u8>::empty()) == Err::<(nat, nat), VarintError>(VarintError::Empty),
{
    let s = seq![first] + rest;
    let n = varint_len(first);
    if s.len() >= n {
        let t = s.take(n as int).update(0, (first % 64) as u8);
        reveal_with_fuel(buffer::be_value, 9);
        if n == 1 {
            assert(t.drop_last() =~= Seq::empty());
        } else {
            lemma_drop(t);
            lemma_drop(t.drop_last());
            if n > 2 {
                lemma_drop(t.drop_last().drop_last());
                lemma_drop(t.drop_last().drop_last().drop_last());
            }
            if n > 4 {
                let u = t.drop_last().drop_last().drop_last().drop_last();
                lemma_drop(u);
                lemma_drop(u.drop_last());
                lemma_drop(u.drop_last().drop_last());
                lemma_drop(u.drop_last().drop_last().drop_last());
            }
        }
    }
}

proof fn lemma_drop(s: Seq<u8>)
    requires
        s.len() > 0,
    ensures
        buffer::be_value(s) == buffer::be_value(s.drop_last()) * 256 + s[s.len() - 1] as nat,
        s.len() == 1 ==> buffer::be_value(s) == s[0],
        forall|i: int| 0 <= i < s.len() - 1 ==> #[trigger] s.drop_last()[i] == s[i],
{
    if s.len() == 1 {
        assert(s.drop_last() =~= Seq::empty());
        assert(buffer::be_value(s.drop_last()) == 0);
    }
}

/// The two bytes of an integer that takes two.
proof fn lemma_two_bytes(n: nat)
    requires
        n < 0x4000,
    ensures
        buffer::be_bytes(0x4000 + n, 2) == seq![(0x40 + n / 256) as u8, (n % 256) as u8],
{
    buffer::law_network_byte_order(0, 0, 0, 0, 0x4000 + n);
    assert((0x4000 + n) / 256 % 256 == 0x40 + n / 256);
    assert((0x4000 + n) % 256 == n % 256);
}

/// The four bytes of an integer that takes four.
proof fn lemma_four_bytes(n: nat)
    requires
        n < 0x4000_0000,
    ensures
        buffer::be_bytes(0x8000_0000 + n, 4) == seq![
            (0x80 + n / 16777216) as u8,
            (n / 65536 % 256) as u8,
            (n / 256 % 256) as u8,
            (n % 256) as u8,
        ],
{
    buffer::law_network_byte_order(0, 0, 0, 0, 0x8000_0000 + n);
    assert((0x8000_0000 + n) / 16777216 == 0x80 + n / 16777216);
    assert((0x8000_0000 + n) / 65536 == 0x8000 + n / 65536);
    assert((0x8000_0000 + n) / 256 == 0x80_0000 + n / 256);
    assert((0x8000 + n / 65536) % 256 == n / 65536 % 256);
    assert((0x80_0000 + n / 256) % 256 == n / 256 % 256);
    assert((0x8000_0000 + n) % 256 == n % 256);
}

/// An integer is written in its shortest form. One of more than 62 bits loses
/// the bits above them.
pub proof fn law_varint_is_written(v: u64)
    ensures
        ({
            let n = v as nat;
            &&& n < 0x40 ==> varint_bytes(v) == seq![n as u8]
            &&& 0x40 <= n < 0x4000 ==> varint_bytes(v) == seq![
                (0x40 + n / 256) as u8,
                (n % 256) as u8,
            ]
            &&& 0x4000 <= n < 0x4000_0000 ==> varint_bytes(v) == seq![
                (0x80 + n / 16777216) as u8,
                (n / 65536 % 256) as u8,
                (n / 256 % 256) as u8,
                (n % 256) as u8,
            ]
            &&& 0x4000_0000 <= n < 0x4000_0000_0000_0000 ==> varint_bytes(v) == buffer::be_bytes(
                0xc000_0000_0000_0000 + n,
                8,
            )
            &&& 0x4000_0000_0000_0000 <= n ==> varint_bytes(v) == buffer::be_bytes(
                0xc000_0000_0000_0000 + n % 0x4000_0000_0000_0000,
                8,
            )
        }),
{
    let n = v as nat;
    if n < 0x40 {
        buffer::law_network_byte_order(0, 0, 0, 0, n);
        assert(n % 256 == n);
    } else if n < 0x4000 {
        lemma_two_bytes(n);
    } else if n < 0x4000_0000 {
        lemma_four_bytes(n);
    } else if n >= 0x4000_0000_0000_0000 {
        assert((0xc000_0000_0000_0000u64 | v) == 0xc000_0000_0000_0000u64 + v
            % 0x4000_0000_0000_0000u64) by (bit_vector);
    }
}

} // verus!
