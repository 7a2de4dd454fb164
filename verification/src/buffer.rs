//! Byte buffers of the `bytes` crate, and integers in network byte order.

use bytes::{Buf, BufMut, Bytes, BytesMut};
use vstd::prelude::*;

verus! {

/// `bytes::Bytes`: a run of bytes that is consumed from its front.
#[verifier::external_type_specification]
#[verifier::external_body]
pub struct ExBytes(Bytes);

/// `bytes::BytesMut`: a run of bytes that grows at its end.
#[verifier::external_type_specification]
#[verifier::external_body]
pub struct ExBytesMut(BytesMut);

/// The bytes that a `Bytes` holds.
pub uninterp spec fn bytes_of(b: Bytes) -> Seq<u8>;

/// The bytes that a `BytesMut` holds.
pub uninterp spec fn bytes_mut_of(b: BytesMut) -> Seq<u8>;

/// A length that a growing buffer can reach whatever its capacity was: one
/// that can still be doubled without passing the largest allocation.
pub open spec fn fits_buffer(len: nat) -> bool {
    len <= isize::MAX as int / 2
}

/// The number that `s` writes in base 256, most significant digit first.
pub open spec fn be_value(s: Seq<u8>) -> nat
    decreases s.len(),
{
    if s.len() == 0 {
        0
    } else {
        be_value(s.drop_last()) * 256 + s.last() as nat
    }
}

/// The last `n` digits of `v` in base 256, most significant digit first.
pub open spec fn be_bytes(v: nat, n: nat) -> Seq<u8>
    decreases n,
{
    if n == 0 {
        Seq::empty()
    } else {
        be_bytes(v / 256, (n - 1) as nat).push((v % 256) as u8)
    }
}

/// The number of values that `n` bytes can write.
pub open spec fn pow256(n: nat) -> nat
    decreases n,
{
    if n == 0 {
        1
    } else {
        256 * pow256((n - 1) as nat)
    }
}

/// The first byte of a number weighs as much as all numbers that the bytes
/// after it can write.
pub proof fn lemma_be_value_first(s: Seq<u8>)
    requires
        s.len() > 0,
    ensures
        be_value(s) == s[0] * pow256((s.len() - 1) as nat) + be_value(s.skip(1)),
        be_value(s.skip(1)) < pow256((s.len() - 1) as nat),
        be_value(s) < pow256(s.len()),
    decreases s.len(),
{
    if s.len() == 1 {
        assert(s.skip(1) =~= Seq::empty());
        assert(s.drop_last() =~= Seq::empty());
        assert(pow256(1) == 256 * pow256(0));
        assert(be_value(s.drop_last()) == 0);
    } else {
        let n = (s.len() - 1) as nat;
        lemma_be_value_first(s.drop_last());
        assert(s.drop_last().skip(1) =~= s.skip(1).drop_last());
        assert(s.skip(1).last() == s.last());
        assert(pow256(n) == 256 * pow256((n - 1) as nat));
        assert(pow256(s.len()) == 256 * pow256(n));
        let w = pow256((n - 1) as nat);
        assert(s[0] * pow256(n) == (s[0] * w) * 256) by (nonlinear_arith)
            requires
                pow256(n) == 256 * w,
        ;
        assert(s[0] * pow256(n) <= 255 * pow256(n)) by (nonlinear_arith)
            requires
                s[0] <= 255,
        ;
    }
}

/// Writing a number in `n` bytes and reading it back gives the number,
/// where it fits in `n` bytes.
pub proof fn lemma_be_roundtrip(v: nat, n: nat)
    requires
        v < pow256(n),
    ensures
        be_bytes(v, n).len() == n,
        be_value(be_bytes(v, n)) == v,
    decreases n,
{
    if n > 0 {
        lemma_be_roundtrip(v / 256, (n - 1) as nat);
        assert(be_bytes(v, n).drop_last() =~= be_bytes(v / 256, (n - 1) as nat));
    }
}

/// `Bytes::len` counts the bytes held.
pub assume_specification[ Bytes::len ](b: &Bytes) -> (n: usize)
    ensures
        n == bytes_of(*b).len(),
;

/// `Bytes::split_to` cuts the first `at` bytes off and returns them. It
/// panics where there are fewer.
pub assume_specification[ Bytes::split_to ](b: &mut Bytes, at: usize) -> (front: Bytes)
    requires
        at <= bytes_of(*old(b)).len(),
    ensures
        bytes_of(front) == bytes_of(*old(b)).take(at as int),
        bytes_of(*final(b)) == bytes_of(*old(b)).skip(at as int),
;

/// `Deref` on a `Bytes` lends the bytes held as a slice.
#[verifier::external_body]
pub(crate) fn bytes_slice(b: &Bytes) -> (s: &[u8])
    ensures
        s@ == bytes_of(*b),
{
    &b[..]
}

/// `Buf::get_u8` takes the first byte off a `Bytes`. It panics on an empty
/// one.
#[verifier::external_body]
pub(crate) fn get_u8(b: &mut Bytes) -> (v: u8)
    requires
        bytes_of(*old(b)).len() >= 1,
    ensures
        v == bytes_of(*old(b))[0],
        bytes_of(*final(b)) == bytes_of(*old(b)).skip(1),
{
    b.get_u8()
}

/// `Buf::get_u16` takes two bytes off a `Bytes` and reads them as a
/// big-endian integer. It panics where there are fewer.
#[verifier::external_body]
pub(crate) fn get_u16(b: &mut Bytes) -> (v: u16)
    requires
        bytes_of(*old(b)).len() >= 2,
    ensures
        v == be_value(bytes_of(*old(b)).take(2)),
        bytes_of(*final(b)) == bytes_of(*old(b)).skip(2),
{
    b.get_u16()
}

/// `Buf::get_u32` takes four bytes off a `Bytes` and reads them as a
/// big-endian integer. It panics where there are fewer.
#[verifier::external_body]
pub(crate) fn get_u32(b: &mut Bytes) -> (v: u32)
    requires
        bytes_of(*old(b)).len() >= 4,
    ensures
        v == be_value(bytes_of(*old(b)).take(4)),
        bytes_of(*final(b)) == bytes_of(*old(b)).skip(4),
{
    b.get_u32()
}

/// `BytesMut::new` makes an empty buffer.
pub assume_specification[ BytesMut::new ]() -> (b: BytesMut)
    ensures
        bytes_mut_of(b) == Seq::<u8>::empty(),
;

/// `BytesMut::freeze` keeps the bytes held and gives up growing them.
pub assume_specification[ BytesMut::freeze ](b: BytesMut) -> (r: Bytes)
    ensures
        bytes_of(r) == bytes_mut_of(b),
;

/// `BytesMut::len` counts the bytes held.
pub assume_specification[ BytesMut::len ](b: &BytesMut) -> (n: usize)
    ensures
        n == bytes_mut_of(*b).len(),
;

/// `BytesMut::split_to` cuts the first `at` bytes off and returns them. It
/// panics where there are fewer.
pub assume_specification[ BytesMut::split_to ](b: &mut BytesMut, at: usize) -> (front: BytesMut)
    requires
        at <= bytes_mut_of(*old(b)).len(),
    ensures
        bytes_mut_of(front) == bytes_mut_of(*old(b)).take(at as int),
        bytes_mut_of(*final(b)) == bytes_mut_of(*old(b)).skip(at as int),
;

/// `BytesMut::extend_from_slice` appends the slice. It panics where the
/// buffer would grow past the largest allocation.
pub assume_specification[ BytesMut::extend_from_slice ](b: &mut BytesMut, extend: &[u8])
    requires
        fits_buffer(bytes_mut_of(*old(b)).len() + extend@.len()),
    ensures
        bytes_mut_of(*final(b)) == bytes_mut_of(*old(b)) + extend@,
;

/// `BufMut::put_u8` appends one byte to a `BytesMut`. It panics where the
/// buffer would grow past the largest allocation.
#[verifier::external_body]
pub(crate) fn put_u8(b: &mut BytesMut, v: u8)
    requires
        fits_buffer(bytes_mut_of(*old(b)).len() + 1),
    ensures
        bytes_mut_of(*final(b)) == bytes_mut_of(*old(b)).push(v),
{
    b.put_u8(v)
}

/// `BufMut::put_u16` appends the two bytes of a big-endian integer to a
/// `BytesMut`. It panics where the buffer would grow past the largest
/// allocation.
#[verifier::external_body]
pub(crate) fn put_u16(b: &mut BytesMut, v: u16)
    requires
        fits_buffer(bytes_mut_of(*old(b)).len() + 2),
    ensures
        bytes_mut_of(*final(b)) == bytes_mut_of(*old(b)) + be_bytes(v as nat, 2),
{
    b.put_u16(v)
}

/// `BufMut::put_u32` appends the four bytes of a big-endian integer to a
/// `BytesMut`. It panics where the buffer would grow past the largest
/// allocation.
#[verifier::external_body]
pub(crate) fn put_u32(b: &mut BytesMut, v: u32)
    requires
        fits_buffer(bytes_mut_of(*old(b)).len() + 4),
    ensures
        bytes_mut_of(*final(b)) == bytes_mut_of(*old(b)) + be_bytes(v as nat, 4),
{
    b.put_u32(v)
}

/// `BufMut::put_u64` appends the eight bytes of a big-endian integer to a
/// `BytesMut`. It panics where the buffer would grow past the largest
/// allocation.
#[verifier::external_body]
pub(crate) fn put_u64(b: &mut BytesMut, v: u64)
    requires
        fits_buffer(bytes_mut_of(*old(b)).len() + 8),
    ensures
        bytes_mut_of(*final(b)) == bytes_mut_of(*old(b)) + be_bytes(v as nat, 8),
{
    b.put_u64(v)
}

/// Copies a slice of known length into an array.
pub(crate) fn to_array<const N: usize>(s: &[u8]) -> (a: [u8; N])
    requires
        s@.len() == N,
    ensures
        a@ == s@,
{
    let mut a = [0u8; N];
    let mut i: usize = 0;
    while i < N
        invariant
            i <= N,
            s@.len() == N,
            a@.len() == N,
            forall|j: int| 0 <= j < i ==> a@[j] == s@[j],
        decreases N - i,
    {
        a[i] = s[i];
        i += 1;
    }
    assert(a@ =~= s@);
    a
}

/// The bytes of an integer come with the most significant first, in reading
/// and in writing.
pub proof fn law_network_byte_order(a: u8, b: u8, c: u8, d: u8, v: nat)
    ensures
        be_value(seq![a]) == a,
        be_value(seq![a, b]) == a * 256 + b,
        be_value(seq![a, b, c, d]) == a * 16777216 + b * 65536 + c * 256 + d,
        be_bytes(v, 1) == seq![(v % 256) as u8],
        be_bytes(v, 2) == seq![(v / 256 % 256) as u8, (v % 256) as u8],
        be_bytes(v, 4) == seq![
            (v / 16777216 % 256) as u8,
            (v / 65536 % 256) as u8,
            (v / 256 % 256) as u8,
            (v % 256) as u8,
        ],
        be_bytes(v, 8) == be_bytes(v / 0x1_0000_0000, 4) + be_bytes(v, 4),
{
    reveal_with_fuel(be_value, 5);
    reveal_with_fuel(be_bytes, 9);
    let s = seq![a, b, c, d];
    assert(s.drop_last() =~= seq![a, b, c]);
    assert(seq![a, b, c].drop_last() =~= seq![a, b]);
    assert(seq![a, b].drop_last() =~= seq![a]);
    assert(seq![a].drop_last() =~= Seq::empty());
    assert(v / 256 / 256 == v / 65536);
    assert(v / 65536 / 256 == v / 16777216);
    assert(v / 16777216 / 256 == v / 0x1_0000_0000);
    assert(be_bytes(v, 2) =~= seq![(v / 256 % 256) as u8, (v % 256) as u8]);
    assert(be_bytes(v, 4) =~= seq![
        (v / 16777216 % 256) as u8,
        (v / 65536 % 256) as u8,
        (v / 256 % 256) as u8,
        (v % 256) as u8,
    ]);
    assert(be_bytes(v, 8) =~= be_bytes(v / 0x1_0000_0000, 4) + be_bytes(v, 4));
}

/// A buffer may reach half of the largest allocation.
pub proof fn law_buffer_limit(len: nat)
    ensures
        fits_buffer(len) <==> 2 * len <= isize::MAX,
{
}

} // verus!
