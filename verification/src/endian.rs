//! Fixed-width integers as bytes, in either byte order.

use vstd::prelude::*;

verus! {

/// The order in which the bytes of a multi-byte integer are laid out.
#[derive(Clone, Copy, Debug, PartialEq, Eq, Structural)]
pub enum ByteOrder {
    /// Least significant byte first.
    Little,
    /// Most significant byte first.
    Big,
}

/// `u16::to_ne_bytes` of the number one: its two bytes in the order in which
/// this machine stores them, so the one comes first or last.
#[verifier::external_body]
fn one_as_stored() -> (bytes: [u8; 2])
    ensures
        bytes@ == seq![1u8, 0u8] || bytes@ == seq![0u8, 1u8],
{
    1u16.to_ne_bytes()
}

impl ByteOrder {
    /// The byte order of the machine that this runs on.
    pub fn native() -> ByteOrder {
        ByteOrder::storing_one_as(one_as_stored())
    }

    /// The two bytes of the number one in this order.
    pub open spec fn one(self) -> Seq<u8> {
        match self {
            ByteOrder::Little => seq![1u8, 0u8],
            ByteOrder::Big => seq![0u8, 1u8],
        }
    }

    /// The byte order in which the number one is stored as the two bytes
    /// given: the one with the least significant byte first if the first byte
    /// is the one, and the other if it is not.
    pub fn storing_one_as(bytes: [u8; 2]) -> (order: ByteOrder)
        ensures
            order == ByteOrder::Little <==> bytes@[0] == 1,
            bytes@ == ByteOrder::Little.one() || bytes@ == ByteOrder::Big.one() ==> order.one()
                == bytes@,
    {
        if bytes[0] == 1 {
            ByteOrder::Little
        } else {
            ByteOrder::Big
        }
    }
}

/// The four bytes of `x`, least significant first.
pub open spec fn le_bytes32(x: u32) -> Seq<u8> {
    seq![
        (x as int % 256) as u8,
        (x as int / 256 % 256) as u8,
        (x as int / 65536 % 256) as u8,
        (x as int / 16777216) as u8,
    ]
}

/// The number whose four bytes, least significant first, are `b`.
pub open spec fn le_value32(b: Seq<u8>) -> u32
    recommends
        b.len() == 4,
{
    (b[0] as int + 256 * (b[1] as int) + 65536 * (b[2] as int) + 16777216 * (b[3] as int)) as u32
}

/// The four bytes of `x` in the given order.
#[verifier::opaque]
pub open spec fn bytes32(order: ByteOrder, x: u32) -> Seq<u8> {
    match order {
        ByteOrder::Little => le_bytes32(x),
        ByteOrder::Big => le_bytes32(x).reverse(),
    }
}

/// The number that the four bytes `b` stand for in the given order.
#[verifier::opaque]
pub open spec fn value32(order: ByteOrder, b: Seq<u8>) -> u32
    recommends
        b.len() == 4,
{
    match order {
        ByteOrder::Little => le_value32(b),
        ByteOrder::Big => le_value32(b.reverse()),
    }
}

/// The low half of a 64-bit number.
pub open spec fn low32(x: u64) -> u32 {
    (x as int % 0x1_0000_0000) as u32
}

/// The high half of a 64-bit number.
pub open spec fn high32(x: u64) -> u32 {
    (x as int / 0x1_0000_0000) as u32
}

/// The 64-bit number with the given halves.
pub open spec fn join64(high: u32, low: u32) -> u64 {
    (high as int * 0x1_0000_0000 + low as int) as u64
}

/// The eight bytes of `x` in the given order.
pub open spec fn bytes64(order: ByteOrder, x: u64) -> Seq<u8> {
    match order {
        ByteOrder::Little => bytes32(order, low32(x)) + bytes32(order, high32(x)),
        ByteOrder::Big => bytes32(order, high32(x)) + bytes32(order, low32(x)),
    }
}

/// The number that the eight bytes `b` stand for in the given order.
pub open spec fn value64(order: ByteOrder, b: Seq<u8>) -> u64
    recommends
        b.len() == 8,
{
    match order {
        ByteOrder::Little => join64(value32(order, b.subrange(4, 8)), value32(order, b.subrange(0, 4))),
        ByteOrder::Big => join64(value32(order, b.subrange(0, 4)), value32(order, b.subrange(4, 8))),
    }
}

/// The bit pattern of a signed 32-bit number, in two's complement.
pub open spec fn bits_of_i32(v: i32) -> u32 {
    if v >= 0 {
        v as u32
    } else {
        (v as int + 0x1_0000_0000) as u32
    }
}

/// The signed number with the given two's-complement bit pattern.
pub open spec fn i32_of_bits(b: u32) -> i32 {
    if b < 0x8000_0000 {
        b as i32
    } else {
        (b as int - 0x1_0000_0000) as i32
    }
}

/// The bit pattern of a signed 64-bit number, in two's complement.
pub open spec fn bits_of_i64(v: i64) -> u64 {
    if v >= 0 {
        v as u64
    } else {
        (v as int + 0x1_0000_0000_0000_0000) as u64
    }
}

/// The signed number with the given two's-complement bit pattern.
pub open spec fn i64_of_bits(b: u64) -> i64 {
    if b < 0x8000_0000_0000_0000 {
        b as i64
    } else {
        (b as int - 0x1_0000_0000_0000_0000) as i64
    }
}

/// Four bytes always come out, and they give the number back.
pub proof fn lemma_bytes32_roundtrip(order: ByteOrder, x: u32)
    ensures
        bytes32(order, x).len() == 4,
        value32(order, bytes32(order, x)) == x,
{
    reveal(bytes32);
    reveal(value32);
    let b = le_bytes32(x);
    assert(b.len() == 4);
    assert(le_value32(b) == x);
    assert(b.reverse().reverse() =~= b);
}

/// Eight bytes always come out, and they give the number back.
pub proof fn lemma_bytes64_roundtrip(order: ByteOrder, x: u64)
    ensures
        bytes64(order, x).len() == 8,
        value64(order, bytes64(order, x)) == x,
{
    lemma_bytes32_roundtrip(order, low32(x));
    lemma_bytes32_roundtrip(order, high32(x));
    let lo = bytes32(order, low32(x));
    let hi = bytes32(order, high32(x));
    assert(join64(high32(x), low32(x)) == x);
    match order {
        ByteOrder::Little => {
            assert((lo + hi).subrange(0, 4) =~= lo);
            assert((lo + hi).subrange(4, 8) =~= hi);
        },
        ByteOrder::Big => {
            assert((hi + lo).subrange(0, 4) =~= hi);
            assert((hi + lo).subrange(4, 8) =~= lo);
        },
    }
}

/// A signed number and its bit pattern determine each other.
pub proof fn lemma_signed_roundtrip(v: i32, w: i64)
    ensures
        i32_of_bits(bits_of_i32(v)) == v,
        i64_of_bits(bits_of_i64(w)) == w,
{
}

/// Appends the four bytes of `x` to `out`.
pub fn put_u32(out: &mut Vec<u8>, order: ByteOrder, x: u32)
    ensures
        final(out)@ == old(out)@ + bytes32(order, x),
{
    reveal(bytes32);
    let b0: u8 = (x % 256) as u8;
    let b1: u8 = (x / 256 % 256) as u8;
    let b2: u8 = (x / 65536 % 256) as u8;
    let b3: u8 = (x / 16777216) as u8;
    match order {
        ByteOrder::Little => {
            out.push(b0);
            out.push(b1);
            out.push(b2);
            out.push(b3);
            assert(out@ =~= old(out)@ + le_bytes32(x));
        },
        ByteOrder::Big => {
            out.push(b3);
            out.push(b2);
            out.push(b1);
            out.push(b0);
            assert(out@ =~= old(out)@ + le_bytes32(x).reverse());
        },
    }
}

/// Appends the eight bytes of `x` to `out`.
pub fn put_u64(out: &mut Vec<u8>, order: ByteOrder, x: u64)
    ensures
        final(out)@ == old(out)@ + bytes64(order, x),
{
    let low: u32 = (x % 0x1_0000_0000) as u32;
    let high: u32 = (x / 0x1_0000_0000) as u32;
    match order {
        ByteOrder::Little => {
            put_u32(out, order, low);
            put_u32(out, order, high);
        },
        ByteOrder::Big => {
            put_u32(out, order, high);
            put_u32(out, order, low);
        },
    }
    assert(out@ =~= old(out)@ + bytes64(order, x));
}

/// The number that the four bytes of `b` from `at` on stand for.
pub fn get_u32(b: &[u8], at: usize, order: ByteOrder) -> (x: u32)
    requires
        at + 4 <= b@.len(),
    ensures
        x == value32(order, b@.subrange(at as int, at + 4)),
{
    reveal(value32);
    let ghost s = b@.subrange(at as int, at + 4);
    let b0: u32 = b[at] as u32;
    let b1: u32 = b[at + 1] as u32;
    let b2: u32 = b[at + 2] as u32;
    let b3: u32 = b[at + 3] as u32;
    assert(s[0] == b0 && s[1] == b1 && s[2] == b2 && s[3] == b3);
    match order {
        ByteOrder::Little => b0 + 256 * b1 + 65536 * b2 + 16777216 * b3,
        ByteOrder::Big => {
            let ghost r = s.reverse();
            assert(r[0] == b3 && r[1] == b2 && r[2] == b1 && r[3] == b0);
            b3 + 256 * b2 + 65536 * b1 + 16777216 * b0
        },
    }
}

/// The number that the eight bytes of `b` from `at` on stand for.
pub fn get_u64(b: &[u8], at: usize, order: ByteOrder) -> (x: u64)
    requires
        at + 8 <= b@.len(),
    ensures
        x == value64(order, b@.subrange(at as int, at + 8)),
{
    let n: usize = b.len();
    let ghost s = b@.subrange(at as int, at + 8);
    assert(s.subrange(0, 4) =~= b@.subrange(at as int, at + 4));
    assert(s.subrange(4, 8) =~= b@.subrange(at + 4, at + 8));
    let first: u64 = get_u32(b, at, order) as u64;
    let second: u64 = get_u32(b, at + 4, order) as u64;
    match order {
        ByteOrder::Little => second * 0x1_0000_0000 + first,
        ByteOrder::Big => first * 0x1_0000_0000 + second,
    }
}

/// The two's-complement bit pattern of `v`.
pub fn i32_to_bits(v: i32) -> (b: u32)
    ensures
        b == bits_of_i32(v),
{
    if v >= 0 {
        v as u32
    } else {
        (v as i64 + 0x1_0000_0000) as u32
    }
}

/// The signed number whose two's-complement bit pattern is `b`.
pub fn i32_from_bits(b: u32) -> (v: i32)
    ensures
        v == i32_of_bits(b),
{
    if b < 0x8000_0000 {
        b as i32
    } else {
        (b as i64 - 0x1_0000_0000) as i32
    }
}

/// The two's-complement bit pattern of `v`.
pub fn i64_to_bits(v: i64) -> (b: u64)
    ensures
        b == bits_of_i64(v),
{
    if v >= 0 {
        v as u64
    } else {
        (v as i128 + 0x1_0000_0000_0000_0000) as u64
    }
}

/// The signed number whose two's-complement bit pattern is `b`.
pub fn i64_from_bits(b: u64) -> (v: i64)
    ensures
        v == i64_of_bits(b),
{
    if b < 0x8000_0000_0000_0000 {
        b as i64
    } else {
        (b as i128 - 0x1_0000_0000_0000_0000) as i64
    }
}

/// The least multiple of four that is at least `n`.
pub open spec fn round_up_4(n: int) -> int {
    (n + 3) / 4 * 4
}

} // verus!
