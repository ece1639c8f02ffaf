//! Numbers in network byte order.

use vstd::arithmetic::power2::{lemma2_to64, lemma_pow2_adds, lemma_pow2_strictly_increases, pow2};
use vstd::prelude::*;

verus! {

/// The number written in base 256, most significant digit first.
pub open spec fn be_value(s: Seq<u8>) -> nat
    decreases s.len(),
{
    if s.len() == 0 {
        0
    } else {
        be_value(s.drop_last()) * 256 + s.last() as nat
    }
}

/// The value of one byte.
pub proof fn lemma_be_1(s: Seq<u8>)
    requires
        s.len() == 1,
    ensures
        be_value(s) == s[0],
{
    reveal_with_fuel(be_value, 2);
    assert(s.drop_last() =~= Seq::<u8>::empty());
}

/// The value of two bytes, written out.
pub proof fn lemma_be_2(s: Seq<u8>)
    requires
        s.len() == 2,
    ensures
        be_value(s) == s[0] * 0x100 + s[1],
{
    lemma_be_1(s.drop_last());
}

/// The value of four bytes, written out.
pub proof fn lemma_be_4(s: Seq<u8>)
    requires
        s.len() == 4,
    ensures
        be_value(s) == s[0] * 0x100_0000 + s[1] * 0x1_0000 + s[2] * 0x100 + s[3],
{
    let t = s.drop_last();
    lemma_be_2(t.drop_last());
    assert(be_value(t) == be_value(t.drop_last()) * 256 + t.last() as nat);
    assert(be_value(s) == be_value(t) * 256 + s.last() as nat);
}

/// The value of eight bytes, written out.
pub proof fn lemma_be_8(s: Seq<u8>)
    requires
        s.len() == 8,
    ensures
        be_value(s) == s[0] * 0x100_0000_0000_0000 + s[1] * 0x1_0000_0000_0000 + s[2]
            * 0x100_0000_0000 + s[3] * 0x1_0000_0000 + s[4] * 0x100_0000 + s[5] * 0x1_0000 + s[6]
            * 0x100 + s[7],
{
    let a = s.drop_last();
    let b = a.drop_last();
    let c = b.drop_last();
    lemma_be_4(c.drop_last());
    assert(be_value(c) == be_value(c.drop_last()) * 256 + c.last() as nat);
    assert(be_value(b) == be_value(c) * 256 + b.last() as nat);
    assert(be_value(a) == be_value(b) * 256 + a.last() as nat);
    assert(be_value(s) == be_value(a) * 256 + s.last() as nat);
}

/// A number of `n` bytes is below 256 to the power `n`.
pub proof fn lemma_be_bound(s: Seq<u8>)
    ensures
        be_value(s) < pow2(8 * s.len()),
    decreases s.len(),
{
    lemma2_to64();
    if s.len() > 0 {
        lemma_be_bound(s.drop_last());
        lemma_pow2_adds((8 * (s.len() - 1)) as nat, 8);
    }
}

proof fn lemma_pow2_bounds()
    ensures
        pow2(32) == 0x1_0000_0000,
        pow2(128) == 0x1_0000_0000_0000_0000_0000_0000_0000_0000,
{
    lemma2_to64();
    lemma_pow2_adds(16, 16);
    lemma_pow2_adds(32, 32);
    lemma_pow2_adds(64, 64);
}

/// Reads up to sixteen bytes as a number.
pub fn be_number(bytes: &[u8]) -> (v: u128)
    requires
        bytes@.len() <= 16,
    ensures
        v == be_value(bytes@),
{
    let mut v: u128 = 0;
    let mut i: usize = 0;
    assert(bytes@.take(0) =~= Seq::<u8>::empty());
    while i < bytes.len()
        invariant
            i <= bytes@.len() <= 16,
            v == be_value(bytes@.take(i as int)),
        decreases bytes@.len() - i,
    {
        proof {
            let longer = bytes@.take(i + 1);
            assert(longer.drop_last() =~= bytes@.take(i as int));
            assert(longer.last() == bytes@[i as int]);
            lemma_be_bound(longer);
            lemma_pow2_bounds();
            if 8 * (i + 1) < 128 {
                lemma_pow2_strictly_increases((8 * (i + 1)) as nat, 128);
            }
        }
        v = v * 256 + bytes[i] as u128;
        i = i + 1;
    }
    assert(bytes@.take(bytes@.len() as int) =~= bytes@);
    v
}

/// Reads two bytes at `at` as a number.
pub fn be_u16_at(bytes: &[u8], at: usize) -> (v: u16)
    requires
        at + 2 <= bytes@.len(),
    ensures
        v == be_value(bytes@.subrange(at as int, at + 2)),
{
    proof {
        lemma_be_2(bytes@.subrange(at as int, at + 2));
    }
    bytes[at] as u16 * 0x100 + bytes[at + 1] as u16
}

/// Reads four bytes at `at` as a number.
pub fn be_u32_at(bytes: &[u8], at: usize) -> (v: u32)
    requires
        at + 4 <= bytes@.len(),
    ensures
        v == be_value(bytes@.subrange(at as int, at + 4)),
{
    proof {
        lemma_be_4(bytes@.subrange(at as int, at + 4));
    }
    bytes[at] as u32 * 0x100_0000 + bytes[at + 1] as u32 * 0x1_0000 + bytes[at + 2] as u32 * 0x100
        + bytes[at + 3] as u32
}

/// A 16-bit number in network byte order.
pub open spec fn be2(v: nat) -> Seq<u8> {
    seq![(v / 0x100 % 0x100) as u8, (v % 0x100) as u8]
}

/// A 32-bit number in network byte order.
pub open spec fn be4(v: nat) -> Seq<u8> {
    seq![
        (v / 0x100_0000 % 0x100) as u8,
        (v / 0x1_0000 % 0x100) as u8,
        (v / 0x100 % 0x100) as u8,
        (v % 0x100) as u8,
    ]
}

/// The bytes of a 32-bit number stand for it.
pub proof fn lemma_be4_value(v: nat)
    requires
        v < 0x1_0000_0000,
    ensures
        be_value(be4(v)) == v,
{
    lemma_be_4(be4(v));
    let a = v / 0x100;
    let b = a / 0x100;
    assert(b == v / 0x1_0000);
    assert(b / 0x100 == v / 0x100_0000);
}

/// A byte behind a number counts as it is, and what was there 256 times: the
/// most significant byte comes first.
pub proof fn law_bytes_make_up_a_number(s: Seq<u8>, b: u8)
    ensures
        be_value(Seq::empty()) == 0,
        be_value(s.push(b)) == be_value(s) * 256 + b,
{
    assert(s.push(b).drop_last() =~= s);
}

} // verus!
