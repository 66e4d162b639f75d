//! Numbers as byte strings, in both byte orders.

use vstd::arithmetic::power2::pow2;
use vstd::prelude::*;

verus! {

/// The number whose base-256 digits are `bytes`, least significant digit first.
pub open spec fn le_nat(bytes: Seq<u8>) -> nat
    decreases bytes.len(),
{
    if bytes.len() == 0 {
        0
    } else {
        bytes[0] as nat + 256 * le_nat(bytes.drop_first())
    }
}

/// The number whose base-256 digits are `bytes`, most significant digit first.
pub open spec fn be_nat(bytes: Seq<u8>) -> nat {
    le_nat(bytes.reverse())
}

/// The lowest `width` base-256 digits of `value`, least significant digit first.
pub open spec fn le_bytes(value: nat, width: nat) -> Seq<u8>
    decreases width,
{
    if width == 0 {
        Seq::empty()
    } else {
        seq![(value % 256) as u8] + le_bytes(value / 256, (width - 1) as nat)
    }
}

/// The two's complement bits of `value`, read as an unsigned number.
pub open spec fn i32_bits(value: i32) -> nat {
    if value >= 0 {
        value as nat
    } else {
        (value + 0x1_0000_0000) as nat
    }
}

pub proof fn lemma_le_bytes_len(value: nat, width: nat)
    ensures
        le_bytes(value, width).len() == width,
    decreases width,
{
    if width > 0 {
        lemma_le_bytes_len(value / 256, (width - 1) as nat);
    }
}

/// A string of `n` bytes holds a number below `2^(8 n)`.
pub proof fn lemma_le_nat_bound(bytes: Seq<u8>)
    ensures
        le_nat(bytes) < pow2(8 * bytes.len()),
    decreases bytes.len(),
{
    if bytes.len() == 0 {
        vstd::arithmetic::power2::lemma2_to64();
    } else {
        lemma_le_nat_bound(bytes.drop_first());
        vstd::arithmetic::power2::lemma_pow2_adds(8, 8 * bytes.drop_first().len());
        vstd::arithmetic::power2::lemma2_to64();
        assert(8 + 8 * bytes.drop_first().len() == 8 * bytes.len());
    }
}

/// Writing a number and reading it back gives the number, where it fits.
pub proof fn lemma_le_nat_of_le_bytes(value: nat, width: nat)
    requires
        value < pow2(8 * width),
    ensures
        le_nat(le_bytes(value, width)) == value,
    decreases width,
{
    vstd::arithmetic::power2::lemma2_to64();
    if width > 0 {
        let rest = (width - 1) as nat;
        vstd::arithmetic::power2::lemma_pow2_adds(8, 8 * rest);
        assert(8 + 8 * rest == 8 * width);
        assert(value / 256 < pow2(8 * rest)) by (nonlinear_arith)
            requires
                value < 256 * pow2(8 * rest),
        ;
        lemma_le_nat_of_le_bytes(value / 256, rest);
        let s = le_bytes(value, width);
        assert(s.drop_first() =~= le_bytes(value / 256, rest));
    }
}

/// The digits of a string that is cut in two.
pub proof fn lemma_le_nat_concat(low: Seq<u8>, high: Seq<u8>)
    ensures
        le_nat(low + high) == le_nat(low) + pow2(8 * low.len()) * le_nat(high),
    decreases low.len(),
{
    vstd::arithmetic::power2::lemma2_to64();
    if low.len() == 0 {
        assert(low + high =~= high);
        assert(8 * low.len() == 0);
        assert(1 * le_nat(high) == le_nat(high));
    } else {
        let rest = low.drop_first();
        lemma_le_nat_concat(rest, high);
        assert((low + high).drop_first() =~= rest + high);
        vstd::arithmetic::power2::lemma_pow2_adds(8, 8 * rest.len());
        assert(8 + 8 * rest.len() == 8 * low.len());
        assert((low + high)[0] == low[0]);
        assert(256 * (pow2(8 * rest.len()) * le_nat(high)) == (256 * pow2(8 * rest.len())) * le_nat(
            high,
        )) by (nonlinear_arith);
    }
}

pub proof fn lemma_be_nat_bound(bytes: Seq<u8>)
    ensures
        be_nat(bytes) < pow2(8 * bytes.len()),
{
    lemma_le_nat_bound(bytes.reverse());
}

/// A byte string holds zero exactly when each of its bytes is zero.
pub proof fn lemma_le_nat_zero(bytes: Seq<u8>)
    ensures
        le_nat(bytes) == 0 <==> forall|i: int| 0 <= i < bytes.len() ==> bytes[i] == 0,
    decreases bytes.len(),
{
    if bytes.len() > 0 {
        let rest = bytes.drop_first();
        lemma_le_nat_zero(rest);
        if le_nat(bytes) == 0 {
            assert forall|i: int| 0 <= i < bytes.len() implies bytes[i] == 0 by {
                if i > 0 {
                    assert(rest[i - 1] == 0);
                }
            }
        }
        if forall|i: int| 0 <= i < bytes.len() ==> bytes[i] == 0 {
            assert forall|i: int| 0 <= i < rest.len() implies rest[i] == 0 by {
                assert(bytes[i + 1] == 0);
            }
        }
    }
}

pub proof fn lemma_be_nat_zero(bytes: Seq<u8>)
    ensures
        be_nat(bytes) == 0 <==> forall|i: int| 0 <= i < bytes.len() ==> bytes[i] == 0,
{
    let r = bytes.reverse();
    lemma_le_nat_zero(r);
    if be_nat(bytes) == 0 {
        assert forall|i: int| 0 <= i < bytes.len() implies bytes[i] == 0 by {
            assert(r[bytes.len() - 1 - i] == 0);
        }
    }
}

/// The most significant byte comes first: a byte more at the end makes the number 256 times as
/// large and adds the byte.
pub proof fn be_nat_of_one_byte_more(bytes: Seq<u8>, last: u8)
    ensures
        be_nat(Seq::empty()) == 0,
        be_nat(bytes.push(last)) == 256 * be_nat(bytes) + last,
{
    assert(Seq::<u8>::empty().reverse() =~= Seq::empty());
    assert(bytes.push(last).reverse() =~= seq![last] + bytes.reverse());
    le_nat_of_one_byte_more(last, bytes.reverse());
}

/// The least significant byte comes first: a byte more at the front makes the number 256 times as
/// large and adds the byte.
pub proof fn le_nat_of_one_byte_more(first: u8, bytes: Seq<u8>)
    ensures
        le_nat(Seq::empty()) == 0,
        le_nat(seq![first] + bytes) == 256 * le_nat(bytes) + first,
{
    assert((seq![first] + bytes).drop_first() =~= bytes);
}

/// The two's complement bits of a number give it back.
pub proof fn i32_bits_are_twos_complement(value: i32)
    ensures
        i32_bits(value) < 0x1_0000_0000,
        (i32_bits(value) - value) % 0x1_0000_0000 == 0,
{
}

/// The digits of a number of four bytes, written out.
proof fn lemma_le_bytes_4(v: nat)
    ensures
        le_bytes(v, 4) == seq![
            (v % 256) as u8,
            (v / 0x100 % 256) as u8,
            (v / 0x1_0000 % 256) as u8,
            (v / 0x100_0000 % 256) as u8,
        ],
{
    reveal_with_fuel(le_bytes, 5);
    assert(v / 256 / 256 == v / 0x1_0000);
    assert(v / 256 / 256 / 256 == v / 0x100_0000);
    assert(le_bytes(v, 4) =~= seq![
        (v % 256) as u8,
        (v / 0x100 % 256) as u8,
        (v / 0x1_0000 % 256) as u8,
        (v / 0x100_0000 % 256) as u8,
    ]);
}

/// The four bytes of `value`, least significant byte first.
pub fn u32_to_le(value: u32) -> (r: [u8; 4])
    ensures
        r@ == le_bytes(value as nat, 4),
{
    proof {
        lemma_le_bytes_4(value as nat);
    }
    let r = [
        (value % 256) as u8,
        (value / 0x100 % 256) as u8,
        (value / 0x1_0000 % 256) as u8,
        (value / 0x100_0000 % 256) as u8,
    ];
    assert(r@ =~= le_bytes(value as nat, 4));
    r
}

/// The bytes of `bytes` in the opposite order.
pub fn reversed(bytes: &[u8; 32]) -> (r: [u8; 32])
    ensures
        r@ == bytes@.reverse(),
{
    let mut r: [u8; 32] = [0u8; 32];
    let mut i: usize = 0;
    while i < 32
        invariant
            0 <= i <= 32,
            forall|j: int| 0 <= j < i ==> r@[j] == bytes@[31 - j],
        decreases 32 - i,
    {
        r[i] = bytes[31 - i];
        i += 1;
    }
    assert(r@ =~= bytes@.reverse());
    r
}

} // verus!
