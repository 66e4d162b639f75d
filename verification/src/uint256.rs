//! Unsigned numbers of 256 bits.

use crate::bytes::{
    be_nat, le_bytes, le_nat, lemma_le_bytes_len, lemma_le_nat_concat, lemma_le_nat_of_le_bytes,
    lemma_le_nat_zero,
};
use crate::errors::RolesError;
use vstd::arithmetic::power2::{lemma2_to64, lemma_pow2_adds, lemma_pow2_strictly_increases, pow2};
use vstd::prelude::*;

verus! {

/// An unsigned number of 256 bits.
#[derive(Debug, Clone, Copy, PartialEq, Eq)]
pub struct Uint256 {
    be: [u8; 32],
}

impl View for Uint256 {
    type V = nat;

    closed spec fn view(&self) -> nat {
        be_nat(self.be@)
    }
}

/// The error of reading a number of the `bitcoin` crate from too many or too few bytes. Nothing
/// is said of what it holds.
#[verifier::external_type_specification]
#[verifier::external_body]
pub struct ExParseLengthError(bitcoin::util::uint::ParseLengthError);

/// Calls `Uint256::from_be_slice` of the `bitcoin` crate. Trusted: 32 bytes are read as a number
/// with the most significant byte first, and any other length is refused.
#[verifier::external_body]
fn parse_be_slice(bytes: &[u8]) -> (r: Result<Uint256, bitcoin::util::uint::ParseLengthError>)
    ensures
        match r {
            Ok(v) => bytes@.len() == 32 && v@ == be_nat(bytes@),
            Err(_) => bytes@.len() != 32,
        },
{
    Ok(Uint256 { be: bitcoin::util::uint::Uint256::from_be_slice(bytes)?.to_be_bytes() })
}

/// Calls the subtraction of `Uint256` of the `bitcoin` crate. Trusted: the difference is exact
/// where it is not negative.
#[verifier::external_body]
pub(crate) fn difference(a: Uint256, b: Uint256) -> (r: Uint256)
    requires
        b@ <= a@,
    ensures
        r@ == a@ - b@,
{
    let a = bitcoin::util::uint::Uint256::from_be_bytes(a.be);
    let b = bitcoin::util::uint::Uint256::from_be_bytes(b.be);
    Uint256 { be: (a - b).to_be_bytes() }
}

/// Calls the multiplication of `Uint256` of the `bitcoin` crate. Trusted: the lowest 256 bits of
/// the product are kept.
#[verifier::external_body]
pub(crate) fn product(a: Uint256, b: Uint256) -> (r: Uint256)
    ensures
        r@ == (a@ * b@) % pow2(256),
{
    let a = bitcoin::util::uint::Uint256::from_be_bytes(a.be);
    let b = bitcoin::util::uint::Uint256::from_be_bytes(b.be);
    Uint256 { be: (a * b).to_be_bytes() }
}

/// Calls the division of `Uint256` of the `bitcoin` crate. Trusted: the quotient is rounded down.
/// The outside function panics on a divisor of zero.
#[verifier::external_body]
pub(crate) fn quotient(a: Uint256, b: Uint256) -> (r: Uint256)
    requires
        b@ > 0,
    ensures
        r@ == a@ / b@,
{
    let a = bitcoin::util::uint::Uint256::from_be_bytes(a.be);
    let b = bitcoin::util::uint::Uint256::from_be_bytes(b.be);
    Uint256 { be: (a / b).to_be_bytes() }
}

/// Calls the comparison `>` of `Uint256` of the `bitcoin` crate. Trusted: it compares the
/// numbers.
#[verifier::external_body]
pub(crate) fn exceeds(a: &Uint256, b: &Uint256) -> (r: bool)
    ensures
        r == (a@ > b@),
{
    bitcoin::util::uint::Uint256::from_be_bytes(a.be)
        > bitcoin::util::uint::Uint256::from_be_bytes(b.be)
}

/// Calls `Uint256::low_u64` of the `bitcoin` crate. Trusted: the lowest 64 bits are kept.
#[verifier::external_body]
pub(crate) fn low_u64(a: &Uint256) -> (r: u64)
    ensures
        r == a@ % pow2(64),
{
    bitcoin::util::uint::Uint256::from_be_bytes(a.be).low_u64()
}

impl Uint256 {
    /// The number that `bytes` hold, most significant byte first.
    pub fn from_be_bytes(bytes: [u8; 32]) -> (r: Self)
        ensures
            r@ == be_nat(bytes@),
    {
        Uint256 { be: bytes }
    }

    /// The number that `bytes` hold, most significant byte first. There have to be 32 of them.
    pub fn from_be_slice(bytes: &[u8]) -> (r: Result<Self, RolesError>)
        ensures
            match r {
                Ok(v) => bytes@.len() == 32 && v@ == be_nat(bytes@),
                Err(e) => bytes@.len() != 32 && e == RolesError::TargetLength(
                    bytes@.len() as usize,
                ),
            },
    {
        match parse_be_slice(bytes) {
            Ok(v) => Ok(v),
            Err(_) => Err(RolesError::TargetLength(bytes.len())),
        }
    }

    /// The bytes of the number, most significant byte first.
    pub fn to_be_bytes(&self) -> (r: [u8; 32])
        ensures
            be_nat(r@) == self@,
    {
        self.be
    }
}

/// The number of 256 bits that equals `input`.
pub fn from_u128_to_uint256(input: u128) -> (r: Uint256)
    ensures
        r@ == input,
{
    let mut be_bytes = [0u8; 32];
    let mut rest: u128 = input;
    let mut i: usize = 0;
    while i < 16
        invariant
            i <= 16,
            forall|j: int| 0 <= j < 32 - i ==> be_bytes@[j] == 0,
            le_bytes(input as nat, 16) == be_bytes@.skip(32 - i).reverse() + le_bytes(
                rest as nat,
                (16 - i) as nat,
            ),
        decreases 16 - i,
    {
        let ghost before = be_bytes@.skip(32 - i).reverse();
        let ghost digits = le_bytes(rest as nat, (16 - i) as nat);
        be_bytes[31 - i] = (rest % 256) as u8;
        rest = rest / 256;
        i += 1;
        proof {
            assert(be_bytes@.skip(32 - i).reverse() =~= before.push(digits[0]));
            assert(before + digits =~= before.push(digits[0]) + le_bytes(
                rest as nat,
                (16 - i) as nat,
            ));
        }
    }
    proof {
        let low = le_bytes(input as nat, 16);
        let high = Seq::new(16, |j: int| 0u8);
        lemma_le_bytes_len(input as nat, 16);
        assert(be_bytes@.skip(16).reverse() =~= low);
        assert forall|j: int| 0 <= j < 32 implies be_bytes@.reverse()[j] == (low + high)[j] by {
            if j < 16 {
                assert(be_bytes@.skip(16).reverse()[j] == low[j]);
            }
        }
        assert(be_bytes@.reverse() =~= low + high);
        lemma_le_nat_concat(low, high);
        lemma_le_nat_zero(high);
        lemma_two_to_128();
        lemma_le_nat_of_le_bytes(input as nat, 16);
        assert(pow2(128) * 0 == 0);
    }
    Uint256::from_be_bytes(be_bytes)
}

/// The number of 256 bits that equals `v`.
pub fn u128_as_u256(v: u128) -> (r: Uint256)
    ensures
        r@ == v,
{
    from_u128_to_uint256(v)
}

pub proof fn lemma_two_to_128()
    ensures
        pow2(128) == u128::MAX + 1,
        pow2(256) == pow2(128) * pow2(128),
        pow2(64) == u64::MAX + 1,
        pow2(32) == u32::MAX + 1,
        pow2(128) < pow2(224) < pow2(256),
{
    lemma2_to64();
    lemma_pow2_adds(64, 64);
    lemma_pow2_adds(128, 128);
    lemma_pow2_strictly_increases(128, 224);
    lemma_pow2_strictly_increases(224, 256);
}

/// A number is below `2^256`.
pub proof fn lemma_uint256_bound(v: Uint256)
    ensures
        v@ < pow2(256),
{
    crate::bytes::lemma_be_nat_bound(v.be@);
}

/// A byte string of which every bit is set.
pub proof fn lemma_le_nat_ones(bytes: Seq<u8>)
    requires
        forall|i: int| 0 <= i < bytes.len() ==> bytes[i] == 255,
    ensures
        le_nat(bytes) == pow2(8 * bytes.len()) - 1,
    decreases bytes.len(),
{
    lemma2_to64();
    if bytes.len() > 0 {
        let rest = bytes.drop_first();
        lemma_le_nat_ones(rest);
        lemma_pow2_adds(8, 8 * rest.len());
        assert(8 + 8 * rest.len() == 8 * bytes.len());
    }
}

} // verus!
