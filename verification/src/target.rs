//! The target that makes a miner find shares at the wanted pace.

use crate::bytes::{be_nat, le_nat, reversed};
use crate::uint256::{
    difference, from_u128_to_uint256, lemma_le_nat_ones, lemma_two_to_128, product, quotient,
    u128_as_u256, Uint256,
};
use vstd::arithmetic::power2::pow2;
use vstd::prelude::*;

verus! {

/// How many hashes it takes on average, rounded down, to find one that is not above `target`.
///
/// Drawing hashes without replacement from `2^256` of which `target` are a success follows the
/// negative hypergeometric distribution, whose mean this is.
pub open spec fn expected_hashes(target: nat) -> nat {
    ((pow2(256) - target) / (target + 1int)) as nat
}

/// The target that is given to a miner who should find a share every `hashes_per_share` hashes.
pub open spec fn target_for(hashes_per_share: nat) -> nat {
    ((pow2(256) - hashes_per_share) / (hashes_per_share + 1int)) as nat
}

/// The target, most significant byte first, for a miner who should find a share every
/// `hashes_per_share` hashes: the hash rate times the seconds between shares.
pub fn _hash_rate_to_target(hashes_per_share: u128) -> (r: [u8; 32])
    requires
        0 < hashes_per_share < u128::MAX,
    ensures
        be_nat(r@) == target_for(hashes_per_share as nat),
        be_nat(r@) == (pow2(256) - hashes_per_share) / (hashes_per_share + 1),
{
    let h_times_s_plus_one = from_u128_to_uint256(hashes_per_share + 1);
    let h_times_s_minus_one = from_u128_to_uint256(hashes_per_share - 1);
    let ones = [255u8; 32];
    let two_to_256_minus_one = Uint256::from_be_bytes(ones);
    proof {
        lemma_le_nat_ones(ones@.reverse());
        lemma_two_to_128();
        assert(pow2(128) * pow2(128) >= pow2(128)) by (nonlinear_arith)
            requires
                pow2(128) >= 1,
        ;
    }
    let numerator = difference(two_to_256_minus_one, h_times_s_minus_one);
    quotient(numerator, h_times_s_plus_one).to_be_bytes()
}

/// The target, least significant byte first, for a miner who should find a share every
/// `hashes_per_share` hashes.
pub fn hash_rate_to_target_le(hashes_per_share: u128) -> (r: [u8; 32])
    requires
        0 < hashes_per_share < u128::MAX,
    ensures
        le_nat(r@) == target_for(hashes_per_share as nat),
        le_nat(r@) == (pow2(256) - hashes_per_share) / (hashes_per_share + 1),
{
    reversed(&_hash_rate_to_target(hashes_per_share))
}

/// The target, most significant byte first, for a miner who should find a share every
/// `hashes_per_share` hashes.
pub fn hash_rate_to_target_be(hashes_per_share: u128) -> (r: [u8; 32])
    requires
        0 < hashes_per_share < u128::MAX,
    ensures
        be_nat(r@) == target_for(hashes_per_share as nat),
        be_nat(r@) == (pow2(256) - hashes_per_share) / (hashes_per_share + 1),
{
    _hash_rate_to_target(hashes_per_share)
}

/// The target, least significant byte first, that is the share `operand / (2^128 - 1)` of
/// `(2^128 - 1)^2`.
pub fn target_from_hash_rate(operand: u128) -> (r: [u8; 32])
    ensures
        le_nat(r@) == u128::MAX * operand,
{
    let target = product(u128_as_u256(u128::MAX), u128_as_u256(operand));
    proof {
        lemma_two_to_128();
        assert(u128::MAX * operand < pow2(128) * pow2(128)) by (nonlinear_arith)
            requires
                pow2(128) == u128::MAX + 1,
        ;
        assert(0 <= u128::MAX * operand) by (nonlinear_arith);
        vstd::arithmetic::div_mod::lemma_small_mod((u128::MAX * operand) as nat, pow2(256));
    }
    reversed(&target.to_be_bytes())
}

/// A target makes a miner do at least `hashes_per_share` hashes on average for a share, exactly
/// if it is not above the one that is given: no greater target gives shares this seldom.
pub proof fn target_is_the_greatest(hashes_per_share: nat, target: nat)
    requires
        hashes_per_share < pow2(256),
        target < pow2(256),
    ensures
        hashes_per_share <= expected_hashes(target) <==> target <= target_for(hashes_per_share),
{
    let n = pow2(256) as int;
    let (h, t) = (hashes_per_share as int, target as int);
    lemma_quotient_at_least(n - t, t + 1, h);
    lemma_quotient_at_least(n - h, h + 1, t);
    assert(h * (t + 1) <= n - t <==> t * (h + 1) <= n - h) by (nonlinear_arith);
}

proof fn lemma_quotient_at_least(a: int, d: int, q: int)
    requires
        a >= 0,
        d > 0,
    ensures
        q <= a / d <==> q * d <= a,
{
    vstd::arithmetic::div_mod::lemma_fundamental_div_mod(a, d);
    vstd::arithmetic::div_mod::lemma_mod_pos_bound(a, d);
    let (k, r) = (a / d, a % d);
    assert(q <= k <==> q * d <= a) by (nonlinear_arith)
        requires
            a == d * k + r,
            0 <= r < d,
    ;
}

/// A miner who should do more hashes for a share gets no greater a target.
pub proof fn more_hashes_no_greater_target(less: nat, more: nat)
    requires
        less <= more < pow2(256),
    ensures
        target_for(more) <= target_for(less),
{
    let n = pow2(256) as int;
    let t = target_for(more) as int;
    lemma_quotient_at_least(n - more, more + 1int, t);
    lemma_quotient_at_least(n - less, less + 1int, t);
    vstd::arithmetic::div_mod::lemma_div_pos_is_pos(n - more, more + 1int);
    assert(t * (less + 1int) <= n - less) by (nonlinear_arith)
        requires
            t * (more + 1int) <= n - more,
            t >= 0,
            less <= more,
    ;
}

/// The average number of hashes for the given target is what was asked for, for all that can be
/// asked for. In general it is no less, and one target more would make it less.
pub proof fn target_gives_the_pace(hashes_per_share: nat)
    requires
        0 < hashes_per_share < pow2(256),
    ensures
        hashes_per_share < u128::MAX ==> expected_hashes(target_for(hashes_per_share))
            == hashes_per_share,
        expected_hashes(target_for(hashes_per_share)) >= hashes_per_share,
        expected_hashes(target_for(hashes_per_share) + 1) < hashes_per_share,
{
    let n = pow2(256) as int;
    let h = hashes_per_share as int;
    let t = target_for(hashes_per_share);
    lemma_two_to_128();
    lemma_quotient_at_least(n - h, h + 1, t as int);
    vstd::arithmetic::div_mod::lemma_div_pos_is_pos(n - h, h + 1);
    assert(t + 1 < n) by (nonlinear_arith)
        requires
            t * (h + 1) <= n - h,
            h >= 1,
            n > 4,
            t >= 0,
    ;
    target_is_the_greatest(hashes_per_share, t);
    target_is_the_greatest(hashes_per_share, t + 1);
    if hashes_per_share < u128::MAX {
        let p = pow2(128) as int;
        assert(h * (h + 1) <= n - h) by (nonlinear_arith)
            requires
                n == p * p,
                0 < h < p - 1,
        ;
        lemma_quotient_at_least(n - h, h + 1, h);
        lemma_quotient_at_least(n - h, h + 1, t + 1int);
        lemma_quotient_at_least(n - t, t + 1int, h + 1);
        assert(!((h + 1) * (t + 1) <= n - t)) by (nonlinear_arith)
            requires
                !((t + 1) * (h + 1) <= n - h),
                h <= t,
        ;
    }
}

} // verus!
