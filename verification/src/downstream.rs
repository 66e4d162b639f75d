//! The difficulty that a connected miner works at, and when it is changed.

use crate::bytes::{be_nat, lemma_be_nat_bound, lemma_be_nat_zero};
use crate::errors::RolesError;
use crate::messages::to_u256;
use crate::target::{hash_rate_to_target_be, target_for};
use crate::uint256::{
    exceeds, lemma_le_nat_ones, lemma_two_to_128, lemma_uint256_bound, low_u64, quotient, Uint256,
};
use vstd::arithmetic::power2::{lemma_pow2_adds, pow2};
use vstd::prelude::*;

verus! {

/// The difficulty of a target, compared with the target of difficulty 1.
#[derive(Debug, Clone, Copy, PartialEq, Eq)]
pub enum Difficulty {
    /// There is no target yet.
    Zero,
    /// So many times as hard.
    Whole(u64),
    /// So many times as easy.
    Inverse(u64),
}

/// The `mining.set_difficulty` message to a miner.
#[derive(Debug, Clone, Copy, PartialEq, Eq)]
pub struct SetDifficulty {
    pub value: Difficulty,
}

/// The target of difficulty 1: 32 zero bits in front of 224 ones.
pub open spec fn pdiff() -> nat {
    (pow2(224) - 1) as nat
}

/// The difficulty of a target above 0. Of a difficulty that takes more than 64 bits, the lowest
/// 64 are kept.
pub open spec fn difficulty_of(target: nat) -> Difficulty {
    if pdiff() > target {
        Difficulty::Whole((pdiff() / target % pow2(64)) as u64)
    } else {
        Difficulty::Inverse((target / pdiff()) as u64)
    }
}

/// Whether `r` is the difficulty of the target that `target` holds, most significant byte first.
/// A target of zeros, whatever its length, has the difficulty 0; any other has to have 32 bytes.
pub open spec fn is_difficulty_of(target: Seq<u8>, r: Result<Difficulty, RolesError>) -> bool {
    if be_nat(target) == 0 {
        r == Ok::<Difficulty, RolesError>(Difficulty::Zero)
    } else if target.len() != 32 {
        r == Err::<Difficulty, RolesError>(RolesError::TargetLength(target.len() as usize))
    } else {
        r == Ok::<Difficulty, RolesError>(difficulty_of(be_nat(target)))
    }
}

/// What is known of a miner's pace.
#[derive(Debug, Clone, Copy, PartialEq, Eq)]
pub struct DifficultyMgmt {
    /// The miner's hash rate times the seconds between two shares.
    pub hashes_per_share: u128,
    /// The shares since the difficulty was last looked at.
    pub submits_since_last_update: u32,
    /// When the difficulty was last looked at, in seconds. 0 stands for never.
    pub timestamp_of_last_update: u64,
    /// How many shares it takes to look at the difficulty again.
    pub miner_num_submits_before_update: u32,
}

/// A connected miner.
#[derive(Debug, Clone, Copy, PartialEq, Eq)]
pub struct Downstream {
    pub difficulty_mgmt: DifficultyMgmt,
}

/// What is to be done next about a miner's difficulty.
#[derive(Debug, PartialEq, Eq)]
pub enum DifficultyUpdate {
    /// Nothing.
    Settled,
    /// The miner's hash rate is to be estimated: `submits` shares below `target` in `seconds`.
    Estimate { target: Vec<u8>, submits: u32, seconds: u64 },
    /// The message is to be sent to the miner.
    Send(SetDifficulty),
}

impl DifficultyMgmt {
    /// Starts to count shares anew.
    pub open spec fn restarted(self, timestamp_secs: u64) -> DifficultyMgmt {
        DifficultyMgmt {
            timestamp_of_last_update: timestamp_secs,
            submits_since_last_update: 0,
            ..self
        }
    }

    /// Counts `n` more shares.
    pub open spec fn after_shares(self, n: nat) -> DifficultyMgmt {
        DifficultyMgmt {
            submits_since_last_update: (self.submits_since_last_update + n) as u32,
            ..self
        }
    }

    /// Whether there were enough shares to look at the difficulty.
    pub open spec fn is_due(self) -> bool {
        self.submits_since_last_update >= self.miner_num_submits_before_update
    }
}

impl Downstream {
    /// Starts to count the miner's shares at the given time.
    pub fn init_difficulty_management(&mut self, timestamp_secs: u64)
        ensures
            final(self).difficulty_mgmt == old(self).difficulty_mgmt.restarted(timestamp_secs),
            final(self).difficulty_mgmt.timestamp_of_last_update == timestamp_secs,
            final(self).difficulty_mgmt.submits_since_last_update == 0,
            final(self).difficulty_mgmt.hashes_per_share
                == old(self).difficulty_mgmt.hashes_per_share,
            final(self).difficulty_mgmt.miner_num_submits_before_update
                == old(self).difficulty_mgmt.miner_num_submits_before_update,
    {
        self.difficulty_mgmt.timestamp_of_last_update = timestamp_secs;
        self.difficulty_mgmt.submits_since_last_update = 0;
    }

    /// Looks at the difficulty, if there were enough shares and time has passed since the last
    /// look. Unless the time of the last look is unknown, the miner's hash rate has to be
    /// estimated then, and [`Downstream::set_miner_hashrate`] goes on from there.
    pub fn try_update_difficult_settings(&mut self, timestamp_secs: u64) -> (r: DifficultyUpdate)
        requires
            old(self).difficulty_mgmt.is_due() ==> 0 < old(self).difficulty_mgmt.hashes_per_share
                < u128::MAX,
        ensures
            ({
                let before = old(self).difficulty_mgmt;
                let after = final(self).difficulty_mgmt;
                if !before.is_due() {
                    r is Settled && after == before
                } else if before.timestamp_of_last_update == 0 {
                    r is Settled && after == before.restarted(timestamp_secs)
                } else if timestamp_secs <= before.timestamp_of_last_update {
                    r is Settled && after == before
                } else {
                    &&& r matches DifficultyUpdate::Estimate { target, submits, seconds }
                    &&& target@.len() == 32
                    &&& be_nat(target@) == target_for(before.hashes_per_share as nat)
                    &&& submits == before.submits_since_last_update
                    &&& seconds == timestamp_secs - before.timestamp_of_last_update
                    &&& after == before
                }
            }),
            ({
                let before = old(self).difficulty_mgmt;
                let after = final(self).difficulty_mgmt;
                let due = before.submits_since_last_update
                    >= before.miner_num_submits_before_update;
                let restarts = due && before.timestamp_of_last_update == 0;
                &&& r is Estimate <==> due && 0 < before.timestamp_of_last_update < timestamp_secs
                &&& r is Estimate ==> r->seconds + before.timestamp_of_last_update == timestamp_secs
                &&& r is Estimate ==> r->submits == before.submits_since_last_update
                &&& r is Estimate ==> be_nat(r->target@) == (pow2(256) - before.hashes_per_share)
                    / (before.hashes_per_share + 1)
                &&& r is Send ==> false
                &&& restarts ==> after.timestamp_of_last_update == timestamp_secs
                    && after.submits_since_last_update == 0
                &&& !restarts ==> after.timestamp_of_last_update == before.timestamp_of_last_update
                    && after.submits_since_last_update == before.submits_since_last_update
                &&& after.hashes_per_share == before.hashes_per_share
                &&& after.miner_num_submits_before_update == before.miner_num_submits_before_update
            }),
    {
        if self.difficulty_mgmt.submits_since_last_update
            < self.difficulty_mgmt.miner_num_submits_before_update {
            return DifficultyUpdate::Settled;
        }
        let target = self.hash_rate_to_target();
        if self.difficulty_mgmt.timestamp_of_last_update == 0 {
            self.init_difficulty_management(timestamp_secs);
            return DifficultyUpdate::Settled;
        }
        if timestamp_secs <= self.difficulty_mgmt.timestamp_of_last_update {
            return DifficultyUpdate::Settled;
        }
        DifficultyUpdate::Estimate {
            target,
            submits: self.difficulty_mgmt.submits_since_last_update,
            seconds: timestamp_secs - self.difficulty_mgmt.timestamp_of_last_update,
        }
    }

    /// Goes on with an estimate of the miner's hash rate: if time has passed since the last look,
    /// the estimate is stored, and the difficulty of the target that it was made with is to be
    /// sent to the miner.
    pub fn set_miner_hashrate(
        &mut self,
        target: Vec<u8>,
        timestamp_secs: u64,
        hashes_per_share: u128,
    ) -> (r: Result<DifficultyUpdate, RolesError>)
        ensures
            ({
                let before = old(self).difficulty_mgmt;
                let after = final(self).difficulty_mgmt;
                if target@.len() != 32 {
                    &&& r == Err::<DifficultyUpdate, RolesError>(
                        RolesError::BinarySv2Error { max_size: 32, len: target@.len() as usize },
                    )
                    &&& after == before
                } else if before.timestamp_of_last_update == 0 {
                    &&& r matches Ok(DifficultyUpdate::Settled)
                    &&& after == before.restarted(timestamp_secs)
                } else if timestamp_secs <= before.timestamp_of_last_update {
                    &&& r matches Ok(DifficultyUpdate::Settled)
                    &&& after == before
                } else {
                    &&& r matches Ok(DifficultyUpdate::Send(message))
                    &&& is_difficulty_of(target@, Ok(message.value))
                    &&& after == (DifficultyMgmt {
                        hashes_per_share,
                        ..before.restarted(timestamp_secs)
                    })
                }
            }),
            ({
                let before = old(self).difficulty_mgmt;
                let after = final(self).difficulty_mgmt;
                let known = target@.len() == 32;
                let passed = known && 0 < before.timestamp_of_last_update < timestamp_secs;
                let restarts = passed || known && before.timestamp_of_last_update == 0;
                &&& r is Err <==> !known
                &&& (r matches Ok(DifficultyUpdate::Send(_))) <==> passed
                &&& (r matches Ok(DifficultyUpdate::Settled)) <==> known && !passed
                &&& r matches Ok(DifficultyUpdate::Send(m)) ==> {
                    let v = be_nat(target@) as int;
                    match m.value {
                        Difficulty::Zero => v == 0,
                        Difficulty::Whole(d) => 0 < v < pow2(224) - 1 && d == ((pow2(224) - 1) / v)
                            % (pow2(64) as int),
                        Difficulty::Inverse(d) => v >= pow2(224) - 1 && d == v / (pow2(224) - 1),
                    }
                }
                &&& after.hashes_per_share == (if passed {
                    hashes_per_share
                } else {
                    before.hashes_per_share
                })
                &&& restarts ==> after.timestamp_of_last_update == timestamp_secs
                    && after.submits_since_last_update == 0
                &&& !restarts ==> after.timestamp_of_last_update == before.timestamp_of_last_update
                    && after.submits_since_last_update == before.submits_since_last_update
                &&& after.miner_num_submits_before_update == before.miner_num_submits_before_update
            }),
    {
        let copy = vstd::slice::slice_to_vec(target.as_slice());
        match self.update_miner_hashrate(copy, timestamp_secs, hashes_per_share) {
            Err(e) => Err(e),
            Ok(None) => Ok(DifficultyUpdate::Settled),
            Ok(Some(_)) => match Downstream::get_set_difficulty(target) {
                Err(e) => Err(e),
                Ok(message) => Ok(DifficultyUpdate::Send(message)),
            },
        }
    }

    /// The target for the miner's hash rate, most significant byte first.
    pub fn hash_rate_to_target(&self) -> (r: Vec<u8>)
        requires
            0 < self.difficulty_mgmt.hashes_per_share < u128::MAX,
        ensures
            r@.len() == 32,
            be_nat(r@) == target_for(self.difficulty_mgmt.hashes_per_share as nat),
            be_nat(r@) == (pow2(256) - self.difficulty_mgmt.hashes_per_share) / (
            self.difficulty_mgmt.hashes_per_share + 1),
    {
        let target = hash_rate_to_target_be(self.difficulty_mgmt.hashes_per_share);
        vstd::slice::slice_to_vec(target.as_slice())
    }

    /// Counts a share of the miner.
    pub fn save_share(&mut self)
        requires
            old(self).difficulty_mgmt.submits_since_last_update < u32::MAX,
        ensures
            final(self).difficulty_mgmt == old(self).difficulty_mgmt.after_shares(1),
            final(self).difficulty_mgmt.submits_since_last_update
                == old(self).difficulty_mgmt.submits_since_last_update + 1,
            final(self).difficulty_mgmt.timestamp_of_last_update
                == old(self).difficulty_mgmt.timestamp_of_last_update,
            final(self).difficulty_mgmt.hashes_per_share
                == old(self).difficulty_mgmt.hashes_per_share,
            final(self).difficulty_mgmt.miner_num_submits_before_update
                == old(self).difficulty_mgmt.miner_num_submits_before_update,
    {
        self.difficulty_mgmt.submits_since_last_update += 1;
    }

    /// The message that sets the difficulty of a target, most significant byte first.
    pub fn get_set_difficulty(target: Vec<u8>) -> (r: Result<SetDifficulty, RolesError>)
        ensures
            match r {
                Ok(message) => is_difficulty_of(target@, Ok(message.value)),
                Err(e) => is_difficulty_of(target@, Err(e)),
            },
            (r matches Ok(SetDifficulty { value: Difficulty::Zero })) <==> be_nat(target@) == 0,
            r is Err <==> be_nat(target@) != 0 && target@.len() != 32,
            be_nat(target@) != 0 && target@.len() != 32 ==> (r matches Err(
                RolesError::TargetLength(n),
            ) && n == target@.len()),
            (r matches Ok(SetDifficulty { value: Difficulty::Whole(_) })) <==> target@.len() == 32 && 0
                < be_nat(target@) < pow2(224) - 1,
            (r matches Ok(SetDifficulty { value: Difficulty::Inverse(_) })) <==> target@.len() == 32
                && be_nat(target@) >= pow2(224) - 1,
            r matches Ok(SetDifficulty { value: Difficulty::Whole(d) }) ==> d == ((pow2(224) - 1) / (
            be_nat(target@) as int)) % (pow2(64) as int),
            r matches Ok(SetDifficulty { value: Difficulty::Inverse(d) }) ==> d == (be_nat(target@) as int) / (
            pow2(224) - 1),
    {
        proof {
            lemma_is_difficulty(target@);
        }
        match Downstream::difficulty_from_target(target) {
            Ok(value) => Ok(SetDifficulty { value }),
            Err(e) => Err(e),
        }
    }

    /// The difficulty of a target, most significant byte first.
    pub fn difficulty_from_target(target: Vec<u8>) -> (r: Result<Difficulty, RolesError>)
        ensures
            is_difficulty_of(target@, r),
            (r matches Ok(Difficulty::Zero)) <==> be_nat(target@) == 0,
            r is Err <==> be_nat(target@) != 0 && target@.len() != 32,
            be_nat(target@) != 0 && target@.len() != 32 ==> (r matches Err(
                RolesError::TargetLength(n),
            ) && n == target@.len()),
            (r matches Ok(Difficulty::Whole(_))) <==> target@.len() == 32 && 0
                < be_nat(target@) < pow2(224) - 1,
            (r matches Ok(Difficulty::Inverse(_))) <==> target@.len() == 32 && be_nat(target@)
                >= pow2(224) - 1,
            r matches Ok(Difficulty::Whole(d)) ==> d == ((pow2(224) - 1) / (
            be_nat(target@) as int)) % (pow2(64) as int),
            r matches Ok(Difficulty::Inverse(d)) ==> d == (be_nat(target@) as int) / (
            pow2(224) - 1),
    {
        proof {
            lemma_is_difficulty(target@);
            lemma_be_nat_zero(target@);
            assert(target.len() == target@.len());
        }
        if Downstream::is_zero(target.as_slice()) {
            return Ok(Difficulty::Zero);
        }
        let target = match Uint256::from_be_slice(target.as_slice()) {
            Ok(target) => target,
            Err(e) => return Err(e),
        };
        let bytes: [u8; 32] = [
            0, 0, 0, 0, 255, 255, 255, 255, 255, 255, 255, 255, 255, 255, 255, 255, 255, 255, 255,
            255, 255, 255, 255, 255, 255, 255, 255, 255, 255, 255, 255, 255,
        ];
        let pdiff_ = Uint256::from_be_bytes(bytes);
        proof {
            lemma_pdiff(bytes@);
        }
        if exceeds(&pdiff_, &target) {
            let diff = quotient(pdiff_, target);
            Ok(Difficulty::Whole(low_u64(&diff)))
        } else {
            proof {
                lemma_uint256_bound(target);
                easier_difficulty_is_exact(target@);
                vstd::arithmetic::div_mod::lemma_small_mod(target@ / pdiff(), pow2(64));
            }
            let diff = quotient(target, pdiff_);
            Ok(Difficulty::Inverse(low_u64(&diff)))
        }
    }

    /// Stores a new estimate of the miner's hash rate and starts to count shares anew, if time has
    /// passed since the last look: with none passed, nothing changes. If the time of the last look
    /// is unknown there is nothing to estimate from: only the count starts.
    pub fn update_miner_hashrate(
        &mut self,
        miner_target: Vec<u8>,
        timestamp_secs: u64,
        hashes_per_share: u128,
    ) -> (r: Result<Option<()>, RolesError>)
        ensures
            ({
                let before = old(self).difficulty_mgmt;
                let after = final(self).difficulty_mgmt;
                if miner_target@.len() != 32 {
                    &&& r == Err::<Option<()>, RolesError>(
                        RolesError::BinarySv2Error {
                            max_size: 32,
                            len: miner_target@.len() as usize,
                        },
                    )
                    &&& after == before
                } else if before.timestamp_of_last_update == 0 {
                    &&& r matches Ok(None)
                    &&& after == before.restarted(timestamp_secs)
                } else if timestamp_secs <= before.timestamp_of_last_update {
                    &&& r matches Ok(None)
                    &&& after == before
                } else {
                    &&& r matches Ok(Some(_))
                    &&& after == (DifficultyMgmt {
                        hashes_per_share,
                        ..before.restarted(timestamp_secs)
                    })
                }
            }),
            ({
                let before = old(self).difficulty_mgmt;
                let after = final(self).difficulty_mgmt;
                let known = miner_target@.len() == 32;
                let passed = known && 0 < before.timestamp_of_last_update < timestamp_secs;
                let restarts = passed || known && before.timestamp_of_last_update == 0;
                &&& r is Err <==> !known
                &&& (r matches Ok(Some(_))) <==> passed
                &&& after.hashes_per_share == (if passed {
                    hashes_per_share
                } else {
                    before.hashes_per_share
                })
                &&& restarts ==> after.timestamp_of_last_update == timestamp_secs
                    && after.submits_since_last_update == 0
                &&& !restarts ==> after.timestamp_of_last_update == before.timestamp_of_last_update
                    && after.submits_since_last_update == before.submits_since_last_update
                &&& after.miner_num_submits_before_update == before.miner_num_submits_before_update
            }),
    {
        match to_u256(miner_target) {
            Ok(_) => {},
            Err(e) => return Err(e),
        }
        if self.difficulty_mgmt.timestamp_of_last_update == 0 {
            self.init_difficulty_management(timestamp_secs);
            return Ok(None);
        }
        if timestamp_secs <= self.difficulty_mgmt.timestamp_of_last_update {
            return Ok(None);
        }
        self.difficulty_mgmt.hashes_per_share = hashes_per_share;
        self.init_difficulty_management(timestamp_secs);
        Ok(Some(()))
    }

    /// Whether each byte is zero.
    pub fn is_zero(buf: &[u8]) -> (r: bool)
        ensures
            r == (forall|i: int| 0 <= i < buf@.len() ==> buf@[i] == 0),
    {
        let mut i: usize = 0;
        while i < buf.len()
            invariant
                i <= buf@.len(),
                forall|j: int| 0 <= j < i ==> buf@[j] == 0,
            decreases buf@.len() - i,
        {
            if buf[i] != 0 {
                return false;
            }
            i += 1;
        }
        true
    }
}

proof fn lemma_pdiff(bytes: Seq<u8>)
    requires
        bytes.len() == 32,
        forall|i: int| 0 <= i < 4 ==> bytes[i] == 0,
        forall|i: int| 4 <= i < 32 ==> bytes[i] == 255,
    ensures
        be_nat(bytes) == pdiff(),
{
    let low = Seq::new(28, |i: int| 255u8);
    let high = Seq::new(4, |i: int| 0u8);
    assert(bytes.reverse() =~= low + high);
    crate::bytes::lemma_le_nat_concat(low, high);
    crate::bytes::lemma_le_nat_zero(high);
    lemma_le_nat_ones(low);
    assert(pow2(224) * 0 == 0);
}

/// Counting shares in two parts counts them all.
pub proof fn shares_add_up(m: DifficultyMgmt, a: nat, b: nat)
    requires
        m.submits_since_last_update + a + b <= u32::MAX,
    ensures
        m.after_shares(a).after_shares(b) == m.after_shares(a + b),
{
}

/// Once the count has started anew, the difficulty is looked at again after exactly the wanted
/// number of shares, and not before.
pub proof fn due_after_enough_shares(m: DifficultyMgmt, timestamp_secs: u64, n: nat)
    requires
        n <= u32::MAX,
    ensures
        m.restarted(timestamp_secs).after_shares(n).is_due() <==> n
            >= m.miner_num_submits_before_update,
{
}

/// The difficulty of a target of 32 bytes fits in 64 bits as it is kept.
proof fn lemma_is_difficulty(target: Seq<u8>)
    ensures
        pdiff() == pow2(224) - 1,
        pdiff() > 0,
        pow2(64) == u64::MAX + 1,
        target.len() == 32 && be_nat(target) >= pdiff() ==> 1 <= be_nat(target) / pdiff()
            <= u32::MAX + 1,
        0 < be_nat(target) ==> 0 <= pdiff() / be_nat(target) % pow2(64) < pow2(64),
{
    lemma_two_to_128();
    lemma_be_nat_bound(target);
    if target.len() == 32 && be_nat(target) >= pdiff() {
        easier_difficulty_is_exact(be_nat(target));
    }
    if 0 < be_nat(target) {
        vstd::arithmetic::div_mod::lemma_mod_pos_bound(
            (pdiff() / be_nat(target)) as int,
            pow2(64) as int,
        );
    }
}

/// What the difficulty of a target is, by the number that the target's bytes hold: nothing but
/// this meets [`is_difficulty_of`].
pub proof fn difficulty_is_determined(target: Seq<u8>, r: Result<Difficulty, RolesError>)
    requires
        is_difficulty_of(target, r),
        target.len() <= usize::MAX,
    ensures
        (r matches Ok(Difficulty::Zero)) <==> forall|i: int|
            0 <= i < target.len() ==> target[i] == 0,
        r is Err <==> target.len() != 32 && exists|i: int|
            0 <= i < target.len() && target[i] != 0,
        r matches Err(e) ==> (e matches RolesError::TargetLength(n) && n == target.len()),
        r matches Ok(Difficulty::Whole(d)) ==> 0 < be_nat(target) < pow2(224) - 1 && d == ((pow2(
            224,
        ) - 1) / (be_nat(target) as int)) % (pow2(64) as int),
        r matches Ok(Difficulty::Inverse(d)) ==> be_nat(target) >= pow2(224) - 1 && d == (be_nat(
            target,
        ) as int) / (pow2(224) - 1),
{
    lemma_is_difficulty(target);
    lemma_be_nat_zero(target);
}

/// The difficulty says how the target stands to that of difficulty 1, `2^224 - 1`: so many times
/// as small, or so many times as large, rounded down.
pub proof fn difficulty_is_the_ratio(target: nat)
    requires
        0 < target < pow2(256),
        (pow2(224) - 1) / (target as int) < pow2(64),
    ensures
        match difficulty_of(target) {
            Difficulty::Whole(d) => target < pow2(224) - 1 && d * target <= pow2(224) - 1 < (d + 1)
                * target,
            Difficulty::Inverse(d) => target >= pow2(224) - 1 && d * (pow2(224) - 1) <= target < (d
                + 1) * (pow2(224) - 1),
            Difficulty::Zero => false,
        },
{
    lemma_two_to_128();
    let p = pow2(224) - 1;
    let t = target as int;
    if pdiff() > target {
        vstd::arithmetic::div_mod::lemma_div_pos_is_pos(p, t);
        vstd::arithmetic::div_mod::lemma_small_mod((p / t) as nat, pow2(64));
        vstd::arithmetic::div_mod::lemma_fundamental_div_mod(p, t);
        vstd::arithmetic::div_mod::lemma_mod_pos_bound(p, t);
        let (d, m) = (p / t, p % t);
        assert(d * t <= p < (d + 1) * t) by (nonlinear_arith)
            requires
                p == t * d + m,
                0 <= m < t,
        ;
    } else {
        easier_difficulty_is_exact(target);
        vstd::arithmetic::div_mod::lemma_fundamental_div_mod(t, p);
        vstd::arithmetic::div_mod::lemma_mod_pos_bound(t, p);
        let (d, m) = (t / p, t % p);
        assert(d * p <= t < (d + 1) * p) by (nonlinear_arith)
            requires
                t == p * d + m,
                0 <= m < p,
        ;
    }
}

/// A look covers the time and the shares since the count started: if it started at `start` and
/// `n` shares came, a look at `now` finds the start as the time of the last look and `n` shares,
/// and the hash rate and the wanted number of shares are what they were.
pub proof fn look_covers_what_came_since_the_start(
    m: DifficultyMgmt,
    start: u64,
    n: nat,
    now: u64,
)
    requires
        0 < start < now,
        n <= u32::MAX,
    ensures
        ({
            let seen = m.restarted(start).after_shares(n);
            &&& seen.timestamp_of_last_update == start
            &&& seen.submits_since_last_update == n
            &&& now - seen.timestamp_of_last_update == now - start
            &&& seen.hashes_per_share == m.hashes_per_share
            &&& seen.miner_num_submits_before_update == m.miner_num_submits_before_update
            &&& seen.is_due() <==> n >= m.miner_num_submits_before_update
        }),
{
}

/// The difficulty of a target that is no harder than difficulty 1 is between 1 and `2^32`: it
/// fits in 64 bits and can be divided by.
pub proof fn easier_difficulty_is_exact(target: nat)
    requires
        pdiff() <= target < pow2(256),
    ensures
        1 <= target / pdiff() <= pow2(32),
        pow2(32) < pow2(64),
{
    lemma_two_to_128();
    lemma_pow2_adds(32, 224);
    let (p, q) = (pdiff(), target / pdiff());
    vstd::arithmetic::div_mod::lemma_fundamental_div_mod(target as int, p as int);
    vstd::arithmetic::div_mod::lemma_mod_pos_bound(target as int, p as int);
    let r = target % p;
    assert(1 <= q <= pow2(32)) by (nonlinear_arith)
        requires
            target == p * q + r,
            0 <= r < p,
            p <= target,
            target < pow2(32) * (p + 1),
            pow2(32) < p,
    ;
}

/// The difficulty that is sent to a miner is that of the target for its hash rate, and never 0.
pub proof fn sent_difficulty_is_that_of_the_hash_rate(
    hashes_per_share: u128,
    target: Seq<u8>,
    value: Difficulty,
)
    requires
        0 < hashes_per_share < u128::MAX,
        target.len() == 32,
        be_nat(target) == target_for(hashes_per_share as nat),
        is_difficulty_of(target, Ok(value)),
    ensures
        value == difficulty_of(target_for(hashes_per_share as nat)),
        value !is Zero,
{
    lemma_two_to_128();
    let (h, n) = (hashes_per_share as int, pow2(256) as int);
    assert(n >= pow2(128) * 2) by (nonlinear_arith)
        requires
            n == pow2(128) * pow2(128),
            pow2(128) >= 2,
    ;
    vstd::arithmetic::div_mod::lemma_div_non_zero(n - h, h + 1);
}

/// A harder target has no lower a difficulty, as long as the difficulties fit in 64 bits.
pub proof fn harder_target_no_lower_difficulty(harder: nat, easier: nat)
    requires
        0 < harder <= easier < pdiff(),
        pdiff() / harder < pow2(64),
    ensures
        difficulty_of(harder) matches Difficulty::Whole(h) && difficulty_of(
            easier,
        ) matches Difficulty::Whole(e) && h >= e && h == pdiff() / harder && e == pdiff() / easier,
{
    lemma_two_to_128();
    vstd::arithmetic::div_mod::lemma_div_is_ordered_by_denominator(
        pdiff() as int,
        harder as int,
        easier as int,
    );
    vstd::arithmetic::div_mod::lemma_small_mod(pdiff() / harder, pow2(64));
    vstd::arithmetic::div_mod::lemma_small_mod(pdiff() / easier, pow2(64));
}

} // verus!
