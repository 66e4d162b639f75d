use sv2_roles_logic::downstream::{
    Difficulty, DifficultyMgmt, DifficultyUpdate, Downstream, SetDifficulty,
};
use sv2_roles_logic::errors::RolesError;
use sv2_roles_logic::target::hash_rate_to_target_be;

fn miner(submits: u32, timestamp: u64) -> Downstream {
    Downstream {
        difficulty_mgmt: DifficultyMgmt {
            hashes_per_share: 600,
            submits_since_last_update: submits,
            timestamp_of_last_update: timestamp,
            miner_num_submits_before_update: 5,
        },
    }
}

fn target(first: usize, byte: u8) -> Vec<u8> {
    let mut target = vec![0; 32];
    target[first] = byte;
    target
}

#[test]
fn zeros_are_found() {
    assert!(Downstream::is_zero(&[]));
    assert!(Downstream::is_zero(&[0; 40]));
    for i in 0..40 {
        let mut buf = [0u8; 40];
        buf[i] = 1;
        assert!(!Downstream::is_zero(&buf));
    }
}

#[test]
fn the_difficulty_is_relative_to_difficulty_one() {
    assert_eq!(
        Downstream::difficulty_from_target(vec![0; 32]),
        Ok(Difficulty::Zero)
    );
    assert_eq!(Downstream::difficulty_from_target(vec![]), Ok(Difficulty::Zero));
    let mut pdiff = vec![255; 32];
    pdiff[..4].copy_from_slice(&[0; 4]);
    assert_eq!(
        Downstream::difficulty_from_target(pdiff.clone()),
        Ok(Difficulty::Inverse(1))
    );
    pdiff[31] = 254;
    assert_eq!(
        Downstream::difficulty_from_target(pdiff),
        Ok(Difficulty::Whole(1))
    );
    // 2^216 and 2^224
    assert_eq!(
        Downstream::difficulty_from_target(target(4, 1)),
        Ok(Difficulty::Whole(255))
    );
    assert_eq!(
        Downstream::difficulty_from_target(target(3, 1)),
        Ok(Difficulty::Inverse(1))
    );
    assert_eq!(
        Downstream::difficulty_from_target(vec![255; 32]),
        Ok(Difficulty::Inverse(1 << 32))
    );
    // Only the lowest 64 bits are kept.
    assert_eq!(
        Downstream::difficulty_from_target(target(31, 1)),
        Ok(Difficulty::Whole(u64::MAX))
    );
}

#[test]
fn a_target_has_32_bytes() {
    assert_eq!(
        Downstream::difficulty_from_target(vec![1; 31]),
        Err(RolesError::TargetLength(31))
    );
    assert_eq!(
        Downstream::get_set_difficulty(vec![1; 33]),
        Err(RolesError::TargetLength(33))
    );
    assert_eq!(
        Downstream::get_set_difficulty(target(4, 1)),
        Ok(SetDifficulty {
            value: Difficulty::Whole(255)
        })
    );
}

#[test]
fn a_harder_target_has_a_higher_difficulty() {
    let easy = Downstream::difficulty_from_target(target(4, 2)).unwrap();
    let hard = Downstream::difficulty_from_target(target(4, 1)).unwrap();
    assert_eq!((easy, hard), (Difficulty::Whole(127), Difficulty::Whole(255)));
}

#[test]
fn the_target_is_that_of_the_hash_rate() {
    assert_eq!(
        miner(0, 0).hash_rate_to_target(),
        hash_rate_to_target_be(600).to_vec()
    );
}

#[test]
fn shares_are_counted_from_the_start() {
    let mut d = miner(9, 0);
    d.init_difficulty_management(1000);
    assert_eq!(d, miner(0, 1000));
    d.save_share();
    d.save_share();
    assert_eq!(d, miner(2, 1000));
}

#[test]
fn nothing_happens_before_there_are_enough_shares() {
    let mut d = miner(4, 1000);
    assert_eq!(d.try_update_difficult_settings(1060), DifficultyUpdate::Settled);
    assert_eq!(d, miner(4, 1000));
    d.save_share();
    assert_ne!(d.try_update_difficult_settings(1060), DifficultyUpdate::Settled);
}

#[test]
fn an_unknown_start_starts_the_count() {
    let mut d = miner(7, 0);
    assert_eq!(d.try_update_difficult_settings(1060), DifficultyUpdate::Settled);
    assert_eq!(d, miner(0, 1060));
    let mut d = miner(7, 0);
    assert_eq!(d.update_miner_hashrate(vec![1; 32], 1060, 9), Ok(None));
    assert_eq!(d, miner(0, 1060));
    let mut d = miner(7, 0);
    let r = d.set_miner_hashrate(vec![1; 32], 1060, 9);
    assert_eq!(r, Ok(DifficultyUpdate::Settled));
    assert_eq!(d, miner(0, 1060));
}

#[test]
fn enough_shares_change_the_difficulty() {
    let mut d = miner(5, 1000);
    let target = hash_rate_to_target_be(600).to_vec();
    let update = d.try_update_difficult_settings(1060);
    assert_eq!(
        update,
        DifficultyUpdate::Estimate {
            target: target.clone(),
            submits: 5,
            seconds: 60
        }
    );
    assert_eq!(d, miner(5, 1000));
    let update = d.set_miner_hashrate(target.clone(), 1061, 700).unwrap();
    assert_eq!(
        update,
        DifficultyUpdate::Send(Downstream::get_set_difficulty(target).unwrap())
    );
    assert_eq!(d.difficulty_mgmt.hashes_per_share, 700);
    assert_eq!(d.difficulty_mgmt.submits_since_last_update, 0);
    assert_eq!(d.difficulty_mgmt.timestamp_of_last_update, 1061);
}

#[test]
fn the_hash_rate_stays_while_no_time_passes() {
    let mut d = miner(5, 1000);
    assert_eq!(d.update_miner_hashrate(vec![1; 32], 1000, 9), Ok(None));
    assert_eq!(d, miner(5, 1000));
    assert_eq!(d.update_miner_hashrate(vec![1; 32], 999, 9), Ok(None));
    assert_eq!(d, miner(5, 1000));
    assert_eq!(d.update_miner_hashrate(vec![1; 32], 1001, 9), Ok(Some(())));
    assert_eq!(d.difficulty_mgmt.hashes_per_share, 9);
}

#[test]
fn no_estimate_is_asked_for_while_no_time_passes() {
    let mut d = miner(5, 1000);
    assert_eq!(d.try_update_difficult_settings(1000), DifficultyUpdate::Settled);
    assert_eq!(d, miner(5, 1000));
    assert_ne!(d.try_update_difficult_settings(1001), DifficultyUpdate::Settled);
}

#[test]
fn no_difficulty_is_sent_while_no_time_passes() {
    let mut d = miner(5, 1000);
    let r = d.set_miner_hashrate(vec![1; 32], 1000, 9);
    assert_eq!(r, Ok(DifficultyUpdate::Settled));
    assert_eq!(d, miner(5, 1000));
}

#[test]
fn a_hash_rate_needs_a_target_of_32_bytes() {
    let mut d = miner(5, 1000);
    let e = RolesError::BinarySv2Error {
        max_size: 32,
        len: 31,
    };
    assert_eq!(d.update_miner_hashrate(vec![1; 31], 1060, 9), Err(e));
    let e = RolesError::BinarySv2Error {
        max_size: 32,
        len: 33,
    };
    assert_eq!(d.set_miner_hashrate(vec![1; 33], 1060, 9), Err(e));
    assert_eq!(d, miner(5, 1000));
    assert_eq!(d.update_miner_hashrate(vec![1; 32], 1060, 9), Ok(Some(())));
    assert_eq!(d.difficulty_mgmt.hashes_per_share, 9);
}

#[test]
fn the_difficulty_that_is_sent_is_never_zero() {
    for hashes in [1, 600, 1 << 32, 1 << 40, u128::MAX - 1] {
        let target = hash_rate_to_target_be(hashes).to_vec();
        let value = Downstream::difficulty_from_target(target).unwrap();
        assert_ne!(value, Difficulty::Zero);
    }
    // A share for every 2^32 hashes is difficulty 1, and for every 2^40 hashes difficulty 256.
    let one = hash_rate_to_target_be(1 << 32).to_vec();
    let more = hash_rate_to_target_be(1 << 40).to_vec();
    assert_eq!(Downstream::difficulty_from_target(one), Ok(Difficulty::Whole(1)));
    assert_eq!(Downstream::difficulty_from_target(more), Ok(Difficulty::Whole(256)));
}
