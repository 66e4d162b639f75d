use rand::Rng;
use sv2_roles_logic::target::{
    hash_rate_to_target_be, hash_rate_to_target_le, target_from_hash_rate,
};
use sv2_roles_logic::errors::RolesError;
use sv2_roles_logic::uint256::{from_u128_to_uint256, u128_as_u256, Uint256};

fn hashes_per_share(h: f32, share_per_min: f32) -> u128 {
    (h * (60_f32 / share_per_min)) as u128
}

#[test]
fn test_hash_rate_to_target_be() {
    let mut rng = rand::thread_rng();
    let mut successes = 0;

    let hr = 10.0;
    let hrs = hr * 60.0;
    let target = hash_rate_to_target_be(hashes_per_share(hr, 1.0));
    let target = bitcoin::util::uint::Uint256::from_be_slice(&target[..]).unwrap();

    let mut i: i64 = 0;
    let mut results = vec![];
    let attempts = 1000;
    while successes < attempts {
        let a: u128 = rng.gen();
        let b: u128 = rng.gen();
        let a = a.to_be_bytes();
        let b = b.to_be_bytes();
        let concat = [&a[..], &b[..]].concat().to_vec();
        i += 1;
        if bitcoin::util::uint::Uint256::from_be_slice(&concat[..]).unwrap() <= target {
            results.push(i);
            i = 0;
            successes += 1;
        }
    }

    let mut average: f32 = 0.0;
    for i in &results {
        average = average + (*i as f32) / attempts as f32;
    }
    let delta = (hrs - average) as i64;
    assert!(delta.abs() < 100);
}

#[test]
fn test_hash_rate_to_target_le() {
    let mut rng = rand::thread_rng();
    let mut successes = 0;

    let hr = 10.0;
    let hrs = hr * 60.0;
    let mut target = hash_rate_to_target_le(hashes_per_share(hr, 1.0)).to_vec();
    target.reverse();
    let target = bitcoin::util::uint::Uint256::from_be_slice(&target).unwrap();

    let mut i: i64 = 0;
    let mut results = vec![];
    let attempts = 1000;
    while successes < attempts {
        let a: u128 = rng.gen();
        let b: u128 = rng.gen();
        let a = a.to_be_bytes();
        let b = b.to_be_bytes();
        let concat = [&a[..], &b[..]].concat().to_vec();
        i += 1;
        if bitcoin::util::uint::Uint256::from_be_slice(&concat[..]).unwrap() <= target {
            results.push(i);
            i = 0;
            successes += 1;
        }
    }

    let mut average: f32 = 0.0;
    for i in &results {
        average = average + (*i as f32) / attempts as f32;
    }
    let delta = (hrs - average) as i64;
    assert!(delta.abs() < 100);
}

fn wide(v: u128) -> bitcoin::util::uint::Uint256 {
    bitcoin::util::uint::Uint256::from_be_slice(&[[0u8; 16], v.to_be_bytes()].concat()).unwrap()
}

#[test]
fn one_hash_per_share_takes_half_of_all_hashes() {
    let mut expected = [255u8; 32];
    expected[0] = 127;
    assert_eq!(hash_rate_to_target_be(1), expected);
    expected.reverse();
    assert_eq!(hash_rate_to_target_le(1), expected);
}

#[test]
fn the_target_follows_the_formula() {
    let all = bitcoin::util::uint::Uint256::from_be_bytes([255; 32]);
    for h in [2u128, 600, 1 << 40, u128::MAX - 1] {
        let expected = (all - wide(h - 1)) / wide(h + 1);
        assert_eq!(hash_rate_to_target_be(h), expected.to_be_bytes());
    }
}

#[test]
fn more_hashes_make_the_target_smaller() {
    assert!(hash_rate_to_target_be(601) < hash_rate_to_target_be(600));
    assert!(hash_rate_to_target_be(u128::MAX - 1) < hash_rate_to_target_be(1 << 100));
}

#[test]
fn the_target_of_a_fraction_is_scaled() {
    assert_eq!(target_from_hash_rate(0), [0; 32]);
    let mut expected = [0u8; 32];
    expected[..16].copy_from_slice(&[255; 16]);
    assert_eq!(target_from_hash_rate(1), expected);
    let square = wide(u128::MAX) * wide(u128::MAX);
    let mut expected = square.to_be_bytes();
    expected.reverse();
    assert_eq!(target_from_hash_rate(u128::MAX), expected);
}

#[test]
fn a_number_of_128_bits_is_widened() {
    let v: u128 = 0x0102_0304_0506_0708_090a_0b0c_0d0e_0f10;
    let bytes = from_u128_to_uint256(v).to_be_bytes();
    assert_eq!(bytes[..16], [0; 16]);
    assert_eq!(bytes[16..], v.to_be_bytes());
    assert_eq!(u128_as_u256(v).to_be_bytes(), bytes);
    assert_eq!(Uint256::from_be_bytes(bytes), from_u128_to_uint256(v));
}

#[test]
fn a_slice_is_read_as_a_number_if_it_has_32_bytes() {
    let bytes: Vec<u8> = (1..=32).collect();
    assert_eq!(Uint256::from_be_slice(&bytes).unwrap().to_be_bytes()[..], bytes[..]);
    assert_eq!(Uint256::from_be_slice(&bytes[1..]), Err(RolesError::TargetLength(31)));
}

#[test]
fn the_target_is_the_greatest_that_keeps_the_pace() {
    let all = bitcoin::util::uint::Uint256::from_be_bytes([255; 32]);
    let one = wide(1);
    for h in [2u128, 600, 1 << 64, u128::MAX - 1] {
        let t = bitcoin::util::uint::Uint256::from_be_bytes(hash_rate_to_target_be(h));
        let expected_hashes =
            |t: bitcoin::util::uint::Uint256| (all - t + one) / (t + one);
        assert_eq!(expected_hashes(t), wide(h));
        assert!(expected_hashes(t + one) < wide(h));
    }
}
