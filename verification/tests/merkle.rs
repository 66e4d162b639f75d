use sv2_roles_logic::header::{get_target, try_get_target, BlockHash};
use sv2_roles_logic::merkle::{
    merkle_root_from_path, merkle_root_from_path_, merkle_root_of_coinbase, reduce_path,
};
use sv2_roles_logic::transaction::{OutPoint, Transaction, TxIn, TxOut};

fn sha256d(data: &[u8]) -> [u8; 32] {
    bitcoin::hashes::Hash::into_inner(
        <bitcoin::hashes::sha256d::Hash as bitcoin::hashes::Hash>::hash(data),
    )
}

#[test]
fn test_merkle_root_from_path() {
    let coinbase_bytes = vec![
        1, 0, 0, 0, 1, 0, 0, 0, 0, 0, 0, 0, 0, 0, 0, 0, 0, 0, 0, 0, 0, 0, 0, 0, 0, 0, 0, 0, 0, 0,
        0, 0, 0, 0, 0, 0, 0, 255, 255, 255, 255, 75, 3, 63, 146, 11, 250, 190, 109, 109, 86, 6,
        110, 64, 228, 218, 247, 203, 127, 75, 141, 53, 51, 197, 180, 38, 117, 115, 221, 103, 2, 11,
        85, 213, 65, 221, 74, 90, 97, 128, 91, 182, 1, 0, 0, 0, 0, 0, 0, 0, 49, 101, 7, 7, 139,
        168, 76, 0, 1, 0, 0, 0, 0, 0, 0, 70, 84, 183, 110, 24, 47, 115, 108, 117, 115, 104, 47, 0,
        0, 0, 0, 3, 120, 55, 179, 37, 0, 0, 0, 0, 25, 118, 169, 20, 124, 21, 78, 209, 220, 89, 96,
        158, 61, 38, 171, 178, 223, 46, 163, 213, 135, 205, 140, 65, 136, 172, 0, 0, 0, 0, 0, 0, 0,
        0, 44, 106, 76, 41, 82, 83, 75, 66, 76, 79, 67, 75, 58, 216, 82, 49, 182, 148, 133, 228,
        178, 20, 248, 55, 219, 145, 83, 227, 86, 32, 97, 240, 182, 3, 175, 116, 196, 69, 114, 83,
        46, 0, 71, 230, 205, 0, 0, 0, 0, 0, 0, 0, 0, 38, 106, 36, 170, 33, 169, 237, 179, 75, 32,
        206, 223, 111, 113, 150, 112, 248, 21, 36, 163, 123, 107, 168, 153, 76, 233, 86, 77, 218,
        162, 59, 48, 26, 180, 38, 62, 34, 3, 185, 0, 0, 0, 0,
    ];
    let a = [
        122, 97, 64, 124, 164, 158, 164, 14, 87, 119, 226, 169, 34, 196, 251, 51, 31, 131, 109,
        250, 13, 54, 94, 6, 177, 27, 156, 154, 101, 30, 123, 159,
    ];
    let b = [
        180, 113, 121, 253, 215, 85, 129, 38, 108, 2, 86, 66, 46, 12, 131, 139, 130, 87, 29, 92,
        59, 164, 247, 114, 251, 140, 129, 88, 127, 196, 125, 116,
    ];
    let c = [
        171, 77, 225, 148, 80, 32, 41, 157, 246, 77, 161, 49, 87, 139, 214, 236, 149, 164, 192,
        128, 195, 9, 5, 168, 131, 27, 250, 9, 60, 179, 206, 94,
    ];
    let d = [
        6, 187, 202, 75, 155, 220, 255, 166, 199, 35, 182, 220, 20, 96, 123, 41, 109, 40, 186, 142,
        13, 139, 230, 164, 116, 177, 217, 23, 16, 123, 135, 202,
    ];
    let e = [
        109, 45, 171, 89, 223, 39, 132, 14, 150, 128, 241, 113, 136, 227, 105, 123, 224, 48, 66,
        240, 189, 186, 222, 49, 173, 143, 80, 90, 110, 219, 192, 235,
    ];
    let f = [
        196, 7, 21, 180, 228, 161, 182, 132, 28, 153, 242, 12, 210, 127, 157, 86, 62, 123, 181, 33,
        84, 3, 105, 129, 148, 162, 5, 152, 64, 7, 196, 156,
    ];
    let g = [
        22, 16, 18, 180, 109, 237, 68, 167, 197, 10, 195, 134, 11, 119, 219, 184, 49, 140, 239, 45,
        27, 210, 212, 120, 186, 60, 155, 105, 106, 219, 218, 32,
    ];
    let h = [
        83, 228, 21, 241, 42, 240, 8, 254, 109, 156, 59, 171, 167, 46, 183, 60, 27, 63, 241, 211,
        235, 179, 147, 99, 46, 3, 22, 166, 159, 169, 183, 159,
    ];
    let i = [
        230, 81, 3, 190, 66, 73, 200, 55, 94, 135, 209, 50, 92, 193, 114, 202, 141, 170, 124, 142,
        206, 29, 88, 9, 22, 110, 203, 145, 238, 66, 166, 35,
    ];
    let l = [
        43, 106, 86, 239, 237, 74, 208, 202, 247, 133, 88, 42, 15, 77, 163, 186, 85, 26, 89, 151,
        5, 19, 30, 122, 108, 220, 215, 104, 152, 226, 113, 55,
    ];
    let m = [
        148, 76, 200, 221, 206, 54, 56, 45, 252, 60, 123, 202, 195, 73, 144, 65, 168, 184, 59, 130,
        145, 229, 250, 44, 213, 70, 175, 128, 34, 31, 102, 80,
    ];
    let n = [
        203, 112, 102, 31, 49, 147, 24, 25, 245, 61, 179, 146, 205, 127, 126, 100, 78, 204, 228,
        146, 209, 154, 89, 194, 209, 81, 57, 167, 88, 251, 44, 76,
    ];
    let mut path = vec![a, b, c, d, e, f, g, h, i, l, m, n];
    let expected_root = vec![
        73, 100, 41, 247, 106, 44, 1, 242, 3, 64, 100, 1, 98, 155, 40, 91, 170, 255, 170, 29, 193,
        255, 244, 71, 236, 29, 134, 218, 94, 45, 78, 77,
    ];
    let root = merkle_root_from_path(
        &coinbase_bytes[..20],
        &coinbase_bytes[30..],
        &coinbase_bytes[20..30],
        &path,
    )
    .unwrap();
    assert_eq!(expected_root, root);

    //Target coinbase_id return path
    path.clear();
    let coinbase_id = vec![
        10, 66, 217, 241, 152, 86, 5, 234, 225, 85, 251, 215, 105, 1, 21, 126, 222, 69, 40, 157,
        23, 177, 157, 106, 234, 164, 243, 206, 23, 241, 250, 166,
    ];

    let root = merkle_root_from_path(
        &coinbase_bytes[..20],
        &coinbase_bytes[30..],
        &coinbase_bytes[20..30],
        &path,
    )
    .unwrap();
    assert_eq!(coinbase_id, root);

    //Target None return path on serialization
    assert_eq!(
        merkle_root_from_path(&coinbase_bytes, &coinbase_bytes, &coinbase_bytes, &path),
        None
    );
}

#[test]
fn a_path_may_hold_byte_vectors() {
    let genesis = bitcoin::blockdata::constants::genesis_block(bitcoin::Network::Bitcoin);
    let coinbase = bitcoin::consensus::encode::serialize(&genesis.txdata[0]);
    let (prefix, rest) = coinbase.split_at(50);
    let (extranonce, suffix) = rest.split_at(4);
    let arrays = [[1u8; 32], [2u8; 32]];
    let vectors = [vec![1u8; 32], vec![2u8; 32]];
    let root = merkle_root_from_path(prefix, suffix, extranonce, &arrays).unwrap();
    assert_eq!(
        merkle_root_from_path(prefix, suffix, extranonce, &vectors).unwrap(),
        root
    );
    let txid: [u8; 32] = bitcoin::hashes::Hash::into_inner(genesis.txdata[0].txid());
    let first = sha256d(&[&txid[..], &[1u8; 32][..]].concat());
    let second = sha256d(&[&first[..], &[2u8; 32][..]].concat());
    assert_eq!(root, second.to_vec());
}

#[test]
fn an_empty_path_leads_to_the_leaf() {
    let empty: [[u8; 32]; 0] = [];
    assert_eq!(merkle_root_from_path_([7; 32], &empty), [7; 32]);
    assert_eq!(reduce_path([7; 32], &empty), [7; 32]);
}

#[test]
fn a_path_can_be_followed_in_two_parts() {
    let path = [[1u8; 32], [2u8; 32], [3u8; 32]];
    let whole = reduce_path([9; 32], &path);
    let low = reduce_path([9; 32], &path[..1]);
    assert_eq!(reduce_path(low, &path[1..]), whole);
    assert_eq!(low, sha256d(&[[9u8; 32], [1u8; 32]].concat()));
    assert_ne!(reduce_path([9; 32], &[[2u8; 32], [1u8; 32], [3u8; 32]]), whole);
}

#[test]
fn witnesses_do_not_change_the_root() {
    let empty: [[u8; 32]; 0] = [];
    let with = Transaction {
        version: 2,
        lock_time: 5,
        input: vec![TxIn {
            previous_output: OutPoint { txid: [4; 32], vout: 1 },
            script_sig: vec![1, 2, 3],
            sequence: 9,
            witness: vec![vec![0; 32]],
        }],
        output: vec![TxOut { value: 50, script_pubkey: vec![0x51] }],
    };
    let without = Transaction {
        version: 2,
        lock_time: 5,
        input: vec![TxIn {
            previous_output: OutPoint { txid: [4; 32], vout: 1 },
            script_sig: vec![1, 2, 3],
            sequence: 9,
            witness: vec![],
        }],
        output: vec![TxOut { value: 50, script_pubkey: vec![0x51] }],
    };
    let root = merkle_root_of_coinbase(&with, &empty);
    assert_eq!(root, merkle_root_of_coinbase(&without, &empty));
    let mut legacy = vec![2, 0, 0, 0, 1];
    legacy.extend_from_slice(&[4; 32]);
    legacy.extend_from_slice(&[1, 0, 0, 0, 3, 1, 2, 3, 9, 0, 0, 0, 1, 50, 0, 0, 0, 0, 0, 0, 0]);
    legacy.extend_from_slice(&[1, 0x51, 5, 0, 0, 0]);
    assert_eq!(root, sha256d(&legacy).to_vec());
}

#[test]
fn the_share_of_the_first_block_hashes_to_it() {
    let genesis = bitcoin::blockdata::constants::genesis_block(bitcoin::Network::Bitcoin);
    let coinbase = bitcoin::consensus::encode::serialize(&genesis.txdata[0]);
    let (prefix, rest) = coinbase.split_at(45);
    let (extranonce, suffix) = rest.split_at(8);
    let hash = get_target(
        2083236893,
        1,
        1231006505,
        extranonce,
        prefix,
        suffix,
        BlockHash([0; 32]),
        vec![],
        0x1d00ffff,
    );
    let expected = [
        0x00, 0x00, 0x00, 0x00, 0x00, 0x19, 0xd6, 0x68, 0x9c, 0x08, 0x5a, 0xe1, 0x65, 0x83, 0x1e,
        0x93, 0x4f, 0xf7, 0x63, 0xae, 0x46, 0xa2, 0xa6, 0xc1, 0x72, 0xb3, 0xf1, 0xb6, 0x0a, 0x8c,
        0xe2, 0x6f,
    ];
    assert_eq!(hash, expected);
    let again = try_get_target(
        2083236893,
        1,
        1231006505,
        extranonce,
        prefix,
        suffix,
        BlockHash([0; 32]),
        vec![],
        0x1d00ffff,
    );
    assert_eq!(again, Some(expected));
    let other = try_get_target(
        2083236893,
        u32::MAX,
        1231006505,
        extranonce,
        prefix,
        suffix,
        BlockHash([0; 32]),
        vec![vec![1; 32]],
        0x1d00ffff,
    );
    assert!(other.is_some() && other != Some(expected));
}

#[test]
fn a_share_without_a_coinbase_has_no_hash() {
    let r = try_get_target(0, 1, 0, &[1], &[2], &[3], BlockHash([0; 32]), vec![], 0);
    assert_eq!(r, None);
}

#[test]
fn a_coinbase_with_bytes_behind_it_has_no_root() {
    let genesis = bitcoin::blockdata::constants::genesis_block(bitcoin::Network::Bitcoin);
    let coinbase = bitcoin::consensus::encode::serialize(&genesis.txdata[0]);
    let empty: [[u8; 32]; 0] = [];
    assert!(merkle_root_from_path(&coinbase, &[], &[], &empty).is_some());
    assert_eq!(merkle_root_from_path(&coinbase, &[], &[0], &empty), None);
    assert_eq!(merkle_root_from_path(&coinbase, &coinbase, &[], &empty), None);
}
