use sv2_roles_logic::errors::RolesError;
use sv2_roles_logic::header::{
    get_target_of_root, new_header, new_header_hash, u256_to_block_hash, BlockHash, BlockHeader,
};

fn genesis() -> bitcoin::BlockHeader {
    bitcoin::blockdata::constants::genesis_block(bitcoin::Network::Bitcoin).header
}

#[test]
fn a_header_holds_its_parts() {
    let header = new_header(-2, &[1; 32], &[2; 32], 3, 4, 5).unwrap();
    assert_eq!(
        header,
        BlockHeader {
            version: -2,
            prev_blockhash: BlockHash([1; 32]),
            merkle_root: [2; 32],
            time: 3,
            bits: 4,
            nonce: 5,
        }
    );
}

#[test]
fn hashes_in_a_header_have_32_bytes() {
    assert_eq!(
        new_header(1, &[0; 31], &[0; 3], 0, 0, 0),
        Err(RolesError::ExpectedLen32(31))
    );
    assert_eq!(
        new_header(1, &[0; 32], &[0; 33], 0, 0, 0),
        Err(RolesError::ExpectedLen32(33))
    );
}

#[test]
fn the_first_header_hashes_to_the_first_block() {
    let g = genesis();
    let root: [u8; 32] = bitcoin::hashes::Hash::into_inner(g.merkle_root);
    let header = new_header(g.version, &[0; 32], &root, g.time, g.bits, g.nonce).unwrap();
    let expected: [u8; 32] = bitcoin::hashes::Hash::into_inner(g.block_hash());
    assert_eq!(new_header_hash(header), expected);
    assert_eq!(expected[31], 0);
    assert_eq!(expected[0], 0x6f);
}

#[test]
fn the_hash_of_a_share_is_the_header_hash_reversed() {
    let mut expected = new_header_hash(new_header(-1, &[7; 32], &[8; 32], 9, 10, 11).unwrap());
    expected.reverse();
    let share = get_target_of_root(11, u32::MAX, 9, [8; 32], BlockHash([7; 32]), 10);
    assert_eq!(share, expected);
}

#[test]
fn a_number_is_taken_as_a_block_hash() {
    assert_eq!(u256_to_block_hash([3; 32]), BlockHash([3; 32]));
}
