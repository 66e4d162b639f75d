//! Block headers and their hashes.

use crate::bytes::{
    i32_bits, le_bytes, le_nat, lemma_le_bytes_len, lemma_le_nat_of_le_bytes, reversed,
};
use crate::errors::RolesError;
use crate::merkle::{merkle_root, merkle_root_from_path, nodes};
use crate::transaction::{decodes_to, sha256d, transaction_decoding};
use vstd::prelude::*;

verus! {

/// The hash of a block header.
#[derive(Debug, Clone, Copy, PartialEq, Eq)]
pub struct BlockHash(pub [u8; 32]);

/// The header of a block.
#[derive(Debug, Clone, Copy, PartialEq, Eq)]
pub struct BlockHeader {
    pub version: i32,
    pub prev_blockhash: BlockHash,
    pub merkle_root: [u8; 32],
    pub time: u32,
    pub bits: u32,
    pub nonce: u32,
}

/// The 80 bytes of a header.
pub open spec fn header_encoding(
    version: nat,
    prev_blockhash: Seq<u8>,
    merkle_root: Seq<u8>,
    time: u32,
    bits: u32,
    nonce: u32,
) -> Seq<u8> {
    le_bytes(version, 4) + prev_blockhash + merkle_root + le_bytes(time as nat, 4) + le_bytes(
        bits as nat,
        4,
    ) + le_bytes(nonce as nat, 4)
}

impl BlockHeader {
    /// The header in the wire format.
    pub open spec fn encoding(self) -> Seq<u8> {
        header_encoding(
            i32_bits(self.version),
            self.prev_blockhash.0@,
            self.merkle_root@,
            self.time,
            self.bits,
            self.nonce,
        )
    }
}

/// Calls `BlockHeader::block_hash` of the `bitcoin` crate. Trusted: the hash is the double
/// SHA-256 digest of the header in the wire format.
#[verifier::external_body]
fn block_hash(header: &BlockHeader) -> (r: [u8; 32])
    ensures
        r@ == sha256d(header.encoding()),
{
    let header = bitcoin::blockdata::block::BlockHeader {
        version: header.version,
        prev_blockhash: bitcoin::hashes::Hash::from_inner(header.prev_blockhash.0),
        merkle_root: bitcoin::hashes::Hash::from_inner(header.merkle_root),
        time: header.time,
        bits: header.bits,
        nonce: header.nonce,
    };
    bitcoin::hashes::Hash::into_inner(header.block_hash())
}

/// A number of 256 bits as the hash of a block.
pub fn u256_to_block_hash(v: [u8; 32]) -> (r: BlockHash)
    ensures
        r.0@ == v@,
{
    BlockHash(v)
}

/// The 32 bytes of a slice as an array.
fn to_array(bytes: &[u8]) -> (r: [u8; 32])
    requires
        bytes@.len() == 32,
    ensures
        r@ == bytes@,
{
    let mut r = [0u8; 32];
    let mut i: usize = 0;
    while i < 32
        invariant
            i <= 32,
            bytes@.len() == 32,
            forall|j: int| 0 <= j < i ==> r@[j] == bytes@[j],
        decreases 32 - i,
    {
        r[i] = bytes[i];
        i += 1;
    }
    assert(r@ =~= bytes@);
    r
}

/// A header of the given parts. Both hashes have to be 32 bytes long.
pub fn new_header(
    version: i32,
    prev_hash: &[u8],
    merkle_root: &[u8],
    time: u32,
    bits: u32,
    nonce: u32,
) -> (r: Result<BlockHeader, RolesError>)
    ensures
        match r {
            Ok(h) => {
                &&& prev_hash@.len() == 32
                &&& merkle_root@.len() == 32
                &&& h.version == version
                &&& h.prev_blockhash.0@ == prev_hash@
                &&& h.merkle_root@ == merkle_root@
                &&& h.time == time
                &&& h.bits == bits
                &&& h.nonce == nonce
            },
            Err(e) => if prev_hash@.len() != 32 {
                e == RolesError::ExpectedLen32(prev_hash@.len() as usize)
            } else {
                merkle_root@.len() != 32 && e == RolesError::ExpectedLen32(
                    merkle_root@.len() as usize,
                )
            },
        },
{
    if prev_hash.len() != 32 {
        return Err(RolesError::ExpectedLen32(prev_hash.len()));
    }
    if merkle_root.len() != 32 {
        return Err(RolesError::ExpectedLen32(merkle_root.len()));
    }
    Ok(
        BlockHeader {
            version,
            prev_blockhash: BlockHash(to_array(prev_hash)),
            merkle_root: to_array(merkle_root),
            time,
            bits,
            nonce,
        },
    )
}

/// The hash of a header.
pub fn new_header_hash(header: BlockHeader) -> (r: [u8; 32])
    ensures
        r@ == sha256d(header.encoding()),
        r@ == sha256d(
            le_bytes(i32_bits(header.version), 4) + header.prev_blockhash.0@ + header.merkle_root@
                + le_bytes(header.time as nat, 4) + le_bytes(header.bits as nat, 4) + le_bytes(
                header.nonce as nat,
                4,
            ),
        ),
{
    block_hash(&header)
}

/// The hash of the header that a share stands for, most significant byte first: the value that
/// is compared with the target.
pub open spec fn share_hash(
    nonce: u32,
    version: u32,
    ntime: u32,
    merkle_root: Seq<u8>,
    prev_hash: Seq<u8>,
    nbits: u32,
) -> Seq<u8> {
    sha256d(
        header_encoding(version as nat, prev_hash, merkle_root, ntime, nbits, nonce),
    ).reverse()
}

/// The hash that a share stands for is the hash of the header with the same fields, most
/// significant byte first: the fields stand in the header as they are given.
pub proof fn share_hash_is_that_of_the_header(h: BlockHeader, version: u32)
    requires
        i32_bits(h.version) == version,
    ensures
        share_hash(
            h.nonce,
            version,
            h.time,
            h.merkle_root@,
            h.prev_blockhash.0@,
            h.bits,
        ) == sha256d(h.encoding()).reverse(),
{
}

/// A header has 80 bytes, and each of its fields stands in its place: the numbers with the least
/// significant byte first, the hashes as they are.
pub proof fn header_fields_stand_in_their_places(h: BlockHeader)
    ensures
        h.encoding().len() == 80,
        le_nat(h.encoding().subrange(0, 4)) == i32_bits(h.version),
        h.encoding().subrange(4, 36) == h.prev_blockhash.0@,
        h.encoding().subrange(36, 68) == h.merkle_root@,
        le_nat(h.encoding().subrange(68, 72)) == h.time,
        le_nat(h.encoding().subrange(72, 76)) == h.bits,
        le_nat(h.encoding().subrange(76, 80)) == h.nonce,
{
    vstd::arithmetic::power2::lemma2_to64();
    let e = h.encoding();
    let v = i32_bits(h.version);
    lemma_le_bytes_len(v, 4);
    lemma_le_bytes_len(h.time as nat, 4);
    lemma_le_bytes_len(h.bits as nat, 4);
    lemma_le_bytes_len(h.nonce as nat, 4);
    lemma_le_nat_of_le_bytes(v, 4);
    lemma_le_nat_of_le_bytes(h.time as nat, 4);
    lemma_le_nat_of_le_bytes(h.bits as nat, 4);
    lemma_le_nat_of_le_bytes(h.nonce as nat, 4);
    assert(e.subrange(0, 4) =~= le_bytes(v, 4));
    assert(e.subrange(4, 36) =~= h.prev_blockhash.0@);
    assert(e.subrange(36, 68) =~= h.merkle_root@);
    assert(e.subrange(68, 72) =~= le_bytes(h.time as nat, 4));
    assert(e.subrange(72, 76) =~= le_bytes(h.bits as nat, 4));
    assert(e.subrange(76, 80) =~= le_bytes(h.nonce as nat, 4));
}

/// The hash of the header that a share stands for, where the Merkle root is known.
pub fn get_target_of_root(
    nonce: u32,
    version: u32,
    ntime: u32,
    merkle_root: [u8; 32],
    prev_hash: BlockHash,
    nbits: u32,
) -> (r: [u8; 32])
    ensures
        r@ == share_hash(nonce, version, ntime, merkle_root@, prev_hash.0@, nbits),
        r@ == sha256d(
            le_bytes(version as nat, 4) + prev_hash.0@ + merkle_root@ + le_bytes(ntime as nat, 4)
                + le_bytes(nbits as nat, 4) + le_bytes(nonce as nat, 4),
        ).reverse(),
        forall|h: BlockHeader|
            i32_bits(h.version) == version && h.prev_blockhash.0@ == prev_hash.0@
                && h.merkle_root@ == merkle_root@ && h.time == ntime && h.bits == nbits && h.nonce
                == nonce ==> r@ == sha256d(#[trigger] h.encoding()).reverse(),
{
    let signed = version as i32;
    proof {
        assert(signed >= 0 ==> signed as u32 == version && signed == version) by (bit_vector)
            requires
                signed == version as i32,
        ;
        assert(signed < 0 ==> signed + 0x1_0000_0000 == version) by (bit_vector)
            requires
                signed == version as i32,
        ;
    }
    let header = BlockHeader {
        version: signed,
        prev_blockhash: prev_hash,
        merkle_root,
        time: ntime,
        bits: nbits,
        nonce,
    };
    reversed(&block_hash(&header))
}

/// The hash of the header that a share stands for, where the parts of the coinbase and the
/// extranonce are a transaction.
pub fn get_target(
    nonce: u32,
    version: u32,
    ntime: u32,
    extranonce: &[u8],
    coinbase_tx_prefix: &[u8],
    coinbase_tx_suffix: &[u8],
    prev_hash: BlockHash,
    merkle_path: Vec<Vec<u8>>,
    nbits: u32,
) -> (r: [u8; 32])
    requires
        transaction_decoding(
            coinbase_tx_prefix@ + extranonce@ + coinbase_tx_suffix@,
            usize::BITS,
        ) is Some,
    ensures
        transaction_decoding(
            coinbase_tx_prefix@ + extranonce@ + coinbase_tx_suffix@,
            usize::BITS,
        ) matches Some(tx) && r@ == share_hash(
            nonce,
            version,
            ntime,
            merkle_root(tx.txid(), nodes(merkle_path@)),
            prev_hash.0@,
            nbits,
        ) && r@ == sha256d(
            le_bytes(version as nat, 4) + prev_hash.0@ + merkle_root(
                tx.txid(),
                nodes(merkle_path@),
            ) + le_bytes(ntime as nat, 4) + le_bytes(nbits as nat, 4) + le_bytes(nonce as nat, 4),
        ).reverse(),
{
    let root = match merkle_root_from_path(
        coinbase_tx_prefix,
        coinbase_tx_suffix,
        extranonce,
        merkle_path.as_slice(),
    ) {
        Some(root) => to_array(&root),
        None => [0u8; 32],
    };
    get_target_of_root(nonce, version, ntime, root, prev_hash, nbits)
}

/// The hash of the header that a share stands for, or none if the parts of the coinbase and the
/// extranonce are not a transaction.
pub fn try_get_target(
    nonce: u32,
    version: u32,
    ntime: u32,
    extranonce: &[u8],
    coinbase_tx_prefix: &[u8],
    coinbase_tx_suffix: &[u8],
    prev_hash: BlockHash,
    merkle_path: Vec<Vec<u8>>,
    nbits: u32,
) -> (r: Option<[u8; 32]>)
    ensures
        match transaction_decoding(
            coinbase_tx_prefix@ + extranonce@ + coinbase_tx_suffix@,
            usize::BITS,
        ) {
            Some(tx) => r matches Some(h) && h@ == share_hash(
                nonce,
                version,
                ntime,
                merkle_root(tx.txid(), nodes(merkle_path@)),
                prev_hash.0@,
                nbits,
            ) && h@ == sha256d(
                le_bytes(version as nat, 4) + prev_hash.0@ + merkle_root(
                    tx.txid(),
                    nodes(merkle_path@),
                ) + le_bytes(ntime as nat, 4) + le_bytes(nbits as nat, 4) + le_bytes(
                    nonce as nat,
                    4,
                ),
            ).reverse(),
            None => r is None,
        },
        decodes_to(
            coinbase_tx_prefix@ + extranonce@ + coinbase_tx_suffix@,
            transaction_decoding(
                coinbase_tx_prefix@ + extranonce@ + coinbase_tx_suffix@,
                usize::BITS,
            ),
        ),
{
    match merkle_root_from_path(
        coinbase_tx_prefix,
        coinbase_tx_suffix,
        extranonce,
        merkle_path.as_slice(),
    ) {
        Some(_) => Some(
            get_target(
                nonce,
                version,
                ntime,
                extranonce,
                coinbase_tx_prefix,
                coinbase_tx_suffix,
                prev_hash,
                merkle_path,
                nbits,
            ),
        ),
        None => None,
    }
}

} // verus!
