//! The Sv2 messages that the roles exchange, as far as the mining logic reads them.

use crate::bytes::{le_nat, lemma_le_nat_concat};
use crate::errors::RolesError;
use vstd::arithmetic::power2::pow2;
use vstd::prelude::*;

verus! {

/// The longest byte string that a field of the type `B064K` holds.
pub const B064K_MAX: usize = 65535;

/// The error of the `binary_sv2` crate. Nothing is said of what it holds.
#[verifier::external_type_specification]
#[verifier::external_body]
pub struct ExBinarySv2Error(binary_sv2::Error);

/// Calls `B064K::try_from` of the `binary_sv2` crate. Trusted: a byte string of at most
/// [`B064K_MAX`] bytes is kept as it is, and a longer one is refused.
#[verifier::external_body]
fn b064k(value: Vec<u8>) -> (r: Result<Vec<u8>, binary_sv2::Error>)
    ensures
        match r {
            Ok(v) => value@.len() <= B064K_MAX && v@ == value@,
            Err(_) => value@.len() > B064K_MAX,
        },
{
    Ok(binary_sv2::B064K::try_from(value)?.to_vec())
}

/// Calls `U256::try_from` of the `binary_sv2` crate. Trusted: a byte string of 32 bytes is kept
/// as it is, and one of another length is refused.
#[verifier::external_body]
fn u256(value: Vec<u8>) -> (r: Result<Vec<u8>, binary_sv2::Error>)
    ensures
        match r {
            Ok(v) => value@.len() == 32 && v@ == value@,
            Err(_) => value@.len() != 32,
        },
{
    Ok(binary_sv2::U256::try_from(value)?.to_vec())
}

/// A byte string as the field of a message that holds at most [`B064K_MAX`] bytes.
pub fn to_b064k(value: Vec<u8>) -> (r: Result<Vec<u8>, RolesError>)
    ensures
        match r {
            Ok(v) => value@.len() <= B064K_MAX && v@ == value@,
            Err(e) => value@.len() > B064K_MAX && e == (RolesError::BinarySv2Error {
                max_size: B064K_MAX,
                len: value@.len() as usize,
            }),
        },
{
    let len = value.len();
    match b064k(value) {
        Ok(v) => Ok(v),
        Err(_) => Err(RolesError::BinarySv2Error { max_size: B064K_MAX, len }),
    }
}

/// A byte string as a 256-bit number of a message.
pub fn to_u256(value: Vec<u8>) -> (r: Result<Vec<u8>, RolesError>)
    ensures
        match r {
            Ok(v) => value@.len() == 32 && v@ == value@,
            Err(e) => value@.len() != 32 && e == (RolesError::BinarySv2Error {
                max_size: 32,
                len: value@.len() as usize,
            }),
        },
{
    let len = value.len();
    match u256(value) {
        Ok(v) => Ok(v),
        Err(_) => Err(RolesError::BinarySv2Error { max_size: 32, len }),
    }
}

/// A target: a 256-bit number, kept as its lower and its upper half.
#[derive(Debug, PartialEq, Eq, Clone, Copy)]
pub struct Target {
    head: u128,
    tail: u128,
}

impl View for Target {
    type V = nat;

    closed spec fn view(&self) -> nat {
        self.tail as nat * pow2(128) + self.head as nat
    }
}

/// The sixteen bytes from `start` on, as a number with the least significant byte first.
fn u128_from_le(bytes: &[u8; 32], start: usize) -> (r: u128)
    requires
        start <= 16,
    ensures
        r == le_nat(bytes@.subrange(start as int, start + 16)),
{
    let ghost s = bytes@.subrange(start as int, start + 16);
    let mut r: u128 = 0;
    let mut i: usize = 16;
    proof {
        assert(s.skip(16) =~= Seq::empty());
        vstd::arithmetic::power2::lemma2_to64();
    }
    while i > 0
        invariant
            i <= 16,
            start <= 16,
            s == bytes@.subrange(start as int, start + 16),
            r == le_nat(s.skip(i as int)),
        decreases i,
    {
        let ghost rest = s.skip(i as int);
        i -= 1;
        proof {
            assert(s.skip(i as int).drop_first() =~= rest);
            crate::bytes::lemma_le_nat_bound(s.skip(i as int));
            lemma_pow2_le_128(8 * (16 - i) as nat);
        }
        r = bytes[start + i] as u128 + 256 * r;
    }
    assert(s.skip(0) =~= s);
    r
}

proof fn lemma_pow2_le_128(e: nat)
    requires
        e <= 128,
    ensures
        pow2(e) <= pow2(128),
        pow2(128) == u128::MAX + 1,
{
    vstd::arithmetic::power2::lemma2_to64();
    vstd::arithmetic::power2::lemma_pow2_adds(64, 64);
    if e < 128 {
        vstd::arithmetic::power2::lemma_pow2_strictly_increases(e, 128);
    }
}

impl Target {
    /// The target with the lower half `head` and the upper half `tail`.
    pub fn new(head: u128, tail: u128) -> (r: Self)
        ensures
            r@ == tail as nat * pow2(128) + head as nat,
    {
        Target { head, tail }
    }

    /// The target whose bytes, least significant byte first, are `bytes`.
    pub fn from_le_bytes(bytes: &[u8; 32]) -> (r: Self)
        ensures
            r@ == le_nat(bytes@),
    {
        let head = u128_from_le(bytes, 0);
        let tail = u128_from_le(bytes, 16);
        proof {
            let (low, high) = (bytes@.subrange(0, 16), bytes@.subrange(16, 32));
            assert(bytes@ =~= low + high);
            lemma_le_nat_concat(low, high);
            assert(pow2(8 * low.len()) * le_nat(high) == tail as nat * pow2(128)) by {
                vstd::arithmetic::mul::lemma_mul_is_commutative(
                    pow2(128) as int,
                    tail as int,
                );
            }
        }
        Target { head, tail }
    }

    /// The lower half.
    pub fn head(&self) -> (r: u128)
        ensures
            r == self@ % pow2(128),
    {
        proof {
            lemma_pow2_le_128(0);
            vstd::arithmetic::div_mod::lemma_fundamental_div_mod_converse(
                self@ as int,
                pow2(128) as int,
                self.tail as int,
                self.head as int,
            );
        }
        self.head
    }

    /// The upper half.
    pub fn tail(&self) -> (r: u128)
        ensures
            r == self@ / pow2(128),
    {
        proof {
            lemma_pow2_le_128(0);
            vstd::arithmetic::div_mod::lemma_fundamental_div_mod_converse(
                self@ as int,
                pow2(128) as int,
                self.tail as int,
                self.head as int,
            );
        }
        self.tail
    }
}

/// A template for a new block.
#[derive(Debug, PartialEq, Eq)]
pub struct NewTemplate {
    pub template_id: u64,
    pub future_template: bool,
    pub version: u32,
    pub coinbase_tx_version: u32,
    pub coinbase_prefix: Vec<u8>,
    pub coinbase_tx_input_sequence: u32,
    pub coinbase_tx_value_remaining: u64,
    pub coinbase_tx_outputs_count: u32,
    pub coinbase_tx_outputs: Vec<u8>,
    pub coinbase_tx_locktime: u32,
    pub merkle_path: Vec<[u8; 32]>,
}

/// What a [`NewTemplate`] holds.
#[verifier::ext_equal]
pub struct NewTemplateView {
    pub template_id: u64,
    pub future_template: bool,
    pub version: u32,
    pub coinbase_tx_version: u32,
    pub coinbase_prefix: Seq<u8>,
    pub coinbase_tx_input_sequence: u32,
    pub coinbase_tx_value_remaining: u64,
    pub coinbase_tx_outputs_count: u32,
    pub coinbase_tx_outputs: Seq<u8>,
    pub coinbase_tx_locktime: u32,
    pub merkle_path: Seq<[u8; 32]>,
}

impl View for NewTemplate {
    type V = NewTemplateView;

    open spec fn view(&self) -> NewTemplateView {
        NewTemplateView {
            template_id: self.template_id,
            future_template: self.future_template,
            version: self.version,
            coinbase_tx_version: self.coinbase_tx_version,
            coinbase_prefix: self.coinbase_prefix@,
            coinbase_tx_input_sequence: self.coinbase_tx_input_sequence,
            coinbase_tx_value_remaining: self.coinbase_tx_value_remaining,
            coinbase_tx_outputs_count: self.coinbase_tx_outputs_count,
            coinbase_tx_outputs: self.coinbase_tx_outputs@,
            coinbase_tx_locktime: self.coinbase_tx_locktime,
            merkle_path: self.merkle_path@,
        }
    }
}

/// A copy of a byte string.
pub fn clone_bytes(v: &Vec<u8>) -> (r: Vec<u8>)
    ensures
        r@ == v@,
{
    let mut r: Vec<u8> = Vec::new();
    r.extend_from_slice(v);
    assert(r@ =~= v@);
    r
}

/// A copy of a list of hashes.
pub fn clone_path(v: &Vec<[u8; 32]>) -> (r: Vec<[u8; 32]>)
    ensures
        r@ == v@,
{
    let mut r: Vec<[u8; 32]> = Vec::new();
    let mut i: usize = 0;
    while i < v.len()
        invariant
            i <= v.len(),
            r@ == v@.take(i as int),
        decreases v.len() - i,
    {
        r.push(v[i]);
        i += 1;
        assert(v@.take(i as int) =~= v@.take(i - 1).push(v@[i - 1]));
    }
    assert(v@.take(v@.len() as int) =~= v@);
    r
}

impl Clone for NewTemplate {
    fn clone(&self) -> (r: Self)
        ensures
            r@ == self@,
            r.template_id == self.template_id,
            r.future_template == self.future_template,
            r.version == self.version,
            r.coinbase_tx_version == self.coinbase_tx_version,
            r.coinbase_prefix@ == self.coinbase_prefix@,
            r.coinbase_tx_input_sequence == self.coinbase_tx_input_sequence,
            r.coinbase_tx_value_remaining == self.coinbase_tx_value_remaining,
            r.coinbase_tx_outputs_count == self.coinbase_tx_outputs_count,
            r.coinbase_tx_outputs@ == self.coinbase_tx_outputs@,
            r.coinbase_tx_locktime == self.coinbase_tx_locktime,
            r.merkle_path@ == self.merkle_path@,
    {
        NewTemplate {
            template_id: self.template_id,
            future_template: self.future_template,
            version: self.version,
            coinbase_tx_version: self.coinbase_tx_version,
            coinbase_prefix: clone_bytes(&self.coinbase_prefix),
            coinbase_tx_input_sequence: self.coinbase_tx_input_sequence,
            coinbase_tx_value_remaining: self.coinbase_tx_value_remaining,
            coinbase_tx_outputs_count: self.coinbase_tx_outputs_count,
            coinbase_tx_outputs: clone_bytes(&self.coinbase_tx_outputs),
            coinbase_tx_locktime: self.coinbase_tx_locktime,
            merkle_path: clone_path(&self.merkle_path),
        }
    }
}

/// The chain has a new tip; the template that extends it, if any, becomes the active one.
#[derive(Debug, PartialEq, Eq)]
pub struct SetNewPrevHash {
    pub template_id: u64,
    pub prev_hash: [u8; 32],
    pub header_timestamp: u32,
    pub n_bits: u32,
    pub target: [u8; 32],
}

/// A job for an extended channel.
#[derive(Debug, PartialEq, Eq)]
pub struct NewExtendedMiningJob {
    pub channel_id: u32,
    pub job_id: u32,
    pub future_job: bool,
    pub version: u32,
    pub version_rolling_allowed: bool,
    pub merkle_path: Vec<[u8; 32]>,
    pub coinbase_tx_prefix: Vec<u8>,
    pub coinbase_tx_suffix: Vec<u8>,
}

/// What a [`NewExtendedMiningJob`] holds.
#[verifier::ext_equal]
pub struct NewExtendedMiningJobView {
    pub channel_id: u32,
    pub job_id: u32,
    pub future_job: bool,
    pub version: u32,
    pub version_rolling_allowed: bool,
    pub merkle_path: Seq<[u8; 32]>,
    pub coinbase_tx_prefix: Seq<u8>,
    pub coinbase_tx_suffix: Seq<u8>,
}

impl View for NewExtendedMiningJob {
    type V = NewExtendedMiningJobView;

    open spec fn view(&self) -> NewExtendedMiningJobView {
        NewExtendedMiningJobView {
            channel_id: self.channel_id,
            job_id: self.job_id,
            future_job: self.future_job,
            version: self.version,
            version_rolling_allowed: self.version_rolling_allowed,
            merkle_path: self.merkle_path@,
            coinbase_tx_prefix: self.coinbase_tx_prefix@,
            coinbase_tx_suffix: self.coinbase_tx_suffix@,
        }
    }
}

/// Templates with the same contents agree in every field.
pub proof fn template_contents_are_its_fields(a: NewTemplate, b: NewTemplate)
    ensures
        a@ == b@ <==> {
            &&& a.template_id == b.template_id
            &&& a.future_template == b.future_template
            &&& a.version == b.version
            &&& a.coinbase_tx_version == b.coinbase_tx_version
            &&& a.coinbase_prefix@ == b.coinbase_prefix@
            &&& a.coinbase_tx_input_sequence == b.coinbase_tx_input_sequence
            &&& a.coinbase_tx_value_remaining == b.coinbase_tx_value_remaining
            &&& a.coinbase_tx_outputs_count == b.coinbase_tx_outputs_count
            &&& a.coinbase_tx_outputs@ == b.coinbase_tx_outputs@
            &&& a.coinbase_tx_locktime == b.coinbase_tx_locktime
            &&& a.merkle_path@ == b.merkle_path@
        },
        a@.template_id == a.template_id,
        a@.future_template == a.future_template,
        a@.version == a.version,
        a@.coinbase_tx_version == a.coinbase_tx_version,
        a@.coinbase_prefix == a.coinbase_prefix@,
        a@.coinbase_tx_input_sequence == a.coinbase_tx_input_sequence,
        a@.coinbase_tx_outputs == a.coinbase_tx_outputs@,
        a@.coinbase_tx_locktime == a.coinbase_tx_locktime,
        a@.merkle_path == a.merkle_path@,
{
}

/// Jobs with the same contents agree in every field.
pub proof fn job_contents_are_its_fields(a: NewExtendedMiningJob, b: NewExtendedMiningJob)
    ensures
        a@ == b@ <==> {
            &&& a.channel_id == b.channel_id
            &&& a.job_id == b.job_id
            &&& a.future_job == b.future_job
            &&& a.version == b.version
            &&& a.version_rolling_allowed == b.version_rolling_allowed
            &&& a.merkle_path@ == b.merkle_path@
            &&& a.coinbase_tx_prefix@ == b.coinbase_tx_prefix@
            &&& a.coinbase_tx_suffix@ == b.coinbase_tx_suffix@
        },
        a@.channel_id == a.channel_id,
        a@.job_id == a.job_id,
        a@.future_job == a.future_job,
        a@.version == a.version,
        a@.version_rolling_allowed == a.version_rolling_allowed,
        a@.merkle_path == a.merkle_path@,
        a@.coinbase_tx_prefix == a.coinbase_tx_prefix@,
        a@.coinbase_tx_suffix == a.coinbase_tx_suffix@,
{
}

} // verus!
