//! Coinbase transactions without witness data, so that what a miner hashes gives the
//! transaction id.

use crate::bytes::{i32_bits, le_bytes, lemma_le_bytes_len, u32_to_le};
use crate::coinbase::zeros;
use crate::errors::RolesError;
use crate::messages::{
    clone_bytes, to_b064k, B064K_MAX, NewExtendedMiningJob, NewExtendedMiningJobView,
};
use crate::transaction::{
    byte_strings, decode_transaction, decodes_to, encode_tx_out, every_transaction_is_wf,
    transaction_decoding, Transaction, TransactionView, TxIn, TxInView, TxOutView,
};
use vstd::prelude::*;

verus! {

/// A transaction in parts, without witness data.
pub struct StrippedCoinbaseTx {
    version: u32,
    inputs: Vec<Vec<u8>>,
    outputs: Vec<Vec<u8>>,
    lock_time: u32,
    bip141_bytes_len: usize,
}

/// What a [`StrippedCoinbaseTx`] holds: the version's bits, each input and each output as bytes,
/// the lock time, and how many bytes of the last input's script stand before the extranonce.
#[verifier::ext_equal]
pub struct StrippedView {
    pub version: nat,
    pub inputs: Seq<Seq<u8>>,
    pub outputs: Seq<Seq<u8>>,
    pub lock_time: u32,
    pub bip141_bytes_len: nat,
}

/// An input as bytes, with one byte for the length of the script.
pub open spec fn stripped_input(i: TxInView) -> Seq<u8> {
    i.txid + le_bytes(i.vout as nat, 4) + seq![(i.script_sig.len() % 256) as u8] + i.script_sig
        + le_bytes(i.sequence as nat, 4)
}

/// The parts of a transaction that has an input, with room for an extranonce of
/// `full_extranonce_len` bytes at the end of the last input's script.
pub open spec fn stripped_view(tx: TransactionView, full_extranonce_len: nat) -> StrippedView {
    StrippedView {
        version: i32_bits(tx.version),
        inputs: tx.input.map_values(|i: TxInView| stripped_input(i)),
        outputs: tx.output.map_values(|o: TxOutView| o.encoding()),
        lock_time: tx.lock_time,
        bip141_bytes_len: (tx.input.last().script_sig.len() - full_extranonce_len) as nat,
    }
}

impl StrippedView {
    /// The coinbase in front of the extranonce: the version, the number of inputs in one byte,
    /// and the inputs up to the extranonce in the last.
    pub open spec fn prefix(self) -> Seq<u8> {
        le_bytes(self.version, 4) + seq![(self.inputs.len() % 256) as u8]
            + self.inputs.drop_last().flatten() + self.inputs.last().take(
            32 + 4 + 1 + self.bip141_bytes_len as int,
        )
    }

    /// The coinbase behind the extranonce: the sequence of the last input, the number of outputs
    /// in one byte, the outputs and the lock time.
    pub open spec fn suffix(self) -> Seq<u8> {
        self.inputs.last().skip(self.inputs.last().len() - 4) + seq![
            (self.outputs.len() % 256) as u8,
        ] + self.outputs.flatten() + le_bytes(self.lock_time as nat, 4)
    }
}

/// Whether `r` is the field of a message that holds `bytes`, or the error that they are too many.
pub open spec fn is_b064k(bytes: Seq<u8>, r: Result<Vec<u8>, RolesError>) -> bool {
    match r {
        Ok(v) => bytes.len() <= B064K_MAX && v@ == bytes,
        Err(e) => bytes.len() > B064K_MAX && e == (RolesError::BinarySv2Error {
            max_size: B064K_MAX,
            len: bytes.len() as usize,
        }),
    }
}

/// Appends several byte strings, one behind the other.
fn append_all(bytes: &mut Vec<u8>, parts: &Vec<Vec<u8>>, n: usize)
    requires
        n <= parts@.len(),
    ensures
        final(bytes)@ == old(bytes)@ + byte_strings(parts@).take(n as int).flatten(),
{
    let ghost all = byte_strings(parts@);
    let ghost start = bytes@;
    let mut i: usize = 0;
    proof {
        assert(all.take(0) =~= Seq::<Seq<u8>>::empty());
        assert(start + Seq::<Seq<u8>>::empty().flatten() =~= start);
    }
    while i < n
        invariant
            i <= n <= parts@.len(),
            all == byte_strings(parts@),
            bytes@ == start + all.take(i as int).flatten(),
        decreases n - i,
    {
        let ghost before = bytes@;
        bytes.extend_from_slice(&parts[i]);
        proof {
            assert(bytes@ =~= before + all[i as int]);
            assert(all.take(i + 1) =~= all.take(i as int).push(all[i as int]));
            all.take(i as int).lemma_flatten_push(all[i as int]);
            assert(start + (all.take(i as int).flatten() + all[i as int]) =~= before
                + all[i as int]);
        }
        i += 1;
    }
}

fn serialize_input(txin: &TxIn) -> (ser: Vec<u8>)
    ensures
        ser@ == stripped_input(txin@),
{
    let mut ser: Vec<u8> = Vec::new();
    ser.extend_from_slice(&txin.previous_output.txid);
    ser.extend_from_slice(&u32_to_le(txin.previous_output.vout));
    ser.push((txin.script_sig.len() % 256) as u8);
    ser.extend_from_slice(&txin.script_sig);
    ser.extend_from_slice(&u32_to_le(txin.sequence));
    assert(ser@ =~= stripped_input(txin@));
    ser
}

impl StrippedCoinbaseTx {
    pub closed spec fn parts(self) -> StrippedView {
        StrippedView {
            version: self.version as nat,
            inputs: byte_strings(self.inputs@),
            outputs: byte_strings(self.outputs@),
            lock_time: self.lock_time,
            bip141_bytes_len: self.bip141_bytes_len as nat,
        }
    }

    /// There is an input, and the last one has room for the bytes before the extranonce.
    pub closed spec fn wf(self) -> bool {
        &&& self.inputs@.len() > 0
        &&& 32 + 4 + 1 + self.bip141_bytes_len + 4 <= self.inputs@.last()@.len()
    }

    /// Takes a transaction apart. It fails on a transaction without input.
    pub fn from_coinbase(tx: Transaction, full_extranonce_len: usize) -> (r: Result<
        Self,
        RolesError,
    >)
        requires
            tx@.input.len() > 0 ==> full_extranonce_len <= tx@.input.last().script_sig.len(),
        ensures
            match r {
                Ok(s) => tx@.input.len() > 0 && s.wf() && s.parts() == stripped_view(
                    tx@,
                    full_extranonce_len as nat,
                ),
                Err(e) => tx@.input.len() == 0 && e == RolesError::BadPayloadSize,
            },
    {
        if tx.input.len() == 0 {
            return Err(RolesError::BadPayloadSize);
        }
        let last = &tx.input[tx.input.len() - 1];
        let bip141_bytes_len = last.script_sig.len() - full_extranonce_len;
        let mut inputs: Vec<Vec<u8>> = Vec::new();
        let mut i: usize = 0;
        while i < tx.input.len()
            invariant
                i <= tx.input.len(),
                inputs@.len() == i,
                forall|j: int|
                    0 <= j < i ==> (#[trigger] inputs@[j])@ == stripped_input(tx.input@[j]@),
            decreases tx.input.len() - i,
        {
            inputs.push(serialize_input(&tx.input[i]));
            i += 1;
        }
        let mut outputs: Vec<Vec<u8>> = Vec::new();
        let mut i: usize = 0;
        while i < tx.output.len()
            invariant
                i <= tx.output.len(),
                outputs@.len() == i,
                forall|j: int|
                    0 <= j < i ==> (#[trigger] outputs@[j])@ == tx.output@[j]@.encoding(),
            decreases tx.output.len() - i,
        {
            outputs.push(encode_tx_out(&tx.output[i]));
            i += 1;
        }
        let s = Self {
            version: tx.version as u32,
            inputs,
            outputs,
            lock_time: tx.lock_time,
            bip141_bytes_len,
        };
        proof {
            lemma_i32_as_u32(tx.version);
            let want = stripped_view(tx@, full_extranonce_len as nat);
            assert(s.parts().inputs =~= want.inputs);
            assert(s.parts().outputs =~= want.outputs);
            lemma_le_bytes_len(last@.vout as nat, 4);
            lemma_le_bytes_len(last@.sequence as nat, 4);
        }
        Ok(s)
    }

    /// The coinbase in front of the extranonce: the version and the inputs, up to the bytes of
    /// the last input's script that make room for the extranonce. The marker and flag of a
    /// transaction with witnesses are left out, since the transaction id does not cover them.
    #[allow(clippy::wrong_self_convention)]
    pub fn into_coinbase_tx_prefix(&self) -> (r: Result<Vec<u8>, RolesError>)
        requires
            self.wf(),
        ensures
            is_b064k(self.parts().prefix(), r),
    {
        let last = self.inputs.len() - 1;
        let last_input_len = self.inputs[last].len();
        assert(32 + 4 + 1 + self.bip141_bytes_len <= last_input_len);
        let new_last_input_len = 32 + 4 + 1 + self.bip141_bytes_len;
        let mut prefix: Vec<u8> = Vec::new();
        prefix.extend_from_slice(&u32_to_le(self.version));
        prefix.push((self.inputs.len() % 256) as u8);
        append_all(&mut prefix, &self.inputs, last);
        prefix.extend_from_slice(&self.inputs[last].as_slice()[0..new_last_input_len]);
        proof {
            let p = self.parts();
            assert(p.inputs.take(last as int) =~= p.inputs.drop_last());
            assert(prefix@ =~= p.prefix());
        }
        to_b064k(prefix)
    }

    /// The coinbase behind the extranonce: the sequence of the last input, the outputs and the
    /// lock time. The witnesses are left out, since the transaction id does not cover them.
    #[allow(clippy::wrong_self_convention)]
    pub fn into_coinbase_tx_suffix(&self) -> (r: Result<Vec<u8>, RolesError>)
        requires
            self.wf(),
        ensures
            is_b064k(self.parts().suffix(), r),
    {
        let last_input = &self.inputs[self.inputs.len() - 1];
        let mut suffix: Vec<u8> = Vec::new();
        suffix.extend_from_slice(&last_input.as_slice()[last_input.len() - 4..last_input.len()]);
        suffix.push((self.outputs.len() % 256) as u8);
        append_all(&mut suffix, &self.outputs, self.outputs.len());
        suffix.extend_from_slice(&u32_to_le(self.lock_time));
        proof {
            let p = self.parts();
            assert(p.outputs.take(p.outputs.len() as int) =~= p.outputs);
            assert(suffix@ =~= p.suffix());
        }
        to_b064k(suffix)
    }
}

/// A job's coinbase with `full_extranonce_len` zeros in place of the extranonce.
pub open spec fn blank_coinbase(job: NewExtendedMiningJobView, full_extranonce_len: nat) -> Seq<
    u8,
> {
    job.coinbase_tx_prefix + zeros(full_extranonce_len) + job.coinbase_tx_suffix
}

/// Whether the last input's script, if there is an input, has room for the extranonce.
pub open spec fn has_extranonce_room(tx: TransactionView, full_extranonce_len: nat) -> bool {
    tx.input.len() > 0 ==> full_extranonce_len <= tx.input.last().script_sig.len()
}

/// What a job becomes whose coinbase is `tx`: the same job with the stripped coinbase, or the
/// reason why there is none.
pub open spec fn is_non_segwit_job(
    job: NewExtendedMiningJobView,
    tx: TransactionView,
    full_extranonce_len: nat,
    r: Result<NewExtendedMiningJob, RolesError>,
) -> bool {
    let prefix = stripped_view(tx, full_extranonce_len).prefix();
    let suffix = stripped_view(tx, full_extranonce_len).suffix();
    if tx.input.len() == 0 {
        r matches Err(e) && e == RolesError::BadPayloadSize
    } else if prefix.len() > B064K_MAX {
        r matches Err(e) && e == (RolesError::BinarySv2Error {
            max_size: B064K_MAX,
            len: prefix.len() as usize,
        })
    } else if suffix.len() > B064K_MAX {
        r matches Err(e) && e == (RolesError::BinarySv2Error {
            max_size: B064K_MAX,
            len: suffix.len() as usize,
        })
    } else {
        r matches Ok(j) && j@ == (NewExtendedMiningJobView {
            coinbase_tx_prefix: prefix,
            coinbase_tx_suffix: suffix,
            ..job
        })
    }
}

/// Puts the stripped form of `coinbase` into a job.
pub fn strip_job(
    job: NewExtendedMiningJob,
    coinbase: Transaction,
    full_extranonce_len: usize,
) -> (r: Result<NewExtendedMiningJob, RolesError>)
    requires
        has_extranonce_room(coinbase@, full_extranonce_len as nat),
    ensures
        is_non_segwit_job(job@, coinbase@, full_extranonce_len as nat, r),
        r matches Ok(j) ==> {
            &&& j.channel_id == job.channel_id
            &&& j.job_id == job.job_id
            &&& j.future_job == job.future_job
            &&& j.version == job.version
            &&& j.version_rolling_allowed == job.version_rolling_allowed
            &&& j.merkle_path@ == job.merkle_path@
        },
        r is Err && coinbase.input@.len() == 0 ==> r matches Err(RolesError::BadPayloadSize),
{
    let stripped_tx = match StrippedCoinbaseTx::from_coinbase(coinbase, full_extranonce_len) {
        Ok(s) => s,
        Err(e) => return Err(e),
    };
    let coinbase_tx_prefix = match stripped_tx.into_coinbase_tx_prefix() {
        Ok(p) => p,
        Err(e) => return Err(e),
    };
    let coinbase_tx_suffix = match stripped_tx.into_coinbase_tx_suffix() {
        Ok(s) => s,
        Err(e) => return Err(e),
    };
    Ok(
        NewExtendedMiningJob {
            channel_id: job.channel_id,
            job_id: job.job_id,
            future_job: job.future_job,
            version: job.version,
            version_rolling_allowed: job.version_rolling_allowed,
            merkle_path: job.merkle_path,
            coinbase_tx_prefix,
            coinbase_tx_suffix,
        },
    )
}

fn blank_coinbase_bytes(job: &NewExtendedMiningJob, full_extranonce_len: usize) -> (r: Vec<u8>)
    ensures
        r@ == blank_coinbase(job@, full_extranonce_len as nat),
{
    let mut encoded = clone_bytes(&job.coinbase_tx_prefix);
    let extranonce: Vec<u8> = vec![0u8; full_extranonce_len];
    encoded.extend_from_slice(&extranonce);
    encoded.extend_from_slice(&job.coinbase_tx_suffix);
    assert(encoded@ =~= blank_coinbase(job@, full_extranonce_len as nat));
    encoded
}

/// Strips the witness data from a job's coinbase, so that miners hash what the transaction id
/// covers. The extranonce is blank for this: the real one comes with the miners' shares.
pub fn extended_job_to_non_segwit(
    job: NewExtendedMiningJob,
    full_extranonce_len: usize,
) -> (r: Result<NewExtendedMiningJob, RolesError>)
    requires
        transaction_decoding(
            blank_coinbase(job@, full_extranonce_len as nat),
            usize::BITS,
        ) matches Some(tx) ==> has_extranonce_room(tx, full_extranonce_len as nat),
    ensures
        ({
            let bytes = blank_coinbase(job@, full_extranonce_len as nat);
            let decoded = transaction_decoding(bytes, usize::BITS);
            &&& decodes_to(bytes, decoded)
            &&& decoded matches Some(tx) ==> tx.wf()
            &&& match decoded {
                Some(tx) => is_non_segwit_job(job@, tx, full_extranonce_len as nat, r),
                None => r matches Err(e) && e == RolesError::InvalidCoinbase,
            }
        }),
        r matches Ok(j) ==> {
            &&& j.channel_id == job.channel_id
            &&& j.job_id == job.job_id
            &&& j.future_job == job.future_job
            &&& j.version == job.version
            &&& j.version_rolling_allowed == job.version_rolling_allowed
            &&& j.merkle_path@ == job.merkle_path@
        },
{
    let encoded = blank_coinbase_bytes(&job, full_extranonce_len);
    match decode_transaction(&encoded) {
        Ok(coinbase) => {
            proof {
                every_transaction_is_wf(coinbase);
            }
            strip_job(job, coinbase, full_extranonce_len)
        },
        Err(_) => Err(RolesError::InvalidCoinbase),
    }
}

/// As [`extended_job_to_non_segwit`], for any job: there is no outcome where the last input's
/// script is shorter than the extranonce.
pub fn try_extended_job_to_non_segwit(
    job: NewExtendedMiningJob,
    full_extranonce_len: usize,
) -> (r: Option<Result<NewExtendedMiningJob, RolesError>>)
    ensures
        ({
            let bytes = blank_coinbase(job@, full_extranonce_len as nat);
            let decoded = transaction_decoding(bytes, usize::BITS);
            &&& decodes_to(bytes, decoded)
            &&& decoded matches Some(tx) ==> tx.wf()
            &&& match (decoded, r) {
                (Some(tx), Some(done)) => has_extranonce_room(tx, full_extranonce_len as nat)
                    && is_non_segwit_job(job@, tx, full_extranonce_len as nat, done),
                (Some(tx), None) => !has_extranonce_room(tx, full_extranonce_len as nat),
                (None, Some(done)) => done matches Err(e) && e == RolesError::InvalidCoinbase,
                (None, None) => false,
            }
        }),
        r matches Some(Ok(j)) ==> {
            &&& j.channel_id == job.channel_id
            &&& j.job_id == job.job_id
            &&& j.future_job == job.future_job
            &&& j.version == job.version
            &&& j.version_rolling_allowed == job.version_rolling_allowed
            &&& j.merkle_path@ == job.merkle_path@
        },
{
    let encoded = blank_coinbase_bytes(&job, full_extranonce_len);
    match decode_transaction(&encoded) {
        Ok(coinbase) => {
            proof {
                every_transaction_is_wf(coinbase);
            }
            let n = coinbase.input.len();
            if n > 0 && coinbase.input[n - 1].script_sig.len() < full_extranonce_len {
                return None;
            }
        },
        Err(_) => {},
    }
    Some(extended_job_to_non_segwit(job, full_extranonce_len))
}

/// Stripping a job changes nothing but the two parts of the coinbase, and fails only if there is
/// no input or if a part takes more than 65535 bytes.
pub proof fn stripping_changes_only_the_coinbase(
    job: NewExtendedMiningJob,
    tx: TransactionView,
    full_extranonce_len: nat,
    r: Result<NewExtendedMiningJob, RolesError>,
)
    requires
        is_non_segwit_job(job@, tx, full_extranonce_len, r),
    ensures
        r matches Ok(j) ==> {
            &&& j.channel_id == job.channel_id
            &&& j.job_id == job.job_id
            &&& j.future_job == job.future_job
            &&& j.version == job.version
            &&& j.version_rolling_allowed == job.version_rolling_allowed
            &&& j.merkle_path@ == job.merkle_path@
        },
        r matches Ok(j) ==> {
            &&& j.coinbase_tx_prefix@ == stripped_view(tx, full_extranonce_len).prefix()
            &&& j.coinbase_tx_suffix@ == stripped_view(tx, full_extranonce_len).suffix()
        },
        r is Ok <==> {
            &&& tx.input.len() > 0
            &&& stripped_view(tx, full_extranonce_len).prefix().len() <= 65535
            &&& stripped_view(tx, full_extranonce_len).suffix().len() <= 65535
        },
        tx.input.len() == 0 ==> (r matches Err(RolesError::BadPayloadSize)),
{
}

/// The parts of a stripped coinbase, written out in the transaction's fields: in front the version,
/// the lowest byte of the number of inputs, the other inputs whole and the last one up to the
/// extranonce; behind it the last input's sequence, the lowest byte of the number of outputs, the
/// outputs and the lock time.
pub proof fn stripped_parts_are_made_of_the_fields(tx: TransactionView, full_extranonce_len: nat)
    requires
        tx.wf(),
        tx.input.len() > 0,
        full_extranonce_len <= tx.input.last().script_sig.len(),
    ensures
        ({
            let last = tx.input.last();
            let whole = |i: TxInView|
                i.txid + le_bytes(i.vout as nat, 4) + seq![(i.script_sig.len() % 256) as u8]
                    + i.script_sig + le_bytes(i.sequence as nat, 4);
            stripped_view(tx, full_extranonce_len).prefix() == le_bytes(i32_bits(tx.version), 4)
                + seq![(tx.input.len() % 256) as u8] + tx.input.drop_last().map_values(
                whole,
            ).flatten() + (last.txid + le_bytes(last.vout as nat, 4) + seq![
                (last.script_sig.len() % 256) as u8,
            ] + last.script_sig.take(last.script_sig.len() - full_extranonce_len))
        }),
        stripped_view(tx, full_extranonce_len).suffix() == le_bytes(
            tx.input.last().sequence as nat,
            4,
        ) + seq![(tx.output.len() % 256) as u8] + tx.output.map_values(
            |o: TxOutView| o.encoding(),
        ).flatten() + le_bytes(tx.lock_time as nat, 4),
{
    let s = stripped_view(tx, full_extranonce_len);
    let last = tx.input.last();
    let k = last.script_sig.len() - full_extranonce_len;
    let whole = |i: TxInView|
        i.txid + le_bytes(i.vout as nat, 4) + seq![(i.script_sig.len() % 256) as u8] + i.script_sig
            + le_bytes(i.sequence as nat, 4);
    assert(last.wf());
    lemma_le_bytes_len(last.vout as nat, 4);
    lemma_le_bytes_len(last.sequence as nat, 4);
    assert(s.inputs.drop_last() =~= tx.input.drop_last().map_values(whole));
    assert(s.inputs.last() == stripped_input(last));
    assert(s.inputs.last().take(32 + 4 + 1 + k) =~= last.txid + le_bytes(last.vout as nat, 4)
        + seq![(last.script_sig.len() % 256) as u8] + last.script_sig.take(k));
    assert(s.inputs.last().skip(s.inputs.last().len() - 4) =~= le_bytes(last.sequence as nat, 4));
    assert(s.outputs =~= tx.output.map_values(|o: TxOutView| o.encoding()));
}

/// A field of a message holds exactly the bytes that were put in, and takes up to 65535 of them.
pub proof fn field_holds_the_bytes(bytes: Seq<u8>, r: Result<Vec<u8>, RolesError>)
    requires
        is_b064k(bytes, r),
    ensures
        r is Ok <==> bytes.len() <= 65535,
        r matches Ok(v) ==> v@ == bytes,
        r matches Err(e) ==> (e matches RolesError::BinarySv2Error { max_size, len } && max_size
            == 65535 && len == bytes.len() as usize),
{
}

/// The blank coinbase of a job is its two parts with zeros between them, and the extranonce has
/// room where the last script is long enough.
pub proof fn blank_coinbase_has_zeros_between(
    job: NewExtendedMiningJob,
    tx: TransactionView,
    full_extranonce_len: nat,
)
    ensures
        ({
            let (n, p) = (full_extranonce_len, job.coinbase_tx_prefix@.len());
            let bytes = blank_coinbase(job@, n);
            &&& bytes.len() == p + n + job.coinbase_tx_suffix@.len()
            &&& bytes.take(p as int) == job.coinbase_tx_prefix@
            &&& forall|i: int| p <= i < p + n ==> bytes[i] == 0
            &&& bytes.skip((p + n) as int) == job.coinbase_tx_suffix@
        }),
        has_extranonce_room(tx, full_extranonce_len) <==> tx.input.len() == 0
            || full_extranonce_len <= tx.input.last().script_sig.len(),
{
    let (n, p) = (full_extranonce_len, job.coinbase_tx_prefix@.len());
    let bytes = blank_coinbase(job@, n);
    assert(bytes.take(p as int) =~= job.coinbase_tx_prefix@);
    assert(bytes.skip((p + n) as int) =~= job.coinbase_tx_suffix@);
}

proof fn lemma_i32_as_u32(v: i32)
    ensures
        (v as u32) as nat == i32_bits(v),
{
    assert(v >= 0 ==> (v as u32) == v) by (bit_vector);
    assert(v < 0 ==> (v as u32) == v + 0x1_0000_0000) by (bit_vector);
}

} // verus!
