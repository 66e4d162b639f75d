//! The coinbase transaction of a job, cut around the place of the extranonce.

use crate::bytes::{i32_bits, le_bytes, lemma_le_bytes_len};
use crate::errors::RolesError;
use crate::messages::{
    clone_bytes, clone_path, to_b064k, B064K_MAX, NewExtendedMiningJob, NewExtendedMiningJobView,
    NewTemplate, NewTemplateView,
};
use crate::transaction::{
    compact_size, encode_transaction, inputs_encoding, outputs_contents_are_those_of_each,
    outputs_encoding, outputs_view, var_bytes, witnesses_encoding, OutPoint, Transaction,
    TransactionView, TxIn, TxInView, TxOut, TxOutView,
};
use crate::wire_format::lemma_compact_size_len;
use vstd::prelude::*;

verus! {

/// A string of `n` zero bytes.
pub open spec fn zeros(n: nat) -> Seq<u8> {
    Seq::new(n, |i: int| 0u8)
}

/// The coinbase transaction of a job whose script holds the block height in `bip34_bytes`,
/// followed by the extranonce. Without block height it has no witness.
pub open spec fn coinbase_view(
    bip34_bytes: Seq<u8>,
    version: i32,
    lock_time: u32,
    sequence: u32,
    outputs: Seq<TxOutView>,
    extranonce: Seq<u8>,
) -> TransactionView {
    TransactionView {
        version,
        lock_time,
        input: seq![
            TxInView {
                txid: zeros(32),
                vout: u32::MAX,
                script_sig: bip34_bytes + extranonce,
                sequence,
                witness: if bip34_bytes.len() == 0 {
                    Seq::empty()
                } else {
                    seq![zeros(32)]
                },
            },
        ],
        output: outputs,
    }
}

/// Where the extranonce of a job's coinbase starts, if the script has at most 252 bytes:
/// after the version, the marker and flag if there is a witness, the number of inputs, the
/// previous output, the length of the script and the block height.
pub open spec fn extranonce_start(script_prefix_len: nat) -> nat {
    4 + (if script_prefix_len == 0 { 0nat } else { 2 }) + 1 + 32 + 4 + 1 + script_prefix_len
}

fn zero_bytes(n: usize) -> (r: Vec<u8>)
    ensures
        r@ == zeros(n as nat),
{
    let r: Vec<u8> = vec![0u8; n];
    assert(r@ =~= zeros(n as nat));
    r
}

/// Builds the coinbase transaction, with zeros in place of the extranonce.
pub fn coinbase(
    bip34_bytes: Vec<u8>,
    version: i32,
    lock_time: u32,
    sequence: u32,
    coinbase_outputs: &Vec<TxOut>,
    extranonce_len: u8,
) -> (r: Transaction)
    ensures
        r@ == coinbase_view(
            bip34_bytes@,
            version,
            lock_time,
            sequence,
            outputs_view(coinbase_outputs@),
            zeros(extranonce_len as nat),
        ),
        r.version == version,
        r.lock_time == lock_time,
        r.input@.len() == 1,
        r.input@[0].sequence == sequence,
        r.input@[0].previous_output.vout == u32::MAX,
        forall|i: int| 0 <= i < 32 ==> r.input@[0].previous_output.txid@[i] == 0,
        r.input@[0].script_sig@.len() == bip34_bytes@.len() + extranonce_len,
        r.input@[0].script_sig@.take(bip34_bytes@.len() as int) == bip34_bytes@,
        forall|i: int|
            bip34_bytes@.len() <= i < bip34_bytes@.len() + extranonce_len
                ==> r.input@[0].script_sig@[i] == 0,
        bip34_bytes@.len() == 0 ==> r.input@[0].witness@.len() == 0,
        bip34_bytes@.len() > 0 ==> r.input@[0].witness@.len() == 1
            && r.input@[0].witness@[0]@.len() == 32 && forall|i: int|
            0 <= i < 32 ==> r.input@[0].witness@[0]@[i] == 0,
        r.output@.len() == coinbase_outputs@.len(),
        forall|i: int| #![trigger r.output@[i]]
            0 <= i < r.output@.len() ==> r.output@[i].value == coinbase_outputs@[i].value
                && r.output@[i].script_pubkey@ == coinbase_outputs@[i].script_pubkey@,
{
    let mut witness: Vec<Vec<u8>> = Vec::new();
    if bip34_bytes.len() != 0 {
        witness.push(zero_bytes(32));
    }
    let mut script_sig = bip34_bytes;
    let mut extranonce = zero_bytes(extranonce_len as usize);
    script_sig.append(&mut extranonce);
    let tx_in = TxIn {
        previous_output: OutPoint { txid: [0u8; 32], vout: u32::MAX },
        script_sig,
        sequence,
        witness,
    };
    let mut input: Vec<TxIn> = Vec::new();
    input.push(tx_in);
    let mut output: Vec<TxOut> = Vec::new();
    let mut i: usize = 0;
    while i < coinbase_outputs.len()
        invariant
            i <= coinbase_outputs.len(),
            outputs_view(output@) == outputs_view(coinbase_outputs@).take(i as int),
        decreases coinbase_outputs.len() - i,
    {
        let ghost before = output@;
        let out = TxOut {
            value: coinbase_outputs[i].value,
            script_pubkey: clone_bytes(&coinbase_outputs[i].script_pubkey),
        };
        output.push(out);
        i += 1;
        proof {
            let all = outputs_view(coinbase_outputs@);
            assert(outputs_view(output@) =~= outputs_view(before).push(out@));
            assert(all.take(i as int) =~= all.take(i - 1).push(all[i - 1]));
        }
    }
    let r = Transaction { version, lock_time, input, output };
    proof {
        assert(outputs_view(coinbase_outputs@).take(coinbase_outputs@.len() as int)
            =~= outputs_view(coinbase_outputs@));
        assert(tx_in@.witness =~= (if bip34_bytes@.len() == 0 {
            Seq::empty()
        } else {
            seq![zeros(32)]
        }));
        assert(tx_in@.txid =~= zeros(32));
        assert(r@.input =~= coinbase_view(
            bip34_bytes@,
            version,
            lock_time,
            sequence,
            outputs_view(coinbase_outputs@),
            zeros(extranonce_len as nat),
        ).input);
        assert(script_sig@ =~= bip34_bytes@ + zeros(extranonce_len as nat));
        assert(script_sig@.take(bip34_bytes@.len() as int) =~= bip34_bytes@);
        outputs_contents_are_those_of_each(r.output@);
        outputs_contents_are_those_of_each(coinbase_outputs@);
        assert forall|i: int| #![trigger r.output@[i]]
            0 <= i < r.output@.len() implies r.output@[i].value == coinbase_outputs@[i].value
            && r.output@[i].script_pubkey@ == coinbase_outputs@[i].script_pubkey@ by {
            assert(outputs_view(r.output@)[i] == outputs_view(coinbase_outputs@)[i]);
        }
    }
    r
}

/// What stands in front of the script in a job's coinbase.
pub open spec fn coinbase_head(bip34_bytes: Seq<u8>, version: i32, script_len: nat) -> Seq<u8> {
    le_bytes(i32_bits(version), 4) + (if bip34_bytes.len() == 0 {
        Seq::empty()
    } else {
        seq![0u8, 1u8]
    }) + seq![1u8] + zeros(32) + le_bytes(u32::MAX as nat, 4) + compact_size(script_len)
}

/// What stands behind the script in a job's coinbase.
pub open spec fn coinbase_tail(
    bip34_bytes: Seq<u8>,
    lock_time: u32,
    sequence: u32,
    outputs: Seq<TxOutView>,
) -> Seq<u8> {
    le_bytes(sequence as nat, 4) + outputs_encoding(outputs) + (if bip34_bytes.len() == 0 {
        Seq::empty()
    } else {
        compact_size(1) + var_bytes(zeros(32))
    }) + le_bytes(lock_time as nat, 4)
}

proof fn lemma_flatten_single(s: Seq<Seq<u8>>, b: Seq<u8>)
    requires
        s =~= seq![b],
    ensures
        s.flatten() == b,
{
    assert(s.drop_first() =~= Seq::<Seq<u8>>::empty());
    assert(s.first() == b);
    assert(Seq::<Seq<u8>>::empty().flatten() =~= Seq::<u8>::empty());
    assert(s.flatten() =~= b + Seq::<Seq<u8>>::empty().flatten());
}

pub proof fn lemma_coinbase_head_len(bip34_bytes: Seq<u8>, version: i32, script_len: nat)
    ensures
        coinbase_head(bip34_bytes, version, script_len).len() + bip34_bytes.len()
            == extranonce_start(bip34_bytes.len()) + compact_size(script_len).len() - 1,
{
    lemma_le_bytes_len(i32_bits(version), 4);
    lemma_le_bytes_len(u32::MAX as nat, 4);
}

/// The wire format of a job's coinbase, cut around its script.
pub proof fn lemma_coinbase_encoding(
    bip34_bytes: Seq<u8>,
    version: i32,
    lock_time: u32,
    sequence: u32,
    outputs: Seq<TxOutView>,
    extranonce: Seq<u8>,
)
    ensures
        coinbase_view(bip34_bytes, version, lock_time, sequence, outputs, extranonce).encoding()
            == coinbase_head(bip34_bytes, version, bip34_bytes.len() + extranonce.len())
            + bip34_bytes + extranonce + coinbase_tail(bip34_bytes, lock_time, sequence, outputs),
{
    let t = coinbase_view(bip34_bytes, version, lock_time, sequence, outputs, extranonce);
    let i = t.input[0];
    lemma_flatten_single(t.input.map_values(|i: TxInView| i.encoding()), i.encoding());
    assert(inputs_encoding(t.input) =~= seq![1u8] + i.encoding());
    let head = coinbase_head(bip34_bytes, version, bip34_bytes.len() + extranonce.len());
    let tail = coinbase_tail(bip34_bytes, lock_time, sequence, outputs);
    if bip34_bytes.len() == 0 {
        assert(!t.is_segwit());
        assert(t.legacy_encoding() =~= head + bip34_bytes + extranonce + tail);
    } else {
        assert(t.input[0].witness.len() > 0);
        assert(t.is_segwit());
        let w = seq![zeros(32)].map_values(|b: Seq<u8>| var_bytes(b));
        lemma_flatten_single(w, var_bytes(zeros(32)));
        lemma_flatten_single(
            t.input.map_values(|i: TxInView| crate::transaction::witness_encoding(i.witness)),
            crate::transaction::witness_encoding(i.witness),
        );
        assert(witnesses_encoding(t.input) =~= compact_size(1) + var_bytes(zeros(32)));
        assert(t.segwit_encoding() =~= head + bip34_bytes + extranonce + tail);
    }
}

/// The part of the coinbase before the extranonce.
pub fn coinbase_tx_prefix(coinbase: &Transaction, script_prefix_len: usize) -> (r: Result<
    Vec<u8>,
    RolesError,
>)
    requires
        extranonce_start(script_prefix_len as nat) <= coinbase@.encoding().len(),
    ensures
        match r {
            Ok(prefix) => extranonce_start(script_prefix_len as nat) <= B064K_MAX && prefix@
                == coinbase@.encoding().take(extranonce_start(script_prefix_len as nat) as int),
            Err(e) => extranonce_start(script_prefix_len as nat) > B064K_MAX && e == (
            RolesError::BinarySv2Error {
                max_size: B064K_MAX,
                len: extranonce_start(script_prefix_len as nat) as usize,
            }),
        },
        r matches Ok(prefix) ==> prefix@ == coinbase@.encoding().take(
            42 + script_prefix_len + (if script_prefix_len == 0 { 0int } else { 2 }),
        ),
{
    let encoded = encode_transaction(coinbase);
    assert(encoded.len() == encoded@.len());
    let segwit_bytes: usize = if script_prefix_len == 0 { 0 } else { 2 };
    let index = 4 + segwit_bytes + 1 + 32 + 4 + 1 + script_prefix_len;
    let r = vstd::slice::slice_to_vec(&encoded.as_slice()[0..index]);
    assert(r@ =~= coinbase@.encoding().take(index as int));
    to_b064k(r)
}

/// The part of the coinbase after the extranonce.
pub fn coinbase_tx_suffix(
    coinbase: &Transaction,
    extranonce_len: u8,
    script_prefix_len: usize,
) -> (r: Result<Vec<u8>, RolesError>)
    requires
        extranonce_start(script_prefix_len as nat) + extranonce_len <= coinbase@.encoding().len(),
    ensures
        ({
            let end = extranonce_start(script_prefix_len as nat) + extranonce_len;
            let suffix = coinbase@.encoding().skip(end);
            match r {
                Ok(s) => suffix.len() <= B064K_MAX && s@ == suffix,
                Err(e) => suffix.len() > B064K_MAX && e == (RolesError::BinarySv2Error {
                    max_size: B064K_MAX,
                    len: suffix.len() as usize,
                }),
            }
        }),
        r matches Ok(s) ==> s@ == coinbase@.encoding().skip(
            42 + script_prefix_len + extranonce_len + (if script_prefix_len == 0 {
                0int
            } else {
                2
            }),
        ),
{
    let encoded = encode_transaction(coinbase);
    let encoded_len = encoded.len();
    let segwit_bytes: usize = if script_prefix_len == 0 { 0 } else { 2 };
    let index = 4 + segwit_bytes + 1 + 32 + 4 + 1 + script_prefix_len + extranonce_len as usize;
    let r = vstd::slice::slice_to_vec(&encoded.as_slice()[index..encoded_len]);
    assert(r@ =~= coinbase@.encoding().skip(index as int));
    to_b064k(r)
}

/// Whether a coinbase prefix is the push of the block height: its first byte counts the bytes
/// behind it but for one.
pub open spec fn is_bip34_push(coinbase_prefix: Seq<u8>) -> bool {
    coinbase_prefix[0] + 2 == coinbase_prefix.len()
}

/// Checks that the coinbase prefix of a template is the push of the block height, and returns it.
/// The chain has at least 16 blocks, so that the prefix has more than two bytes.
pub fn get_bip_34_bytes(new_template: &NewTemplate, tx_version: i32) -> (r: Result<
    Vec<u8>,
    RolesError,
>)
    requires
        new_template@.coinbase_prefix.len() > 2,
    ensures
        match r {
            Ok(b) => tx_version > 1 && is_bip34_push(new_template@.coinbase_prefix) && b@
                == new_template@.coinbase_prefix,
            Err(RolesError::TxVersionTooLow) => tx_version <= 1,
            Err(RolesError::InvalidBip34Bytes(b)) => tx_version > 1 && !is_bip34_push(
                new_template@.coinbase_prefix,
            ) && b@ == new_template@.coinbase_prefix,
            Err(_) => false,
        },
        r is Ok <==> tx_version > 1 && new_template.coinbase_prefix@[0] + 2
            == new_template.coinbase_prefix@.len(),
        r matches Ok(b) ==> b@ == new_template.coinbase_prefix@,
        (r matches Err(RolesError::TxVersionTooLow)) <==> tx_version <= 1,
{
    let script_prefix = &new_template.coinbase_prefix;
    if tx_version <= 1 {
        return Err(RolesError::TxVersionTooLow);
    }
    let bip34_len = script_prefix[0] as usize + 2;
    if bip34_len == script_prefix.len() {
        Ok(clone_bytes(script_prefix))
    } else {
        Err(RolesError::InvalidBip34Bytes(clone_bytes(script_prefix)))
    }
}

/// The coinbase that a template and the outputs of a job make, with the given extranonce.
pub open spec fn job_coinbase(
    template: NewTemplateView,
    outputs: Seq<TxOutView>,
    extranonce: Seq<u8>,
) -> TransactionView {
    coinbase_view(
        template.coinbase_prefix,
        template.coinbase_tx_version as i32,
        template.coinbase_tx_locktime,
        template.coinbase_tx_input_sequence,
        outputs,
        extranonce,
    )
}

/// The part of the coinbase of a job in front of the extranonce.
pub open spec fn job_prefix(
    template: NewTemplateView,
    outputs: Seq<TxOutView>,
    extranonce_len: u8,
) -> Seq<u8> {
    job_coinbase(template, outputs, zeros(extranonce_len as nat)).encoding().take(
        extranonce_start(template.coinbase_prefix.len()) as int,
    )
}

/// The part of the coinbase of a job behind the extranonce.
pub open spec fn job_suffix(
    template: NewTemplateView,
    outputs: Seq<TxOutView>,
    extranonce_len: u8,
) -> Seq<u8> {
    job_coinbase(template, outputs, zeros(extranonce_len as nat)).encoding().skip(
        extranonce_start(template.coinbase_prefix.len()) + extranonce_len,
    )
}

/// The job that is made of a template.
pub open spec fn job_of_template(
    template: NewTemplateView,
    outputs: Seq<TxOutView>,
    job_id: u32,
    version_rolling_allowed: bool,
    extranonce_len: u8,
) -> NewExtendedMiningJobView {
    NewExtendedMiningJobView {
        channel_id: 0,
        job_id,
        future_job: template.future_template,
        version: template.version,
        version_rolling_allowed,
        merkle_path: template.merkle_path,
        coinbase_tx_prefix: job_prefix(template, outputs, extranonce_len),
        coinbase_tx_suffix: job_suffix(template, outputs, extranonce_len),
    }
}

/// What making a job of a template gives: the job, or the reason why there is none. The reasons
/// are looked for in this order: the coinbase version is too big, it is too low, the coinbase
/// prefix is not the block height, the part behind the extranonce is too long.
pub open spec fn is_job_of_template(
    template: NewTemplateView,
    outputs: Seq<TxOutView>,
    job_id: u32,
    version_rolling_allowed: bool,
    extranonce_len: u8,
    r: Result<NewExtendedMiningJob, RolesError>,
) -> bool {
    let suffix_len = job_suffix(template, outputs, extranonce_len).len();
    if template.coinbase_tx_version > i32::MAX {
        r matches Err(e) && e == RolesError::TxVersionTooBig
    } else if template.coinbase_tx_version <= 1 {
        r matches Err(e) && e == RolesError::TxVersionTooLow
    } else if !is_bip34_push(template.coinbase_prefix) {
        r matches Err(RolesError::InvalidBip34Bytes(b)) && b@ == template.coinbase_prefix
    } else if suffix_len > B064K_MAX {
        r matches Err(e) && e == (RolesError::BinarySv2Error {
            max_size: B064K_MAX,
            len: suffix_len as usize,
        })
    } else {
        r matches Ok(job) && job@ == job_of_template(
            template,
            outputs,
            job_id,
            version_rolling_allowed,
            extranonce_len,
        )
    }
}

/// Makes a job of a template. The job goes to channel 0.
pub fn new_extended_job(
    new_template: &NewTemplate,
    coinbase_outputs: &Vec<TxOut>,
    job_id: u32,
    version_rolling_allowed: bool,
    extranonce_len: u8,
) -> (r: Result<NewExtendedMiningJob, RolesError>)
    requires
        new_template@.coinbase_tx_version <= i32::MAX ==> new_template@.coinbase_prefix.len() > 2,
    ensures
        is_job_of_template(
            new_template@,
            outputs_view(coinbase_outputs@),
            job_id,
            version_rolling_allowed,
            extranonce_len,
            r,
        ),
        r matches Ok(job) ==> {
            &&& job.channel_id == 0
            &&& job.job_id == job_id
            &&& job.future_job == new_template.future_template
            &&& job.version == new_template.version
            &&& job.version_rolling_allowed == version_rolling_allowed
            &&& job.merkle_path@ == new_template.merkle_path@
            &&& job.coinbase_tx_prefix@ == job_coinbase(
                new_template@,
                outputs_view(coinbase_outputs@),
                zeros(extranonce_len as nat),
            ).encoding().take(44int + new_template.coinbase_prefix@.len())
            &&& job.coinbase_tx_suffix@ == job_coinbase(
                new_template@,
                outputs_view(coinbase_outputs@),
                zeros(extranonce_len as nat),
            ).encoding().skip(44 + new_template.coinbase_prefix@.len() + extranonce_len)
        },
        r is Ok ==> 2 <= new_template.coinbase_tx_version <= i32::MAX
            && new_template.coinbase_prefix@[0] + 2 == new_template.coinbase_prefix@.len(),
        (r matches Err(RolesError::TxVersionTooBig)) <==> new_template.coinbase_tx_version
            > i32::MAX,
        (r matches Err(RolesError::TxVersionTooLow)) <==> new_template.coinbase_tx_version <= 1,
{
    if new_template.coinbase_tx_version > i32::MAX as u32 {
        return Err(RolesError::TxVersionTooBig);
    }
    let tx_version = new_template.coinbase_tx_version as i32;
    let bip34_bytes = match get_bip_34_bytes(new_template, tx_version) {
        Ok(b) => b,
        Err(e) => return Err(e),
    };
    let script_prefix_len = bip34_bytes.len();
    let coinbase = coinbase(
        bip34_bytes,
        tx_version,
        new_template.coinbase_tx_locktime,
        new_template.coinbase_tx_input_sequence,
        coinbase_outputs,
        extranonce_len,
    );
    proof {
        let t = new_template@;
        let n = t.coinbase_prefix.len() + extranonce_len as nat;
        lemma_coinbase_encoding(
            t.coinbase_prefix,
            tx_version,
            t.coinbase_tx_locktime,
            t.coinbase_tx_input_sequence,
            outputs_view(coinbase_outputs@),
            zeros(extranonce_len as nat),
        );
        lemma_coinbase_head_len(t.coinbase_prefix, tx_version, n);
        lemma_compact_size_len(n);
    }
    let coinbase_tx_prefix = match coinbase_tx_prefix(&coinbase, script_prefix_len) {
        Ok(p) => p,
        Err(e) => return Err(e),
    };
    let coinbase_tx_suffix = match coinbase_tx_suffix(
        &coinbase,
        extranonce_len,
        script_prefix_len,
    ) {
        Ok(s) => s,
        Err(e) => return Err(e),
    };
    Ok(
        NewExtendedMiningJob {
            channel_id: 0,
            job_id,
            future_job: new_template.future_template,
            version: new_template.version,
            version_rolling_allowed,
            merkle_path: clone_path(&new_template.merkle_path),
            coinbase_tx_prefix,
            coinbase_tx_suffix,
        },
    )
}

/// What a job takes over from its template, and when there is one: a job is a future job exactly
/// if the template is, it has the template's version and Merkle path, and there is a job exactly
/// if the coinbase version is from 2 to `2^31 - 1`, the coinbase prefix is one byte longer than its
/// first byte counts, that byte itself apart, and the part behind the extranonce fits.
pub proof fn job_takes_over_the_template(
    template: NewTemplate,
    outputs: Seq<TxOutView>,
    job_id: u32,
    version_rolling_allowed: bool,
    extranonce_len: u8,
    r: Result<NewExtendedMiningJob, RolesError>,
)
    requires
        is_job_of_template(
            template@,
            outputs,
            job_id,
            version_rolling_allowed,
            extranonce_len,
            r,
        ),
        template.coinbase_prefix@.len() > 0,
    ensures
        r matches Ok(job) ==> {
            &&& job.channel_id == 0
            &&& job.job_id == job_id
            &&& job.future_job == template.future_template
            &&& job.version == template.version
            &&& job.version_rolling_allowed == version_rolling_allowed
            &&& job.merkle_path@ == template.merkle_path@
            &&& job.coinbase_tx_prefix@ == job_coinbase(
                template@,
                outputs,
                zeros(extranonce_len as nat),
            ).encoding().take(44int + template.coinbase_prefix@.len())
            &&& job.coinbase_tx_suffix@ == job_coinbase(
                template@,
                outputs,
                zeros(extranonce_len as nat),
            ).encoding().skip(44 + template.coinbase_prefix@.len() + extranonce_len)
        },
        r is Ok <==> {
            &&& 2 <= template.coinbase_tx_version <= i32::MAX
            &&& template.coinbase_prefix@[0] + 2 == template.coinbase_prefix@.len()
            &&& job_coinbase(
                template@,
                outputs,
                zeros(extranonce_len as nat),
            ).encoding().skip(44 + template.coinbase_prefix@.len() + extranonce_len).len() <= 65535
        },
        r matches Err(e) ==> (if template.coinbase_tx_version > i32::MAX {
            e is TxVersionTooBig
        } else if template.coinbase_tx_version <= 1 {
            e is TxVersionTooLow
        } else if template.coinbase_prefix@[0] + 2 != template.coinbase_prefix@.len() {
            e matches RolesError::InvalidBip34Bytes(b) && b@ == template.coinbase_prefix@
        } else {
            e matches RolesError::BinarySv2Error { max_size, len } && max_size == 65535 && len
                == job_suffix(template@, outputs, extranonce_len).len() as usize
        }),
{
}

/// The coinbase of a job has one input that refers to no output. Its script is the template's
/// coinbase prefix and the extranonce, its sequence, the version and the lock time are the
/// template's, its witness is one string of 32 zeros, and the outputs are those given, in their
/// order.
pub proof fn job_coinbase_is_made_of_the_template(
    template: NewTemplate,
    outputs: Seq<TxOutView>,
    extranonce: Seq<u8>,
)
    requires
        template.coinbase_prefix@.len() > 0,
        template.coinbase_tx_version <= i32::MAX,
    ensures
        ({
            let tx = job_coinbase(template@, outputs, extranonce);
            &&& tx.version == template.coinbase_tx_version
            &&& tx.lock_time == template.coinbase_tx_locktime
            &&& tx.output == outputs
            &&& tx.input.len() == 1
            &&& tx.input[0].sequence == template.coinbase_tx_input_sequence
            &&& tx.input[0].script_sig == template.coinbase_prefix@ + extranonce
            &&& tx.input[0].vout == u32::MAX
            &&& tx.input[0].txid.len() == 32
            &&& forall|i: int| 0 <= i < 32 ==> tx.input[0].txid[i] == 0
            &&& tx.input[0].witness.len() == 1
            &&& tx.input[0].witness[0].len() == 32
            &&& forall|i: int| 0 <= i < 32 ==> tx.input[0].witness[0][i] == 0
        }),
{
}

/// The extranonce starts behind 42 bytes and the block height, and behind two bytes more where
/// there is a block height, since there is a witness then.
pub proof fn extranonce_starts_behind_the_height(script_prefix_len: nat)
    ensures
        extranonce_start(0) == 42,
        script_prefix_len > 0 ==> extranonce_start(script_prefix_len) == 44 + script_prefix_len,
{
}

/// Strings of zeros hold nothing but zeros.
pub proof fn zeros_are_zero(n: nat)
    ensures
        zeros(n).len() == n,
        forall|i: int| 0 <= i < n ==> zeros(n)[i] == 0,
{
}

} // verus!
