//! Laws that tie together the coinbase of a job, its two parts, and its stripped form.

use crate::bytes::{i32_bits, le_bytes, lemma_le_bytes_len};
use crate::coinbase::{
    coinbase_head, coinbase_tail, extranonce_start, is_job_of_template, job_coinbase, job_prefix,
    job_suffix, lemma_coinbase_encoding, lemma_coinbase_head_len, zeros,
};
use crate::errors::RolesError;
use crate::messages::{
    B064K_MAX, NewExtendedMiningJob, NewExtendedMiningJobView, NewTemplateView,
};
use crate::stripped_coinbase::{
    blank_coinbase, has_extranonce_room, is_non_segwit_job, stripped_input, stripped_view,
};
use crate::transaction::{
    compact_size, decodes_to, inputs_encoding, outputs_encoding, witnesses_encoding,
    TransactionView, TxInView, TxOutView,
};
use crate::wire_format::lemma_compact_size_len;
use vstd::prelude::*;

verus! {

/// Whatever extranonce of the agreed length a miner puts between the two parts of a job, the
/// bytes are the job's coinbase with that extranonce in its script. This holds where the script,
/// block height and extranonce, has at most 252 bytes.
pub proof fn extranonce_fits_between(
    template: NewTemplateView,
    outputs: Seq<TxOutView>,
    extranonce_len: u8,
    extranonce: Seq<u8>,
)
    requires
        extranonce.len() == extranonce_len,
        template.coinbase_prefix.len() + extranonce_len <= 252,
    ensures
        job_prefix(template, outputs, extranonce_len) + extranonce + job_suffix(
            template,
            outputs,
            extranonce_len,
        ) == job_coinbase(template, outputs, extranonce).encoding(),
{
    let b = template.coinbase_prefix;
    let v = template.coinbase_tx_version as i32;
    let (lt, sq) = (template.coinbase_tx_locktime, template.coinbase_tx_input_sequence);
    let z = zeros(extranonce_len as nat);
    let n = b.len() + extranonce_len as nat;
    lemma_coinbase_encoding(b, v, lt, sq, outputs, z);
    lemma_coinbase_encoding(b, v, lt, sq, outputs, extranonce);
    lemma_coinbase_head_len(b, v, n);
    lemma_compact_size_len(n);
    let head = coinbase_head(b, v, n) + b;
    let tail = coinbase_tail(b, lt, sq, outputs);
    let start = extranonce_start(b.len()) as int;
    assert(job_prefix(template, outputs, extranonce_len) =~= head);
    assert(job_suffix(template, outputs, extranonce_len) =~= tail);
}

/// A transaction whose last input's script ends in `extranonce` instead of its last bytes.
pub open spec fn with_extranonce(tx: TransactionView, extranonce: Seq<u8>) -> TransactionView {
    let last = tx.input.last();
    let kept = last.script_sig.take(last.script_sig.len() - extranonce.len());
    TransactionView {
        input: tx.input.drop_last().push(TxInView { script_sig: kept + extranonce, ..last }),
        ..tx
    }
}

/// A transaction stays well-formed when an extranonce is put into it.
pub proof fn lemma_with_extranonce_wf(tx: TransactionView, extranonce: Seq<u8>)
    requires
        tx.wf(),
        tx.input.len() > 0,
        has_extranonce_room(tx, extranonce.len()),
    ensures
        with_extranonce(tx, extranonce).wf(),
{
    let full = with_extranonce(tx, extranonce);
    assert(tx.input.last().wf());
    assert forall|i: int| 0 <= i < full.input.len() implies (#[trigger] full.input[i]).wf() by {
        assert(tx.input[i].wf());
    }
}

/// The coinbase of a job is well-formed.
pub proof fn lemma_job_coinbase_wf(
    template: NewTemplateView,
    outputs: Seq<TxOutView>,
    extranonce: Seq<u8>,
)
    requires
        forall|i: int| 0 <= i < outputs.len() ==> (#[trigger] outputs[i]).wf(),
        outputs.len() <= u64::MAX,
        template.coinbase_prefix.len() + extranonce.len() <= u64::MAX,
    ensures
        job_coinbase(template, outputs, extranonce).wf(),
{
    assert(job_coinbase(template, outputs, extranonce).input[0].wf());
}

/// Whether the counts of inputs and outputs and the lengths of the inputs' scripts take one byte
/// each in the wire format.
pub open spec fn has_short_counts(tx: TransactionView) -> bool {
    &&& tx.input.len() <= 252
    &&& tx.output.len() <= 252
    &&& forall|i: int| 0 <= i < tx.input.len() ==> (#[trigger] tx.input[i]).script_sig.len() <= 252
}

proof fn lemma_stripped_input(i: TxInView)
    requires
        i.script_sig.len() <= 252,
    ensures
        stripped_input(i) == i.encoding(),
{
    assert(seq![(i.script_sig.len() % 256) as u8] =~= compact_size(i.script_sig.len()));
    assert(stripped_input(i) =~= i.encoding());
}

/// Whatever extranonce stands between the two parts of a stripped coinbase, the bytes are the
/// coinbase with that extranonce and without witnesses: what the transaction id covers.
pub proof fn stripped_parts_make_the_legacy_encoding(tx: TransactionView, extranonce: Seq<u8>)
    requires
        tx.wf(),
        tx.input.len() > 0,
        has_short_counts(tx),
        has_extranonce_room(tx, extranonce.len()),
    ensures
        stripped_view(tx, extranonce.len()).prefix() + extranonce + stripped_view(
            tx,
            extranonce.len(),
        ).suffix() == with_extranonce(tx, extranonce).legacy_encoding(),
{
    let t = with_extranonce(tx, extranonce);
    let s = stripped_view(tx, extranonce.len());
    let last = tx.input.last();
    let new = t.input.last();
    let f = |i: TxInView| i.encoding();
    let front = tx.input.drop_last();
    assert(t.input.map_values(f) =~= front.map_values(f).push(new.encoding()));
    front.map_values(f).lemma_flatten_push(new.encoding());
    assert(s.inputs.drop_last() =~= front.map_values(f)) by {
        assert forall|i: int| 0 <= i < front.len() implies s.inputs[i] == f(front[i]) by {
            lemma_stripped_input(tx.input[i]);
        }
    }
    lemma_le_bytes_len(last.vout as nat, 4);
    lemma_le_bytes_len(last.sequence as nat, 4);
    let kept = last.script_sig.take(last.script_sig.len() - extranonce.len());
    let in_front = last.txid + le_bytes(last.vout as nat, 4) + seq![
        (last.script_sig.len() % 256) as u8,
    ] + kept;
    let sequence = le_bytes(last.sequence as nat, 4);
    assert(s.inputs.last() == stripped_input(last));
    assert(s.inputs.last().take(32 + 4 + 1 + s.bip141_bytes_len as int) =~= in_front);
    assert(s.inputs.last().skip(s.inputs.last().len() - 4) =~= sequence);
    assert(seq![(last.script_sig.len() % 256) as u8] =~= compact_size(new.script_sig.len()));
    assert(new.encoding() =~= in_front + extranonce + sequence);
    assert(seq![(s.inputs.len() % 256) as u8] =~= compact_size(t.input.len()));
    assert(seq![(s.outputs.len() % 256) as u8] =~= compact_size(t.output.len()));
    assert(s.prefix() + extranonce + s.suffix() =~= t.legacy_encoding());
}

/// Putting an extranonce into the blank coinbase of a job gives the job's coinbase with it.
proof fn lemma_job_coinbase_with_extranonce(
    template: NewTemplateView,
    outputs: Seq<TxOutView>,
    extranonce: Seq<u8>,
)
    ensures
        with_extranonce(job_coinbase(template, outputs, zeros(extranonce.len())), extranonce)
            == job_coinbase(template, outputs, extranonce),
{
    let blank = job_coinbase(template, outputs, zeros(extranonce.len()));
    let want = job_coinbase(template, outputs, extranonce);
    let got = with_extranonce(blank, extranonce);
    let b = template.coinbase_prefix;
    assert((b + zeros(extranonce.len())).take(b.len() as int) =~= b);
    assert(got.input =~= want.input);
}

/// A job that was made of a template can be stripped: with a blank extranonce its coinbase is
/// read as the one that it was made with, which has room for the extranonce.
pub proof fn job_of_template_is_read_back(
    template: NewTemplateView,
    outputs: Seq<TxOutView>,
    job_id: u32,
    version_rolling_allowed: bool,
    extranonce_len: u8,
    r: Result<NewExtendedMiningJob, RolesError>,
    decoded: Option<TransactionView>,
)
    requires
        forall|i: int| 0 <= i < outputs.len() ==> (#[trigger] outputs[i]).wf(),
        outputs.len() <= u64::MAX,
        template.coinbase_prefix.len() + extranonce_len <= 252,
        is_job_of_template(
            template,
            outputs,
            job_id,
            version_rolling_allowed,
            extranonce_len,
            r,
        ),
        r is Ok,
        decodes_to(blank_coinbase(r->Ok_0@, extranonce_len as nat), decoded),
    ensures
        decoded == Some(job_coinbase(template, outputs, zeros(extranonce_len as nat))),
        has_extranonce_room(decoded->0, extranonce_len as nat),
{
    let z = zeros(extranonce_len as nat);
    let coinbase = job_coinbase(template, outputs, z);
    extranonce_fits_between(template, outputs, extranonce_len, z);
    let n = template.coinbase_prefix.len() + extranonce_len as nat;
    lemma_coinbase_encoding(
        template.coinbase_prefix,
        template.coinbase_tx_version as i32,
        template.coinbase_tx_locktime,
        template.coinbase_tx_input_sequence,
        outputs,
        z,
    );
    lemma_coinbase_head_len(template.coinbase_prefix, template.coinbase_tx_version as i32, n);
    lemma_compact_size_len(n);
    lemma_job_coinbase_wf(template, outputs, z);
    assert(blank_coinbase(r->Ok_0@, extranonce_len as nat) == coinbase.encoding());
}

/// From a template to what a miner hashes: a job is made of the template and then stripped.
/// Whatever extranonce the miner puts between the two parts of the stripped job, the bytes are
/// those that the transaction id of the job's coinbase covers. This holds where the script has
/// at most 252 bytes and there are at most 252 outputs.
pub proof fn stripped_job_covers_the_txid(
    template: NewTemplateView,
    outputs: Seq<TxOutView>,
    job_id: u32,
    version_rolling_allowed: bool,
    extranonce_len: u8,
    r: Result<NewExtendedMiningJob, RolesError>,
    decoded: Option<TransactionView>,
    stripped: Result<NewExtendedMiningJob, RolesError>,
    extranonce: Seq<u8>,
)
    requires
        forall|i: int| 0 <= i < outputs.len() ==> (#[trigger] outputs[i]).wf(),
        outputs.len() <= 252,
        template.coinbase_prefix.len() + extranonce_len <= 252,
        is_job_of_template(
            template,
            outputs,
            job_id,
            version_rolling_allowed,
            extranonce_len,
            r,
        ),
        r is Ok,
        decodes_to(blank_coinbase(r->Ok_0@, extranonce_len as nat), decoded),
        decoded is Some,
        is_non_segwit_job(r->Ok_0@, decoded->0, extranonce_len as nat, stripped),
        extranonce.len() == extranonce_len,
    ensures
        stripped matches Ok(job) && job@.coinbase_tx_prefix + extranonce
            + job@.coinbase_tx_suffix == job_coinbase(
            template,
            outputs,
            extranonce,
        ).legacy_encoding(),
{
    job_of_template_is_read_back(
        template,
        outputs,
        job_id,
        version_rolling_allowed,
        extranonce_len,
        r,
        decoded,
    );
    let blank = decoded->0;
    lemma_job_coinbase_wf(template, outputs, zeros(extranonce_len as nat));
    stripped_parts_make_the_legacy_encoding(blank, extranonce);
    lemma_job_coinbase_with_extranonce(template, outputs, extranonce);
    lemma_stripped_job_is_no_longer(template, outputs, extranonce_len);
}

/// Stripping leaves bytes out and adds none: the parts stay within their limits.
proof fn lemma_stripped_job_is_no_longer(
    template: NewTemplateView,
    outputs: Seq<TxOutView>,
    extranonce_len: u8,
)
    requires
        outputs.len() <= 252,
        template.coinbase_prefix.len() + extranonce_len <= 252,
    ensures
        ({
            let coinbase = job_coinbase(template, outputs, zeros(extranonce_len as nat));
            let s = stripped_view(coinbase, extranonce_len as nat);
            &&& s.prefix().len() <= B064K_MAX
            &&& s.suffix().len() <= job_suffix(template, outputs, extranonce_len).len()
        }),
{
    let z = zeros(extranonce_len as nat);
    let b = template.coinbase_prefix;
    let coinbase = job_coinbase(template, outputs, z);
    let s = stripped_view(coinbase, extranonce_len as nat);
    let n = b.len() + extranonce_len as nat;
    let (lt, sq) = (template.coinbase_tx_locktime, template.coinbase_tx_input_sequence);
    let v = template.coinbase_tx_version as i32;
    lemma_coinbase_encoding(b, v, lt, sq, outputs, z);
    lemma_coinbase_head_len(b, v, n);
    lemma_compact_size_len(n);
    lemma_compact_size_len(outputs.len());
    lemma_le_bytes_len(i32_bits(v), 4);
    lemma_le_bytes_len(lt as nat, 4);
    lemma_le_bytes_len(sq as nat, 4);
    lemma_le_bytes_len(u32::MAX as nat, 4);
    assert(job_suffix(template, outputs, extranonce_len) =~= coinbase_tail(b, lt, sq, outputs));
    assert(s.inputs.drop_last() =~= Seq::<Seq<u8>>::empty());
    assert(s.inputs.drop_last().flatten() =~= Seq::<u8>::empty());
    assert(s.inputs.last() == stripped_input(coinbase.input[0]));
    assert(s.outputs =~= outputs.map_values(|o: TxOutView| o.encoding()));
}

/// What stands in a transaction that has an input in front of the last `n` bytes of its last
/// input's script.
pub open spec fn front_of_extranonce(tx: TransactionView, n: nat) -> Seq<u8> {
    let last = tx.input.last();
    le_bytes(i32_bits(tx.version), 4) + (if tx.is_segwit() {
        seq![0u8, 1u8]
    } else {
        Seq::empty()
    }) + compact_size(tx.input.len()) + tx.input.drop_last().map_values(
        |i: TxInView| i.encoding(),
    ).flatten() + last.txid + le_bytes(last.vout as nat, 4) + compact_size(last.script_sig.len())
        + last.script_sig.take(last.script_sig.len() - n)
}

/// What stands in a transaction that has an input behind its last input's script.
pub open spec fn back_of_extranonce(tx: TransactionView) -> Seq<u8> {
    le_bytes(tx.input.last().sequence as nat, 4) + outputs_encoding(tx.output) + (
    if tx.is_segwit() {
        witnesses_encoding(tx.input)
    } else {
        Seq::empty()
    }) + le_bytes(tx.lock_time as nat, 4)
}

/// The inputs in the wire format up to the last `n` bytes of the last script.
spec fn inputs_front(input: Seq<TxInView>, n: nat) -> Seq<u8> {
    let last = input.last();
    compact_size(input.len()) + input.drop_last().map_values(
        |i: TxInView| i.encoding(),
    ).flatten() + last.txid + le_bytes(last.vout as nat, 4) + compact_size(last.script_sig.len())
        + last.script_sig.take(last.script_sig.len() - n)
}

proof fn lemma_cut_inputs(input: Seq<TxInView>, n: nat)
    requires
        input.len() > 0,
        n <= input.last().script_sig.len(),
    ensures
        inputs_encoding(input) == inputs_front(input, n) + input.last().script_sig.skip(
            input.last().script_sig.len() - n,
        ) + le_bytes(input.last().sequence as nat, 4),
{
    let last = input.last();
    let f = |i: TxInView| i.encoding();
    let front = input.drop_last();
    assert(input.map_values(f) =~= front.map_values(f).push(last.encoding()));
    front.map_values(f).lemma_flatten_push(last.encoding());
    let k = last.script_sig.len() - n;
    lemma_regroup_input(
        compact_size(input.len()),
        front.map_values(f).flatten(),
        last.txid,
        le_bytes(last.vout as nat, 4),
        compact_size(last.script_sig.len()),
        last.script_sig.take(k),
        last.script_sig.skip(k),
        le_bytes(last.sequence as nat, 4),
    );
    assert(last.script_sig =~= last.script_sig.take(k) + last.script_sig.skip(k));
}

proof fn lemma_regroup_input(
    count: Seq<u8>,
    others: Seq<u8>,
    txid: Seq<u8>,
    vout: Seq<u8>,
    len: Seq<u8>,
    kept: Seq<u8>,
    cut: Seq<u8>,
    sequence: Seq<u8>,
)
    ensures
        count + (others + (txid + vout + (len + (kept + cut)) + sequence)) == count + others + txid
            + vout + len + kept + cut + sequence,
{
    assert(count + (others + (txid + vout + (len + (kept + cut)) + sequence)) =~= count + others
        + txid + vout + len + kept + cut + sequence);
}

proof fn lemma_regroup_transaction(
    head: Seq<u8>,
    front: Seq<u8>,
    cut: Seq<u8>,
    sequence: Seq<u8>,
    outputs: Seq<u8>,
    witnesses: Seq<u8>,
    lock_time: Seq<u8>,
)
    ensures
        head + (front + cut + sequence) + outputs + witnesses + lock_time == (head + front) + cut
            + (sequence + outputs + witnesses + lock_time),
{
    assert(head + (front + cut + sequence) + outputs + witnesses + lock_time =~= (head + front)
        + cut + (sequence + outputs + witnesses + lock_time));
}

proof fn lemma_cut_at_extranonce(tx: TransactionView, n: nat)
    requires
        tx.input.len() > 0,
        has_extranonce_room(tx, n),
    ensures
        tx.encoding() == front_of_extranonce(tx, n) + tx.input.last().script_sig.skip(
            tx.input.last().script_sig.len() - n,
        ) + back_of_extranonce(tx),
{
    let last = tx.input.last();
    let version = le_bytes(i32_bits(tx.version), 4);
    let k = last.script_sig.len() - n;
    let marker = if tx.is_segwit() {
        seq![0u8, 1u8]
    } else {
        Seq::empty()
    };
    let witnesses = if tx.is_segwit() {
        witnesses_encoding(tx.input)
    } else {
        Seq::empty()
    };
    let (inputs, outputs) = (inputs_encoding(tx.input), outputs_encoding(tx.output));
    let lock_time = le_bytes(tx.lock_time as nat, 4);
    lemma_cut_inputs(tx.input, n);
    lemma_regroup_transaction(
        version + marker,
        inputs_front(tx.input, n),
        last.script_sig.skip(k),
        le_bytes(last.sequence as nat, 4),
        outputs,
        witnesses,
        lock_time,
    );
    assert(tx.encoding() =~= version + marker + inputs + outputs + witnesses + lock_time) by {
        if !tx.is_segwit() {
            assert(version + marker =~= version);
            assert(version + inputs + outputs + witnesses =~= version + inputs + outputs);
        }
    }
    lemma_regroup_front(
        version + marker,
        compact_size(tx.input.len()),
        tx.input.drop_last().map_values(|i: TxInView| i.encoding()).flatten(),
        last.txid,
        le_bytes(last.vout as nat, 4),
        compact_size(last.script_sig.len()),
        last.script_sig.take(k),
    );
}

proof fn lemma_regroup_front(
    head: Seq<u8>,
    count: Seq<u8>,
    others: Seq<u8>,
    txid: Seq<u8>,
    vout: Seq<u8>,
    len: Seq<u8>,
    kept: Seq<u8>,
)
    ensures
        head + (count + others + txid + vout + len + kept) == head + count + others + txid + vout
            + len + kept,
{
    assert(head + (count + others + txid + vout + len + kept) =~= head + count + others + txid
        + vout + len + kept);
}

/// Another extranonce of the same length changes nothing around it.
proof fn lemma_around_extranonce(tx: TransactionView, extranonce: Seq<u8>)
    requires
        tx.input.len() > 0,
        has_extranonce_room(tx, extranonce.len()),
    ensures
        front_of_extranonce(with_extranonce(tx, extranonce), extranonce.len())
            == front_of_extranonce(tx, extranonce.len()),
        back_of_extranonce(with_extranonce(tx, extranonce)) == back_of_extranonce(tx),
        with_extranonce(tx, extranonce).is_segwit() == tx.is_segwit(),
{
    let t = with_extranonce(tx, extranonce);
    assert(t.input.len() == tx.input.len());
    assert(t.input.drop_last() =~= tx.input.drop_last());
    assert forall|i: int| 0 <= i < tx.input.len() implies (#[trigger] t.input[i]).witness
        == tx.input[i].witness by {}
    if tx.is_segwit() {
        let i = choose|i: int|
            0 <= i < tx.input.len() && (#[trigger] tx.input[i]).witness.len() > 0;
        assert(t.input[i].witness.len() > 0);
    }
    if t.is_segwit() {
        let i = choose|i: int|
            0 <= i < t.input.len() && (#[trigger] t.input[i]).witness.len() > 0;
        assert(tx.input[i].witness.len() > 0);
    }
    let w = |i: TxInView| crate::transaction::witness_encoding(i.witness);
    assert(t.input.map_values(w) =~= tx.input.map_values(w));
    let k = tx.input.last().script_sig.len() - extranonce.len();
    assert(t.input.last().script_sig.take(k) =~= tx.input.last().script_sig.take(k));
}

/// Whatever extranonce a miner puts between the two parts of a job, the bytes are the job's
/// coinbase with that extranonce, for any job whose parts are cut where the last input's script
/// has its extranonce: the job need not be made of a template.
pub proof fn extranonce_fits_into_any_job(
    job: NewExtendedMiningJobView,
    tx: TransactionView,
    extranonce: Seq<u8>,
)
    requires
        tx.input.len() > 0,
        has_extranonce_room(tx, extranonce.len()),
        blank_coinbase(job, extranonce.len()) == tx.encoding(),
        job.coinbase_tx_prefix.len() == front_of_extranonce(tx, extranonce.len()).len(),
    ensures
        job.coinbase_tx_prefix == front_of_extranonce(tx, extranonce.len()),
        job.coinbase_tx_suffix == back_of_extranonce(tx),
        job.coinbase_tx_prefix + extranonce + job.coinbase_tx_suffix == with_extranonce(
            tx,
            extranonce,
        ).encoding(),
{
    let n = extranonce.len();
    let full = with_extranonce(tx, extranonce);
    let (front, back) = (front_of_extranonce(tx, n), back_of_extranonce(tx));
    lemma_cut_at_extranonce(tx, n);
    lemma_around_extranonce(tx, extranonce);
    lemma_cut_at_extranonce(full, n);
    let (all, p) = (tx.encoding(), front.len() as int);
    assert(all.take(p) =~= job.coinbase_tx_prefix);
    assert(all.take(p) =~= front);
    assert(all.skip(p + n) =~= job.coinbase_tx_suffix);
    assert(all.skip(p + n) =~= back);
    let k = full.input.last().script_sig.len() - n;
    assert(full.input.last().script_sig.skip(k) =~= extranonce);
}

/// Stripping any job leaves bytes out and adds none.
pub proof fn lemma_stripped_is_no_longer(tx: TransactionView, n: nat)
    requires
        tx.wf(),
        tx.input.len() > 0,
        has_short_counts(tx),
        has_extranonce_room(tx, n),
    ensures
        stripped_view(tx, n).prefix().len() <= front_of_extranonce(tx, n).len(),
        stripped_view(tx, n).suffix().len() <= back_of_extranonce(tx).len(),
{
    let s = stripped_view(tx, n);
    let last = tx.input.last();
    let front = tx.input.drop_last();
    let f = |i: TxInView| i.encoding();
    assert(s.inputs.drop_last() =~= front.map_values(f)) by {
        assert forall|i: int| 0 <= i < front.len() implies s.inputs[i] == f(front[i]) by {
            lemma_stripped_input(tx.input[i]);
        }
    }
    assert(last.wf());
    assert(s.inputs.last() == stripped_input(last));
    lemma_le_bytes_len(i32_bits(tx.version), 4);
    lemma_le_bytes_len(last.vout as nat, 4);
    lemma_le_bytes_len(last.sequence as nat, 4);
    lemma_compact_size_len(tx.input.len());
    lemma_compact_size_len(tx.output.len());
    lemma_compact_size_len(last.script_sig.len());
    assert(s.outputs =~= tx.output.map_values(|o: TxOutView| o.encoding()));
}

} // verus!
