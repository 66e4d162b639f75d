//! Bitcoin transactions: the data, their wire format, and the calls into the `bitcoin` crate
//! that read, write and hash them.

use crate::bytes::{i32_bits, le_bytes, le_nat};
use vstd::prelude::*;

verus! {

/// The largest number of bytes that the `bitcoin` crate reads into one value.
pub const MAX_VEC_SIZE: usize = 4_000_000;

/// Up to this length a byte string that is a transaction is always read: with fewer bytes than
/// this, no vector in it can be large enough to meet the decoder's limit on allocations.
pub const ALWAYS_DECODED_LEN: usize = 160_000;

/// A reference to an output of an earlier transaction.
#[derive(Clone, Copy, Debug, PartialEq, Eq)]
pub struct OutPoint {
    pub txid: [u8; 32],
    pub vout: u32,
}

/// A transaction input.
#[derive(Debug, PartialEq, Eq)]
pub struct TxIn {
    pub previous_output: OutPoint,
    pub script_sig: Vec<u8>,
    pub sequence: u32,
    pub witness: Vec<Vec<u8>>,
}

/// A transaction output.
#[derive(Debug, PartialEq, Eq)]
pub struct TxOut {
    pub value: u64,
    pub script_pubkey: Vec<u8>,
}

/// A transaction.
#[derive(Debug, PartialEq, Eq)]
pub struct Transaction {
    pub version: i32,
    pub lock_time: u32,
    pub input: Vec<TxIn>,
    pub output: Vec<TxOut>,
}

/// What a [`TxIn`] holds.
#[verifier::ext_equal]
pub struct TxInView {
    pub txid: Seq<u8>,
    pub vout: u32,
    pub script_sig: Seq<u8>,
    pub sequence: u32,
    pub witness: Seq<Seq<u8>>,
}

/// What a [`TxOut`] holds.
#[verifier::ext_equal]
pub struct TxOutView {
    pub value: u64,
    pub script_pubkey: Seq<u8>,
}

/// What a [`Transaction`] holds.
#[verifier::ext_equal]
pub struct TransactionView {
    pub version: i32,
    pub lock_time: u32,
    pub input: Seq<TxInView>,
    pub output: Seq<TxOutView>,
}

/// The contents of each of several byte strings.
pub open spec fn byte_strings(v: Seq<Vec<u8>>) -> Seq<Seq<u8>> {
    v.map_values(|b: Vec<u8>| b@)
}

/// The contents of each of several outputs.
pub open spec fn outputs_view(v: Seq<TxOut>) -> Seq<TxOutView> {
    v.map_values(|o: TxOut| o@)
}

/// The contents of each of several inputs.
pub open spec fn inputs_view(v: Seq<TxIn>) -> Seq<TxInView> {
    v.map_values(|i: TxIn| i@)
}

impl View for TxIn {
    type V = TxInView;

    open spec fn view(&self) -> TxInView {
        TxInView {
            txid: self.previous_output.txid@,
            vout: self.previous_output.vout,
            script_sig: self.script_sig@,
            sequence: self.sequence,
            witness: byte_strings(self.witness@),
        }
    }
}

impl View for TxOut {
    type V = TxOutView;

    open spec fn view(&self) -> TxOutView {
        TxOutView { value: self.value, script_pubkey: self.script_pubkey@ }
    }
}

impl View for Transaction {
    type V = TransactionView;

    open spec fn view(&self) -> TransactionView {
        TransactionView {
            version: self.version,
            lock_time: self.lock_time,
            input: inputs_view(self.input@),
            output: outputs_view(self.output@),
        }
    }
}

/// A length in the wire format: one byte up to 252, else a tag and two, four or eight bytes.
pub open spec fn compact_size(n: nat) -> Seq<u8> {
    if n <= 0xFC {
        seq![n as u8]
    } else if n <= 0xFFFF {
        seq![0xFDu8] + le_bytes(n, 2)
    } else if n <= 0xFFFF_FFFF {
        seq![0xFEu8] + le_bytes(n, 4)
    } else {
        seq![0xFFu8] + le_bytes(n, 8)
    }
}

/// A byte string in the wire format: its length, then its bytes.
pub open spec fn var_bytes(b: Seq<u8>) -> Seq<u8> {
    compact_size(b.len()) + b
}

/// A witness stack in the wire format.
pub open spec fn witness_encoding(w: Seq<Seq<u8>>) -> Seq<u8> {
    compact_size(w.len()) + w.map_values(|b: Seq<u8>| var_bytes(b)).flatten()
}

impl TxOutView {
    pub open spec fn wf(self) -> bool {
        self.script_pubkey.len() <= u64::MAX
    }

    /// The output in the wire format.
    pub open spec fn encoding(self) -> Seq<u8> {
        le_bytes(self.value as nat, 8) + var_bytes(self.script_pubkey)
    }
}

impl TxInView {
    pub open spec fn wf(self) -> bool {
        &&& self.txid.len() == 32
        &&& self.script_sig.len() <= u64::MAX
        &&& self.witness.len() <= u64::MAX
        &&& forall|i: int|
            0 <= i < self.witness.len() ==> (#[trigger] self.witness[i]).len() <= u64::MAX
    }

    /// The input in the wire format. The witness is not part of it.
    pub open spec fn encoding(self) -> Seq<u8> {
        self.txid + le_bytes(self.vout as nat, 4) + var_bytes(self.script_sig) + le_bytes(
            self.sequence as nat,
            4,
        )
    }

    /// The input without its witness.
    pub open spec fn stripped(self) -> TxInView {
        TxInView { witness: Seq::empty(), ..self }
    }
}

/// Several inputs in the wire format.
pub open spec fn inputs_encoding(input: Seq<TxInView>) -> Seq<u8> {
    compact_size(input.len()) + input.map_values(|i: TxInView| i.encoding()).flatten()
}

/// Several outputs in the wire format.
pub open spec fn outputs_encoding(output: Seq<TxOutView>) -> Seq<u8> {
    compact_size(output.len()) + output.map_values(|o: TxOutView| o.encoding()).flatten()
}

/// The witnesses of several inputs in the wire format.
pub open spec fn witnesses_encoding(input: Seq<TxInView>) -> Seq<u8> {
    input.map_values(|i: TxInView| witness_encoding(i.witness)).flatten()
}

impl TransactionView {
    /// What holds of every transaction that a program can hold.
    pub open spec fn wf(self) -> bool {
        &&& self.input.len() <= u64::MAX
        &&& self.output.len() <= u64::MAX
        &&& forall|i: int| 0 <= i < self.input.len() ==> (#[trigger] self.input[i]).wf()
        &&& forall|i: int| 0 <= i < self.output.len() ==> (#[trigger] self.output[i]).wf()
    }

    /// The transaction without its witnesses, as it is hashed into the transaction id.
    pub open spec fn legacy_encoding(self) -> Seq<u8> {
        le_bytes(i32_bits(self.version), 4) + inputs_encoding(self.input) + outputs_encoding(
            self.output,
        ) + le_bytes(self.lock_time as nat, 4)
    }

    /// Whether the wire format with witnesses is used: some input has one, or there is no input.
    pub open spec fn is_segwit(self) -> bool {
        self.input.len() == 0 || exists|i: int|
            0 <= i < self.input.len() && (#[trigger] self.input[i]).witness.len() > 0
    }

    /// The wire format with witnesses: a zero where the inputs are counted otherwise, a one, and
    /// the witnesses before the lock time.
    pub open spec fn segwit_encoding(self) -> Seq<u8> {
        le_bytes(i32_bits(self.version), 4) + seq![0u8, 1u8] + inputs_encoding(self.input)
            + outputs_encoding(self.output) + witnesses_encoding(self.input) + le_bytes(
            self.lock_time as nat,
            4,
        )
    }

    /// The transaction in the wire format.
    pub open spec fn encoding(self) -> Seq<u8> {
        if self.is_segwit() {
            self.segwit_encoding()
        } else {
            self.legacy_encoding()
        }
    }

    /// The transaction without its witnesses.
    pub open spec fn stripped(self) -> TransactionView {
        TransactionView { input: self.input.map_values(|i: TxInView| i.stripped()), ..self }
    }

    /// The transaction id.
    pub open spec fn txid(self) -> Seq<u8> {
        sha256d(self.legacy_encoding())
    }
}

/// The contents of a transaction are its fields, in their order.
pub proof fn transaction_contents_are_its_fields(tx: Transaction)
    ensures
        tx@.version == tx.version,
        tx@.lock_time == tx.lock_time,
        tx@.input.len() == tx.input@.len(),
        tx@.output.len() == tx.output@.len(),
        forall|i: int| #![trigger tx@.output[i]]
            0 <= i < tx.output@.len() ==> tx@.output[i].value == tx.output@[i].value
                && tx@.output[i].script_pubkey == tx.output@[i].script_pubkey@,
        forall|i: int| #![trigger tx@.input[i]]
            0 <= i < tx.input@.len() ==> {
                &&& tx@.input[i].txid == tx.input@[i].previous_output.txid@
                &&& tx@.input[i].vout == tx.input@[i].previous_output.vout
                &&& tx@.input[i].script_sig == tx.input@[i].script_sig@
                &&& tx@.input[i].sequence == tx.input@[i].sequence
                &&& tx@.input[i].witness.len() == tx.input@[i].witness@.len()
                &&& forall|j: int| #![trigger tx@.input[i].witness[j]]
                    0 <= j < tx.input@[i].witness@.len() ==> tx@.input[i].witness[j]
                        == tx.input@[i].witness@[j]@
            },
{
}

/// The contents of several outputs are those of each, in their order.
pub proof fn outputs_contents_are_those_of_each(v: Seq<TxOut>)
    ensures
        outputs_view(v).len() == v.len(),
        forall|i: int| #![trigger outputs_view(v)[i]]
            0 <= i < v.len() ==> outputs_view(v)[i].value == v[i].value
                && outputs_view(v)[i].script_pubkey == v[i].script_pubkey@,
{
}

/// The wire format, written out: what the transaction id covers is the version, the inputs with
/// their scripts, the outputs and the lock time, and nothing of the witnesses.
pub proof fn transaction_id_covers(tx: TransactionView)
    ensures
        tx.txid() == sha256d(
            le_bytes(i32_bits(tx.version), 4) + (compact_size(tx.input.len()) + tx.input.map_values(
                |i: TxInView|
                    i.txid + le_bytes(i.vout as nat, 4) + (compact_size(i.script_sig.len())
                        + i.script_sig) + le_bytes(i.sequence as nat, 4),
            ).flatten()) + (compact_size(tx.output.len()) + tx.output.map_values(
                |o: TxOutView|
                    le_bytes(o.value as nat, 8) + (compact_size(o.script_pubkey.len())
                        + o.script_pubkey),
            ).flatten()) + le_bytes(tx.lock_time as nat, 4),
        ),
        tx.stripped().txid() == tx.txid(),
{
    let f = |i: TxInView|
        i.txid + le_bytes(i.vout as nat, 4) + (compact_size(i.script_sig.len()) + i.script_sig)
            + le_bytes(i.sequence as nat, 4);
    let g = |o: TxOutView|
        le_bytes(o.value as nat, 8) + (compact_size(o.script_pubkey.len()) + o.script_pubkey);
    let h = |i: TxInView| i.encoding();
    assert(tx.input.map_values(f) =~= tx.input.map_values(h));
    assert(tx.output.map_values(g) =~= tx.output.map_values(|o: TxOutView| o.encoding()));
    assert(tx.stripped().input.map_values(h) =~= tx.input.map_values(h));
}

/// Every transaction that a program holds is well-formed: its vectors are no longer than an index
/// can count.
pub proof fn every_transaction_is_wf(tx: Transaction)
    ensures
        tx@.wf(),
{
    let t = tx@;
    assert(tx.input.len() == t.input.len());
    assert(tx.output.len() == t.output.len());
    assert forall|i: int| 0 <= i < t.input.len() implies (#[trigger] t.input[i]).wf() by {
        let txin = tx.input@[i];
        let w = t.input[i].witness;
        assert(txin.script_sig.len() == t.input[i].script_sig.len());
        assert(txin.witness.len() == w.len());
        assert forall|j: int| 0 <= j < w.len() implies (#[trigger] w[j]).len() <= u64::MAX by {
            assert(txin.witness@[j].len() == w[j].len());
        }
    }
    assert forall|i: int| 0 <= i < t.output.len() implies (#[trigger] t.output[i]).wf() by {
        assert(tx.output@[i].script_pubkey.len() == t.output[i].script_pubkey.len());
    }
}

/// Reads a length in the wire format: the length, and how many bytes it takes. A length that
/// would fit in a shorter form is refused.
pub open spec fn compact_size_decoding(s: Seq<u8>) -> Option<(u64, nat)> {
    if s.len() == 0 {
        None
    } else if s[0] <= 0xFC {
        Some((s[0] as u64, 1))
    } else {
        let width: nat = if s[0] == 0xFD { 2 } else if s[0] == 0xFE { 4 } else { 8 };
        let least: nat = if s[0] == 0xFD { 0xFD } else if s[0] == 0xFE { 0x1_0000 } else {
            0x1_0000_0000
        };
        if s.len() < 1 + width || le_nat(s.subrange(1, 1 + width as int)) < least {
            None
        } else {
            Some((le_nat(s.subrange(1, 1 + width as int)) as u64, 1 + width))
        }
    }
}

/// Reads an output from the front of `s`: eight bytes of value, the script's length, the script.
/// Of the length only as many bits are kept as an index has, and no more than
/// [`MAX_VEC_SIZE`] bytes are read in all.
pub open spec fn tx_out_decoding(s: Seq<u8>) -> Option<TxOutView> {
    if s.len() < 8 {
        None
    } else {
        match compact_size_decoding(s.skip(8)) {
            None => None,
            Some((n, width)) => {
                let end = 8 + width + (n as usize);
                if end > s.len() || end > MAX_VEC_SIZE {
                    None
                } else {
                    Some(
                        TxOutView {
                            value: le_nat(s.take(8)) as u64,
                            script_pubkey: s.subrange(8 + width as int, end as int),
                        },
                    )
                }
            },
        }
    }
}

/// The SHA-256 digest of the SHA-256 digest of `data`.
pub uninterp spec fn sha256d(data: Seq<u8>) -> Seq<u8>;

/// The error of reading a value of the `bitcoin` crate. Nothing is said of what it holds.
#[verifier::external_type_specification]
#[verifier::external_body]
pub struct ExEncodeError(bitcoin::consensus::encode::Error);

/// Calls `bitcoin::hashes::sha256d::Hash::hash`. Trusted: the digest is a function of the data,
/// named [`sha256d`], and has 32 bytes.
#[verifier::external_body]
pub(crate) fn sha256d_hash(data: &[u8]) -> (r: [u8; 32])
    ensures
        r@ == sha256d(data@),
{
    bitcoin::hashes::Hash::into_inner(
        <bitcoin::hashes::sha256d::Hash as bitcoin::hashes::Hash>::hash(data),
    )
}

/// Calls `TxOut::consensus_decode` of the `bitcoin` crate. Trusted: it reads an output from the
/// front of the bytes as [`tx_out_decoding`] says, and fails where that gives none.
#[verifier::external_body]
pub(crate) fn decode_tx_out(bytes: &[u8]) -> (r: Result<TxOut, bitcoin::consensus::encode::Error>)
    ensures
        match r {
            Ok(out) => tx_out_decoding(bytes@) == Some(out@),
            Err(_) => tx_out_decoding(bytes@) is None,
        },
{
    let out: bitcoin::TxOut = bitcoin::consensus::Decodable::consensus_decode(bytes)?;
    Ok(TxOut { value: out.value, script_pubkey: out.script_pubkey.into_bytes() })
}

/// Calls `Serialize::serialize` of the `bitcoin` crate on an output. Trusted: it writes the
/// output in the wire format.
#[verifier::external_body]
pub(crate) fn encode_tx_out(out: &TxOut) -> (r: Vec<u8>)
    ensures
        r@ == out@.encoding(),
{
    bitcoin::util::psbt::serialize::Serialize::serialize(
        &bitcoin::TxOut { value: out.value, script_pubkey: out.script_pubkey.clone().into() },
    )
}

/// What reading a transaction from all of `bytes` gives on a machine whose indices have
/// `index_bits` bits. The reader limits how much it allocates, and keeps of each length as many
/// bits as an index has: both depend on the machine.
pub uninterp spec fn transaction_decoding(bytes: Seq<u8>, index_bits: u32) -> Option<
    TransactionView,
>;

/// What is known of reading a transaction from all of `bytes` when it gives `r` on this machine:
/// more than [`MAX_VEC_SIZE`] bytes are refused; no more than [`ALWAYS_DECODED_LEN`] bytes that
/// are some transaction in the wire format give that transaction, and with more bytes behind it
/// they are refused; and where an index has 64 bits, whatever is read is the transaction whose
/// wire format the bytes are.
pub open spec fn decodes_to(bytes: Seq<u8>, r: Option<TransactionView>) -> bool {
    &&& bytes.len() > MAX_VEC_SIZE ==> r is None
    &&& forall|t: TransactionView|
        t.wf() && bytes == #[trigger] t.encoding() && bytes.len() <= ALWAYS_DECODED_LEN ==> r
            == Some(t)
    &&& forall|t: TransactionView|
        t.wf() && (#[trigger] t.encoding()).len() <= ALWAYS_DECODED_LEN && t.encoding().len()
            < bytes.len() && bytes.take(t.encoding().len() as int) == t.encoding() ==> r is None
    &&& usize::BITS == 64 ==> (r matches Some(t) ==> bytes == t.encoding())
}

/// Calls `Deserialize::deserialize` of the `bitcoin` crate for a transaction. Trusted: its
/// outcome is a function of the bytes and of the machine's index width, named
/// [`transaction_decoding`], of which [`decodes_to`] holds. Nothing is said of which longer byte
/// strings the limit on allocations refuses, nor of lengths beyond 32 bits on a machine with
/// 32-bit indices.
#[verifier::external_body]
pub(crate) fn decode_transaction(bytes: &[u8]) -> (r: Result<
    Transaction,
    bitcoin::consensus::encode::Error,
>)
    ensures
        match r {
            Ok(tx) => transaction_decoding(bytes@, usize::BITS) == Some(tx@),
            Err(_) => transaction_decoding(bytes@, usize::BITS) is None,
        },
        match r {
            Ok(tx) => decodes_to(bytes@, Some(tx@)),
            Err(_) => decodes_to(bytes@, None),
        },
{
    let tx: bitcoin::Transaction = bitcoin::util::psbt::serialize::Deserialize::deserialize(bytes)?;
    let input = tx.input.into_iter().map(|i| TxIn {
        previous_output: OutPoint {
            txid: bitcoin::hashes::Hash::into_inner(i.previous_output.txid),
            vout: i.previous_output.vout,
        },
        script_sig: i.script_sig.into_bytes(),
        sequence: i.sequence,
        witness: i.witness,
    }).collect();
    let output = tx.output.into_iter().map(|o| TxOut { value: o.value, script_pubkey: o.script_pubkey.into_bytes() }).collect();
    Ok(Transaction { version: tx.version, lock_time: tx.lock_time, input, output })
}

/// Calls `Serialize::serialize` of the `bitcoin` crate on a transaction. Trusted: it writes the
/// transaction in the wire format, with witnesses exactly where
/// [`TransactionView::is_segwit`] holds.
#[verifier::external_body]
pub(crate) fn encode_transaction(tx: &Transaction) -> (r: Vec<u8>)
    ensures
        r@ == tx@.encoding(),
{
    let input = tx.input.iter().map(|i| bitcoin::TxIn {
        previous_output: bitcoin::OutPoint {
            txid: bitcoin::hashes::Hash::from_inner(i.previous_output.txid),
            vout: i.previous_output.vout,
        },
        script_sig: i.script_sig.clone().into(),
        sequence: i.sequence,
        witness: i.witness.clone(),
    }).collect();
    let output = tx.output.iter().map(|o| bitcoin::TxOut { value: o.value, script_pubkey: o.script_pubkey.clone().into() }).collect();
    let tx = bitcoin::Transaction { version: tx.version, lock_time: tx.lock_time, input, output };
    bitcoin::util::psbt::serialize::Serialize::serialize(&tx)
}

/// Calls `Transaction::txid` of the `bitcoin` crate. Trusted: the id is the double SHA-256
/// digest of the transaction without its witnesses.
#[verifier::external_body]
pub(crate) fn transaction_txid(tx: &Transaction) -> (r: [u8; 32])
    ensures
        r@ == tx@.txid(),
{
    let input = tx.input.iter().map(|i| bitcoin::TxIn {
        previous_output: bitcoin::OutPoint {
            txid: bitcoin::hashes::Hash::from_inner(i.previous_output.txid),
            vout: i.previous_output.vout,
        },
        script_sig: i.script_sig.clone().into(),
        sequence: i.sequence,
        witness: i.witness.clone(),
    }).collect();
    let output = tx.output.iter().map(|o| bitcoin::TxOut { value: o.value, script_pubkey: o.script_pubkey.clone().into() }).collect();
    let tx = bitcoin::Transaction { version: tx.version, lock_time: tx.lock_time, input, output };
    bitcoin::hashes::Hash::into_inner(tx.txid())
}

} // verus!
