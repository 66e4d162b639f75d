//! Merkle roots from the coinbase transaction and the path of its siblings.

use crate::bytes::lemma_le_bytes_len;
use crate::coinbase::{is_job_of_template, job_coinbase, zeros};
use crate::coinbase_laws::{
    extranonce_fits_between, extranonce_fits_into_any_job, front_of_extranonce, has_short_counts,
    lemma_job_coinbase_wf, lemma_stripped_is_no_longer, lemma_with_extranonce_wf,
    stripped_job_covers_the_txid, stripped_parts_make_the_legacy_encoding, with_extranonce,
};
use crate::errors::RolesError;
use crate::messages::{
    B064K_MAX, NewExtendedMiningJob, NewExtendedMiningJobView, NewTemplate, NewTemplateView,
};
use crate::stripped_coinbase::{
    blank_coinbase, has_extranonce_room, is_non_segwit_job, stripped_input, stripped_view,
};
use crate::transaction::{
    decode_transaction, decodes_to, every_transaction_is_wf, inputs_encoding, sha256d, sha256d_hash,
    transaction_decoding, transaction_txid, ALWAYS_DECODED_LEN, Transaction, TransactionView,
    TxInView, TxOutView,
};
use crate::wire_format::left_over_bytes_are_refused;
use vstd::prelude::*;

verus! {

/// What can stand in a Merkle path: a value that is read as bytes.
pub trait PathNode {
    spec fn node(&self) -> Seq<u8>;

    fn as_bytes(&self) -> (r: &[u8])
        ensures
            r@ == self.node(),
    ;
}

impl PathNode for Vec<u8> {
    open spec fn node(&self) -> Seq<u8> {
        self@
    }

    fn as_bytes(&self) -> (r: &[u8]) {
        self.as_slice()
    }
}

impl PathNode for [u8; 32] {
    open spec fn node(&self) -> Seq<u8> {
        self@
    }

    fn as_bytes(&self) -> (r: &[u8]) {
        self.as_slice()
    }
}

/// The nodes of a path as bytes.
pub open spec fn nodes<T: PathNode>(path: Seq<T>) -> Seq<Seq<u8>> {
    path.map_values(|n: T| n.node())
}

/// The root that a path leads to from the leftmost leaf: at each level the digest so far stands
/// in front of the node of the path, and the two are hashed together.
pub open spec fn merkle_root(leaf: Seq<u8>, path: Seq<Seq<u8>>) -> Seq<u8>
    decreases path.len(),
{
    if path.len() == 0 {
        leaf
    } else {
        sha256d(merkle_root(leaf, path.drop_last()) + path.last())
    }
}

/// Whether `r` is the answer for a coinbase that is read as `decoded`: no root if it cannot be
/// read as a transaction, else the root over its transaction id.
pub open spec fn is_root_of(
    decoded: Option<TransactionView>,
    path: Seq<Seq<u8>>,
    r: Option<Vec<u8>>,
) -> bool {
    match decoded {
        Some(tx) => r matches Some(root) && root@ == merkle_root(tx.txid(), path),
        None => r is None,
    }
}

/// The root over a coinbase and a path.
///
/// The coinbase is `coinbase_tx_prefix`, `extranonce` and `coinbase_tx_suffix`, one behind the
/// other. There is no root if these bytes are not a transaction.
pub fn merkle_root_from_path<T: PathNode>(
    coinbase_tx_prefix: &[u8],
    coinbase_tx_suffix: &[u8],
    extranonce: &[u8],
    path: &[T],
) -> (r: Option<Vec<u8>>)
    ensures
        ({
            let bytes = coinbase_tx_prefix@ + extranonce@ + coinbase_tx_suffix@;
            let decoded = transaction_decoding(bytes, usize::BITS);
            &&& decodes_to(bytes, decoded)
            &&& decoded matches Some(tx) ==> tx.wf()
            &&& is_root_of(decoded, nodes(path@), r)
        }),
        match transaction_decoding(
            coinbase_tx_prefix@ + extranonce@ + coinbase_tx_suffix@,
            usize::BITS,
        ) {
            Some(tx) => r matches Some(root) && root@ == merkle_root(
                tx.txid(),
                path@.map_values(|n: T| n.node()),
            ),
            None => r is None,
        },
        r matches Some(root) ==> root@.len() == 32,
{
    let mut coinbase: Vec<u8> = Vec::new();
    coinbase.extend_from_slice(coinbase_tx_prefix);
    coinbase.extend_from_slice(extranonce);
    coinbase.extend_from_slice(coinbase_tx_suffix);
    assert(coinbase@ =~= coinbase_tx_prefix@ + extranonce@ + coinbase_tx_suffix@);
    match decode_transaction(coinbase.as_slice()) {
        Ok(tx) => {
            proof {
                every_transaction_is_wf(tx);
            }
            Some(merkle_root_of_coinbase(&tx, path))
        },
        Err(_) => None,
    }
}

/// The root over a coinbase transaction and a path.
pub fn merkle_root_of_coinbase<T: PathNode>(coinbase: &Transaction, path: &[T]) -> (r: Vec<u8>)
    ensures
        r@ == merkle_root(coinbase@.txid(), nodes(path@)),
        r@.len() == 32,
{
    let root = merkle_root_from_path_(transaction_txid(coinbase), path);
    vstd::slice::slice_to_vec(root.as_slice())
}

/// The root over a leaf and a path. An empty path leads to the leaf itself.
pub fn merkle_root_from_path_<T: PathNode>(coinbase_id: [u8; 32], path: &[T]) -> (r: [u8; 32])
    ensures
        r@ == merkle_root(coinbase_id@, nodes(path@)),
{
    if path.len() == 0 {
        coinbase_id
    } else {
        reduce_path(coinbase_id, path)
    }
}

/// Hashes the leaf with one node of the path after the other.
pub fn reduce_path<T: PathNode>(coinbase_id: [u8; 32], path: &[T]) -> (r: [u8; 32])
    ensures
        r@ == merkle_root(coinbase_id@, nodes(path@)),
{
    let ghost all = nodes(path@);
    let mut root = coinbase_id;
    let mut i: usize = 0;
    while i < path.len()
        invariant
            i <= path.len(),
            all == nodes(path@),
            root@ == merkle_root(coinbase_id@, all.take(i as int)),
        decreases path.len() - i,
    {
        let mut to_hash = vstd::slice::slice_to_vec(root.as_slice());
        to_hash.extend_from_slice(path[i].as_bytes());
        proof {
            let upto = all.take(i + 1);
            assert(upto.drop_last() =~= all.take(i as int));
            assert(to_hash@ =~= merkle_root(coinbase_id@, upto.drop_last()) + upto.last());
        }
        root = sha256d_hash(to_hash.as_slice());
        i += 1;
    }
    assert(all.take(all.len() as int) =~= all);
    root
}

/// What a root is: an empty path leads to the leaf, and each node of a path is hashed behind what
/// the nodes before it led to, in the order of the path.
pub proof fn root_is_hashed_node_by_node(leaf: Seq<u8>, path: Seq<Seq<u8>>, node: Seq<u8>)
    ensures
        merkle_root(leaf, Seq::empty()) == leaf,
        merkle_root(leaf, seq![node]) == sha256d(leaf + node),
        merkle_root(leaf, path.push(node)) == sha256d(merkle_root(leaf, path) + node),
        merkle_root(leaf, seq![node] + path) == merkle_root(sha256d(leaf + node), path),
{
    assert(seq![node].drop_last() =~= Seq::empty());
    assert(seq![node].drop_last() == Seq::<Seq<u8>>::empty());
    assert(path.push(node).drop_last() =~= path);
    path_in_two_parts(leaf, seq![node], path);
}

/// The nodes of a path are the bytes that it holds, in their order.
pub proof fn nodes_are_the_bytes_of_the_path(vectors: Seq<Vec<u8>>, arrays: Seq<[u8; 32]>)
    ensures
        nodes(vectors).len() == vectors.len(),
        forall|i: int| #![trigger nodes(vectors)[i]]
            0 <= i < vectors.len() ==> nodes(vectors)[i] == vectors[i]@,
        nodes(arrays).len() == arrays.len(),
        forall|i: int| #![trigger nodes(arrays)[i]]
            0 <= i < arrays.len() ==> nodes(arrays)[i] == arrays[i]@,
{
}

/// There is a root exactly if the coinbase is read as a transaction, and it is the one over the
/// transaction id.
pub proof fn root_is_over_the_transaction_id(
    decoded: Option<TransactionView>,
    path: Seq<Seq<u8>>,
    r: Option<Vec<u8>>,
)
    requires
        is_root_of(decoded, path, r),
    ensures
        r is Some <==> decoded is Some,
        r matches Some(root) ==> root@ == merkle_root(sha256d(decoded->0.legacy_encoding()), path),
{
}

/// A path can be followed in two parts.
pub proof fn path_in_two_parts(leaf: Seq<u8>, low: Seq<Seq<u8>>, high: Seq<Seq<u8>>)
    ensures
        merkle_root(leaf, low + high) == merkle_root(merkle_root(leaf, low), high),
    decreases high.len(),
{
    if high.len() == 0 {
        assert(low + high =~= low);
    } else {
        assert((low + high).drop_last() =~= low + high.drop_last());
        path_in_two_parts(leaf, low, high.drop_last());
    }
}

/// A coinbase with more bytes behind it has no root.
pub proof fn left_over_bytes_have_no_root(
    tx: TransactionView,
    rest: Seq<u8>,
    path: Seq<Seq<u8>>,
    decoded: Option<TransactionView>,
    r: Option<Vec<u8>>,
)
    requires
        tx.wf(),
        rest.len() > 0,
        usize::BITS == 64 || tx.encoding().len() <= ALWAYS_DECODED_LEN,
        decodes_to(tx.encoding() + rest, decoded),
        decoded matches Some(t) ==> t.wf(),
        is_root_of(decoded, path, r),
    ensures
        r is None,
{
    left_over_bytes_are_refused(tx, rest, decoded);
}

/// A transaction with an input is written without witnesses once they are taken out.
proof fn lemma_stripped_encoding(tx: TransactionView)
    requires
        tx.wf(),
        tx.input.len() > 0,
    ensures
        tx.stripped().wf(),
        tx.stripped().encoding() == tx.legacy_encoding(),
        tx.stripped().txid() == tx.txid(),
{
    let s = tx.stripped();
    assert forall|i: int| 0 <= i < s.input.len() implies (#[trigger] s.input[i]).wf()
        && s.input[i].witness.len() == 0 by {
        assert(tx.input[i].wf());
    }
    let f = |i: TxInView| i.encoding();
    assert(s.input.map_values(f) =~= tx.input.map_values(f));
    assert(inputs_encoding(s.input) == inputs_encoding(tx.input));
    assert(!s.is_segwit());
}

/// The root that a miner computes from the two parts of a stripped coinbase is the root over the
/// transaction id of the coinbase itself, with the miner's extranonce in it.
pub proof fn stripped_coinbase_has_the_same_root(
    tx: TransactionView,
    extranonce: Seq<u8>,
    path: Seq<Seq<u8>>,
    decoded: Option<TransactionView>,
    r: Option<Vec<u8>>,
)
    requires
        tx.wf(),
        tx.input.len() > 0,
        has_short_counts(tx),
        has_extranonce_room(tx, extranonce.len()),
        stripped_view(tx, extranonce.len()).prefix().len() <= B064K_MAX,
        stripped_view(tx, extranonce.len()).suffix().len() <= B064K_MAX,
        decodes_to(
            stripped_view(tx, extranonce.len()).prefix() + extranonce + stripped_view(
                tx,
                extranonce.len(),
            ).suffix(),
            decoded,
        ),
        is_root_of(decoded, path, r),
    ensures
        r matches Some(root) && root@ == merkle_root(with_extranonce(tx, extranonce).txid(), path),
{
    let full = with_extranonce(tx, extranonce);
    stripped_parts_make_the_legacy_encoding(tx, extranonce);
    lemma_with_extranonce_wf(tx, extranonce);
    assert(tx.input.last().script_sig.len() <= 252);
    lemma_stripped_encoding(full);
    assert(decoded == Some(full.stripped()));
}

/// The root that is computed from the two parts of a job and an extranonce is the root over the
/// transaction id of the job's coinbase with that extranonce.
pub proof fn job_has_the_root_of_its_coinbase(
    template: NewTemplateView,
    outputs: Seq<TxOutView>,
    job_id: u32,
    version_rolling_allowed: bool,
    extranonce_len: u8,
    job: Result<NewExtendedMiningJob, RolesError>,
    extranonce: Seq<u8>,
    path: Seq<Seq<u8>>,
    decoded: Option<TransactionView>,
    r: Option<Vec<u8>>,
)
    requires
        forall|i: int| 0 <= i < outputs.len() ==> (#[trigger] outputs[i]).wf(),
        outputs.len() <= u64::MAX,
        template.coinbase_prefix.len() + extranonce_len <= 252,
        is_job_of_template(
            template,
            outputs,
            job_id,
            version_rolling_allowed,
            extranonce_len,
            job,
        ),
        job is Ok,
        extranonce.len() == extranonce_len,
        decodes_to(
            job->Ok_0@.coinbase_tx_prefix + extranonce + job->Ok_0@.coinbase_tx_suffix,
            decoded,
        ),
        is_root_of(decoded, path, r),
    ensures
        r matches Some(root) && root@ == merkle_root(
            job_coinbase(template, outputs, extranonce).txid(),
            path,
        ),
{
    extranonce_fits_between(template, outputs, extranonce_len, extranonce);
    let full = job_coinbase(template, outputs, extranonce);
    lemma_job_coinbase_wf(template, outputs, extranonce);
    assert(decoded == Some(full));
}

/// From a template to the root of the block: a job is made of the template and then stripped.
/// Whatever extranonce the miner puts between the two parts, the root that is computed from them
/// is the root over the transaction id of the job's coinbase with that extranonce.
pub proof fn stripped_job_has_the_same_root(
    template: NewTemplateView,
    outputs: Seq<TxOutView>,
    job_id: u32,
    version_rolling_allowed: bool,
    extranonce_len: u8,
    job: Result<NewExtendedMiningJob, RolesError>,
    blank: Option<TransactionView>,
    stripped: Result<NewExtendedMiningJob, RolesError>,
    extranonce: Seq<u8>,
    path: Seq<Seq<u8>>,
    decoded: Option<TransactionView>,
    r: Option<Vec<u8>>,
)
    requires
        forall|i: int| 0 <= i < outputs.len() ==> (#[trigger] outputs[i]).wf(),
        outputs.len() <= 252,
        template.coinbase_prefix.len() + extranonce_len <= 252,
        is_job_of_template(
            template,
            outputs,
            job_id,
            version_rolling_allowed,
            extranonce_len,
            job,
        ),
        job is Ok,
        decodes_to(blank_coinbase(job->Ok_0@, extranonce_len as nat), blank),
        blank is Some,
        is_non_segwit_job(job->Ok_0@, blank->0, extranonce_len as nat, stripped),
        extranonce.len() == extranonce_len,
        stripped is Ok ==> decodes_to(
            stripped->Ok_0@.coinbase_tx_prefix + extranonce + stripped->Ok_0@.coinbase_tx_suffix,
            decoded,
        ),
        is_root_of(decoded, path, r),
    ensures
        r matches Some(root) && root@ == merkle_root(
            job_coinbase(template, outputs, extranonce).txid(),
            path,
        ),
{
    stripped_job_covers_the_txid(
        template,
        outputs,
        job_id,
        version_rolling_allowed,
        extranonce_len,
        job,
        blank,
        stripped,
        extranonce,
    );
    let full = job_coinbase(template, outputs, extranonce);
    lemma_job_coinbase_wf(template, outputs, extranonce);
    lemma_stripped_encoding(full);
    assert(stripped->Ok_0@.coinbase_tx_prefix.len() <= B064K_MAX);
    assert(stripped->Ok_0@.coinbase_tx_suffix.len() <= B064K_MAX);
    assert(decoded == Some(full.stripped()));
}

/// A job that is stripped keeps its root, wherever the job came from: whatever extranonce the
/// miner puts between the two parts, the parts of the stripped job lead to the same root as those
/// of the job itself. The job's parts are cut where the last input's script has its extranonce,
/// and counts and script lengths take one byte each.
pub proof fn any_stripped_job_has_the_same_root(
    job: NewExtendedMiningJobView,
    blank: TransactionView,
    stripped: Result<NewExtendedMiningJob, RolesError>,
    extranonce: Seq<u8>,
    path: Seq<Seq<u8>>,
    own: Option<TransactionView>,
    own_root: Option<Vec<u8>>,
    decoded: Option<TransactionView>,
    r: Option<Vec<u8>>,
)
    requires
        job.coinbase_tx_prefix.len() <= B064K_MAX,
        job.coinbase_tx_suffix.len() <= B064K_MAX,
        decodes_to(blank_coinbase(job, extranonce.len()), Some(blank)),
        usize::BITS != 64 ==> blank_coinbase(job, extranonce.len()) == blank.encoding(),
        blank.wf(),
        blank.input.len() > 0,
        has_short_counts(blank),
        has_extranonce_room(blank, extranonce.len()),
        job.coinbase_tx_prefix.len() == front_of_extranonce(blank, extranonce.len()).len(),
        is_non_segwit_job(job, blank, extranonce.len(), stripped),
        decodes_to(job.coinbase_tx_prefix + extranonce + job.coinbase_tx_suffix, own),
        is_root_of(own, path, own_root),
        stripped is Ok ==> decodes_to(
            stripped->Ok_0@.coinbase_tx_prefix + extranonce + stripped->Ok_0@.coinbase_tx_suffix,
            decoded,
        ),
        is_root_of(decoded, path, r),
    ensures
        stripped is Ok,
        own_root matches Some(a) && r matches Some(b) && a@ == b@,
{
    let full = with_extranonce(blank, extranonce);
    extranonce_fits_into_any_job(job, blank, extranonce);
    lemma_stripped_is_no_longer(blank, extranonce.len());
    stripped_coinbase_has_the_same_root(blank, extranonce, path, decoded, r);
    lemma_with_extranonce_wf(blank, extranonce);
    assert(blank.input.last().script_sig.len() <= 252);
    assert(own == Some(full));
}

/// A job that is stripped keeps its root, as each of the two jobs has it: the parts of the stripped
/// job with the stripped job's own path lead to the same root as the parts of the job with the
/// job's own path, whatever extranonce stands between them.
pub proof fn stripped_job_keeps_its_own_root(
    job: NewExtendedMiningJob,
    blank: TransactionView,
    stripped: Result<NewExtendedMiningJob, RolesError>,
    extranonce: Seq<u8>,
    own: Option<TransactionView>,
    own_root: Option<Vec<u8>>,
    decoded: Option<TransactionView>,
    r: Option<Vec<u8>>,
)
    requires
        job.coinbase_tx_prefix@.len() <= 65535,
        job.coinbase_tx_suffix@.len() <= 65535,
        decodes_to(blank_coinbase(job@, extranonce.len()), Some(blank)),
        usize::BITS != 64 ==> blank_coinbase(job@, extranonce.len()) == blank.encoding(),
        blank.wf(),
        0 < blank.input.len() <= 252,
        blank.output.len() <= 252,
        forall|i: int|
            0 <= i < blank.input.len() ==> (#[trigger] blank.input[i]).script_sig.len() <= 252,
        extranonce.len() <= blank.input.last().script_sig.len(),
        job.coinbase_tx_prefix@.len() == front_of_extranonce(blank, extranonce.len()).len(),
        is_non_segwit_job(job@, blank, extranonce.len(), stripped),
        decodes_to(job.coinbase_tx_prefix@ + extranonce + job.coinbase_tx_suffix@, own),
        is_root_of(own, nodes(job.merkle_path@), own_root),
        stripped matches Ok(j) ==> decodes_to(
            j.coinbase_tx_prefix@ + extranonce + j.coinbase_tx_suffix@,
            decoded,
        ) && is_root_of(decoded, nodes(j.merkle_path@), r),
    ensures
        stripped is Ok,
        own_root matches Some(a) && r matches Some(b) && a@ == b@,
{
    extranonce_fits_into_any_job(job@, blank, extranonce);
    lemma_stripped_is_no_longer(blank, extranonce.len());
    any_stripped_job_has_the_same_root(
        job@,
        blank,
        stripped,
        extranonce,
        nodes(job.merkle_path@),
        own,
        own_root,
        decoded,
        r,
    );
}

/// From a template to the root of the block, over the template's own Merkle path: a job is made of
/// the template, and stripped. The parts of the stripped job with that job's own path, and whatever
/// extranonce between them, lead to the root over the transaction id of the job's coinbase and the
/// template's path.
pub proof fn stripped_job_has_the_root_of_its_template(
    template: NewTemplate,
    outputs: Seq<TxOutView>,
    job_id: u32,
    version_rolling_allowed: bool,
    extranonce_len: u8,
    job: Result<NewExtendedMiningJob, RolesError>,
    blank: Option<TransactionView>,
    stripped: Result<NewExtendedMiningJob, RolesError>,
    extranonce: Seq<u8>,
    decoded: Option<TransactionView>,
    r: Option<Vec<u8>>,
)
    requires
        forall|i: int| 0 <= i < outputs.len() ==> (#[trigger] outputs[i]).wf(),
        outputs.len() <= 252,
        template.coinbase_prefix@.len() + extranonce_len <= 252,
        is_job_of_template(
            template@,
            outputs,
            job_id,
            version_rolling_allowed,
            extranonce_len,
            job,
        ),
        job is Ok,
        decodes_to(blank_coinbase(job->Ok_0@, extranonce_len as nat), blank),
        blank is Some,
        is_non_segwit_job(job->Ok_0@, blank->0, extranonce_len as nat, stripped),
        extranonce.len() == extranonce_len,
        stripped matches Ok(j) ==> decodes_to(
            j.coinbase_tx_prefix@ + extranonce + j.coinbase_tx_suffix@,
            decoded,
        ) && is_root_of(decoded, nodes(j.merkle_path@), r),
    ensures
        stripped is Ok,
        r matches Some(root) && root@ == merkle_root(
            job_coinbase(template@, outputs, extranonce).txid(),
            template.merkle_path@.map_values(|n: [u8; 32]| n@),
        ),
{
    stripped_job_covers_the_txid(
        template@,
        outputs,
        job_id,
        version_rolling_allowed,
        extranonce_len,
        job,
        blank,
        stripped,
        extranonce,
    );
    stripped_job_has_the_same_root(
        template@,
        outputs,
        job_id,
        version_rolling_allowed,
        extranonce_len,
        job,
        blank,
        stripped,
        extranonce,
        nodes(stripped->Ok_0.merkle_path@),
        decoded,
        r,
    );
    assert(stripped->Ok_0.merkle_path@ == template.merkle_path@);
    assert(nodes(template.merkle_path@) =~= template.merkle_path@.map_values(|n: [u8; 32]| n@));
}

/// What the stripped parts of a transaction are does not depend on its extranonce or on its
/// witnesses.
proof fn lemma_stripped_parts_stay(tx: TransactionView, extranonce: Seq<u8>)
    requires
        tx.wf(),
        tx.input.len() > 0,
        has_extranonce_room(tx, extranonce.len()),
    ensures
        ({
            let t = with_extranonce(tx, extranonce).stripped();
            let (s, again) = (
                stripped_view(tx, extranonce.len()),
                stripped_view(t, extranonce.len()),
            );
            &&& again.prefix() == s.prefix()
            &&& again.suffix() == s.suffix()
        }),
{
    let n = extranonce.len();
    let t = with_extranonce(tx, extranonce).stripped();
    let (s, again) = (stripped_view(tx, n), stripped_view(t, n));
    let (old_last, new_last) = (tx.input.last(), t.input.last());
    let k = old_last.script_sig.len() - n;
    assert(tx.input.last().wf());
    lemma_le_bytes_len(old_last.vout as nat, 4);
    lemma_le_bytes_len(old_last.sequence as nat, 4);
    assert(again.inputs.drop_last() =~= s.inputs.drop_last());
    assert(s.inputs.last() == stripped_input(old_last));
    assert(again.inputs.last() == stripped_input(new_last));
    assert(again.inputs.last().take(32 + 4 + 1 + k) =~= s.inputs.last().take(32 + 4 + 1 + k));
    assert(again.inputs.last().skip(again.inputs.last().len() - 4) =~= s.inputs.last().skip(
        s.inputs.last().len() - 4,
    ));
    assert(again.outputs =~= s.outputs);
}

/// Stripping a job that is stripped already changes nothing.
pub proof fn stripping_twice_is_stripping_once(
    job: NewExtendedMiningJobView,
    tx: TransactionView,
    full_extranonce_len: nat,
    once: Result<NewExtendedMiningJob, RolesError>,
    decoded: Option<TransactionView>,
    twice: Result<NewExtendedMiningJob, RolesError>,
)
    requires
        tx.wf(),
        has_short_counts(tx),
        has_extranonce_room(tx, full_extranonce_len),
        is_non_segwit_job(job, tx, full_extranonce_len, once),
        once is Ok,
        decodes_to(blank_coinbase(once->Ok_0@, full_extranonce_len), decoded),
        decoded matches Some(t) ==> is_non_segwit_job(
            once->Ok_0@,
            t,
            full_extranonce_len,
            twice,
        ),
    ensures
        decoded matches Some(t) && has_extranonce_room(t, full_extranonce_len),
        twice matches Ok(j) && j@ == once->Ok_0@,
{
    let blank = zeros(full_extranonce_len);
    let full = with_extranonce(tx, blank);
    assert(tx.input.last().script_sig.len() <= 252);
    stripped_parts_make_the_legacy_encoding(tx, blank);
    lemma_with_extranonce_wf(tx, blank);
    lemma_stripped_encoding(full);
    assert(decoded == Some(full.stripped()));
    lemma_stripped_parts_stay(tx, blank);
}

} // verus!
