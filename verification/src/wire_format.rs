//! Laws of the transaction wire format: how long its parts are, and that a transaction can be
//! told from any other and from what follows it.

use crate::bytes::{i32_bits, le_bytes, lemma_le_bytes_len, lemma_le_nat_of_le_bytes};
use crate::transaction::{
    compact_size, decodes_to, inputs_encoding, outputs_encoding, tx_out_decoding, var_bytes,
    witness_encoding, witnesses_encoding, ALWAYS_DECODED_LEN, MAX_VEC_SIZE, TransactionView,
    TxInView, TxOutView,
};
use vstd::prelude::*;

verus! {

/// Cutting two equal strings at one place gives equal parts.
proof fn lemma_split(a: Seq<u8>, x: Seq<u8>, b: Seq<u8>, y: Seq<u8>)
    requires
        a + x == b + y,
        a.len() == b.len(),
    ensures
        a == b,
        x == y,
{
    assert(a =~= (a + x).take(a.len() as int));
    assert(b =~= (b + y).take(b.len() as int));
    assert(x =~= (a + x).skip(a.len() as int));
    assert(y =~= (b + y).skip(b.len() as int));
}

/// A number of fixed width is determined by its bytes.
proof fn lemma_le_bytes_delimits(m: nat, n: nat, width: nat, x: Seq<u8>, y: Seq<u8>)
    requires
        m < vstd::arithmetic::power2::pow2(8 * width),
        n < vstd::arithmetic::power2::pow2(8 * width),
        le_bytes(m, width) + x == le_bytes(n, width) + y,
    ensures
        m == n,
        x == y,
{
    lemma_le_bytes_len(m, width);
    lemma_le_bytes_len(n, width);
    lemma_split(le_bytes(m, width), x, le_bytes(n, width), y);
    lemma_le_nat_of_le_bytes(m, width);
    lemma_le_nat_of_le_bytes(n, width);
}

pub proof fn lemma_compact_size_len(n: nat)
    ensures
        compact_size(n).len() == (if n <= 0xFC { 1nat } else if n <= 0xFFFF { 3 } else if n
            <= 0xFFFF_FFFF { 5 } else { 9 }),
{
    lemma_le_bytes_len(n, 2);
    lemma_le_bytes_len(n, 4);
    lemma_le_bytes_len(n, 8);
}

/// A length in the wire format tells where it ends.
proof fn lemma_compact_size_delimits(m: nat, n: nat, x: Seq<u8>, y: Seq<u8>)
    requires
        m <= u64::MAX,
        n <= u64::MAX,
        compact_size(m) + x == compact_size(n) + y,
    ensures
        m == n,
        x == y,
{
    vstd::arithmetic::power2::lemma2_to64();
    vstd::arithmetic::power2::lemma2_to64_rest();
    lemma_compact_size_len(m);
    lemma_compact_size_len(n);
    let a = compact_size(m) + x;
    assert(a[0] == compact_size(m)[0]);
    assert(a[0] == compact_size(n)[0]);
    lemma_split(compact_size(m), x, compact_size(n), y);
    if m > 0xFC {
        let width: nat = if m <= 0xFFFF { 2 } else if m <= 0xFFFF_FFFF { 4 } else { 8 };
        assert(compact_size(m).skip(1) =~= le_bytes(m, width));
        assert(compact_size(n).skip(1) =~= le_bytes(n, width));
        lemma_le_nat_of_le_bytes(m, width);
        lemma_le_nat_of_le_bytes(n, width);
    }
}

proof fn lemma_var_bytes_delimits(a: Seq<u8>, b: Seq<u8>, x: Seq<u8>, y: Seq<u8>)
    requires
        a.len() <= u64::MAX,
        b.len() <= u64::MAX,
        var_bytes(a) + x == var_bytes(b) + y,
    ensures
        a == b,
        x == y,
{
    assert(var_bytes(a) + x =~= compact_size(a.len()) + (a + x));
    assert(var_bytes(b) + y =~= compact_size(b.len()) + (b + y));
    lemma_compact_size_delimits(a.len(), b.len(), a + x, b + y);
    lemma_split(a, x, b, y);
}

proof fn lemma_tx_out_delimits(a: TxOutView, b: TxOutView, x: Seq<u8>, y: Seq<u8>)
    requires
        a.wf(),
        b.wf(),
        a.encoding() + x == b.encoding() + y,
    ensures
        a == b,
        x == y,
{
    vstd::arithmetic::power2::lemma2_to64();
    let a2 = var_bytes(a.script_pubkey) + x;
    let b2 = var_bytes(b.script_pubkey) + y;
    assert(a.encoding() + x =~= le_bytes(a.value as nat, 8) + a2);
    assert(b.encoding() + y =~= le_bytes(b.value as nat, 8) + b2);
    lemma_le_bytes_delimits(a.value as nat, b.value as nat, 8, a2, b2);
    lemma_var_bytes_delimits(a.script_pubkey, b.script_pubkey, x, y);
}

proof fn lemma_tx_in_delimits(a: TxInView, b: TxInView, x: Seq<u8>, y: Seq<u8>)
    requires
        a.wf(),
        b.wf(),
        a.encoding() + x == b.encoding() + y,
    ensures
        a.stripped() == b.stripped(),
        x == y,
{
    vstd::arithmetic::power2::lemma2_to64();
    let a4 = le_bytes(a.sequence as nat, 4) + x;
    let b4 = le_bytes(b.sequence as nat, 4) + y;
    let a3 = var_bytes(a.script_sig) + a4;
    let b3 = var_bytes(b.script_sig) + b4;
    let a2 = le_bytes(a.vout as nat, 4) + a3;
    let b2 = le_bytes(b.vout as nat, 4) + b3;
    assert(a.encoding() + x =~= a.txid + a2);
    assert(b.encoding() + y =~= b.txid + b2);
    lemma_split(a.txid, a2, b.txid, b2);
    lemma_le_bytes_delimits(a.vout as nat, b.vout as nat, 4, a3, b3);
    lemma_var_bytes_delimits(a.script_sig, b.script_sig, a4, b4);
    lemma_le_bytes_delimits(a.sequence as nat, b.sequence as nat, 4, x, y);
}

/// An output that stands in front of other bytes is read back.
pub proof fn tx_out_is_read_back(out: TxOutView, rest: Seq<u8>)
    requires
        out.encoding().len() <= MAX_VEC_SIZE,
    ensures
        tx_out_decoding(out.encoding() + rest) == Some(out),
{
    vstd::arithmetic::power2::lemma2_to64();
    let n = out.script_pubkey.len();
    let s = out.encoding() + rest;
    lemma_le_bytes_len(out.value as nat, 8);
    lemma_compact_size_len(n);
    lemma_le_nat_of_le_bytes(out.value as nat, 8);
    assert(s.take(8) =~= le_bytes(out.value as nat, 8));
    let tail = s.skip(8);
    assert(tail =~= compact_size(n) + (out.script_pubkey + rest));
    assert(tail[0] == compact_size(n)[0]);
    if n > 0xFC {
        let width: nat = if n <= 0xFFFF { 2 } else { 4 };
        lemma_le_bytes_len(n, width);
        lemma_le_nat_of_le_bytes(n, width);
        assert(tail.subrange(1, 1 + width as int) =~= le_bytes(n, width));
    }
    let k = compact_size(n).len() as int;
    assert(s.subrange(8 + k, 8 + k + n) =~= out.script_pubkey);
}

/// The first of several strings, joined, is in front of the others.
proof fn lemma_flatten_first(s: Seq<Seq<u8>>, x: Seq<u8>)
    requires
        s.len() > 0,
    ensures
        s.flatten() + x == s[0] + (s.drop_first().flatten() + x),
{
    assert(s.flatten() + x =~= s[0] + (s.drop_first().flatten() + x));
}

proof fn lemma_tx_outs_delimit(a: Seq<TxOutView>, b: Seq<TxOutView>, x: Seq<u8>, y: Seq<u8>)
    requires
        a.len() == b.len(),
        forall|i: int| 0 <= i < a.len() ==> (#[trigger] a[i]).wf(),
        forall|i: int| 0 <= i < b.len() ==> (#[trigger] b[i]).wf(),
        a.map_values(|o: TxOutView| o.encoding()).flatten() + x == b.map_values(
            |o: TxOutView| o.encoding(),
        ).flatten() + y,
    ensures
        a == b,
        x == y,
    decreases a.len(),
{
    let f = |o: TxOutView| o.encoding();
    let (ea, eb) = (a.map_values(f), b.map_values(f));
    if a.len() == 0 {
        assert(ea.flatten() + x =~= x);
        assert(eb.flatten() + y =~= y);
        assert(a =~= b);
    } else {
        lemma_flatten_first(ea, x);
        lemma_flatten_first(eb, y);
        let (ra, rb) = (a.drop_first(), b.drop_first());
        assert(ea.drop_first() =~= ra.map_values(f));
        assert(eb.drop_first() =~= rb.map_values(f));
        lemma_tx_out_delimits(
            a[0],
            b[0],
            ra.map_values(f).flatten() + x,
            rb.map_values(f).flatten() + y,
        );
        lemma_tx_outs_delimit(ra, rb, x, y);
        assert(a =~= seq![a[0]] + ra);
        assert(b =~= seq![b[0]] + rb);
    }
}

proof fn lemma_tx_ins_delimit(a: Seq<TxInView>, b: Seq<TxInView>, x: Seq<u8>, y: Seq<u8>)
    requires
        a.len() == b.len(),
        forall|i: int| 0 <= i < a.len() ==> (#[trigger] a[i]).wf(),
        forall|i: int| 0 <= i < b.len() ==> (#[trigger] b[i]).wf(),
        a.map_values(|o: TxInView| o.encoding()).flatten() + x == b.map_values(
            |o: TxInView| o.encoding(),
        ).flatten() + y,
    ensures
        forall|i: int| 0 <= i < a.len() ==> (#[trigger] a[i]).stripped() == b[i].stripped(),
        x == y,
    decreases a.len(),
{
    let f = |o: TxInView| o.encoding();
    let (ea, eb) = (a.map_values(f), b.map_values(f));
    if a.len() == 0 {
        assert(ea.flatten() + x =~= x);
        assert(eb.flatten() + y =~= y);
    } else {
        lemma_flatten_first(ea, x);
        lemma_flatten_first(eb, y);
        let (ra, rb) = (a.drop_first(), b.drop_first());
        assert(ea.drop_first() =~= ra.map_values(f));
        assert(eb.drop_first() =~= rb.map_values(f));
        lemma_tx_in_delimits(
            a[0],
            b[0],
            ra.map_values(f).flatten() + x,
            rb.map_values(f).flatten() + y,
        );
        lemma_tx_ins_delimit(ra, rb, x, y);
        assert forall|i: int| 0 <= i < a.len() implies (#[trigger] a[i]).stripped()
            == b[i].stripped() by {
            if i > 0 {
                assert(ra[i - 1].stripped() == rb[i - 1].stripped());
            }
        }
    }
}

proof fn lemma_byte_strings_delimit(a: Seq<Seq<u8>>, b: Seq<Seq<u8>>, x: Seq<u8>, y: Seq<u8>)
    requires
        a.len() == b.len(),
        forall|i: int| 0 <= i < a.len() ==> (#[trigger] a[i]).len() <= u64::MAX,
        forall|i: int| 0 <= i < b.len() ==> (#[trigger] b[i]).len() <= u64::MAX,
        a.map_values(|o: Seq<u8>| var_bytes(o)).flatten() + x == b.map_values(
            |o: Seq<u8>| var_bytes(o),
        ).flatten() + y,
    ensures
        a == b,
        x == y,
    decreases a.len(),
{
    let f = |o: Seq<u8>| var_bytes(o);
    let (ea, eb) = (a.map_values(f), b.map_values(f));
    if a.len() == 0 {
        assert(ea.flatten() + x =~= x);
        assert(eb.flatten() + y =~= y);
        assert(a =~= b);
    } else {
        lemma_flatten_first(ea, x);
        lemma_flatten_first(eb, y);
        let (ra, rb) = (a.drop_first(), b.drop_first());
        assert(ea.drop_first() =~= ra.map_values(f));
        assert(eb.drop_first() =~= rb.map_values(f));
        lemma_var_bytes_delimits(
            a[0],
            b[0],
            ra.map_values(f).flatten() + x,
            rb.map_values(f).flatten() + y,
        );
        lemma_byte_strings_delimit(ra, rb, x, y);
        assert(a =~= seq![a[0]] + ra);
        assert(b =~= seq![b[0]] + rb);
    }
}

proof fn lemma_witnesses_delimit(a: Seq<TxInView>, b: Seq<TxInView>, x: Seq<u8>, y: Seq<u8>)
    requires
        a.len() == b.len(),
        forall|i: int| 0 <= i < a.len() ==> (#[trigger] a[i]).wf(),
        forall|i: int| 0 <= i < b.len() ==> (#[trigger] b[i]).wf(),
        witnesses_encoding(a) + x == witnesses_encoding(b) + y,
    ensures
        forall|i: int| 0 <= i < a.len() ==> (#[trigger] a[i]).witness == b[i].witness,
        x == y,
    decreases a.len(),
{
    let f = |i: TxInView| witness_encoding(i.witness);
    let (ea, eb) = (a.map_values(f), b.map_values(f));
    if a.len() == 0 {
        assert(ea.flatten() + x =~= x);
        assert(eb.flatten() + y =~= y);
    } else {
        lemma_flatten_first(ea, x);
        lemma_flatten_first(eb, y);
        let (ra, rb) = (a.drop_first(), b.drop_first());
        assert(ea.drop_first() =~= ra.map_values(f));
        assert(eb.drop_first() =~= rb.map_values(f));
        let (xa, yb) = (witnesses_encoding(ra) + x, witnesses_encoding(rb) + y);
        let g = |o: Seq<u8>| var_bytes(o);
        let (wa, wb) = (a[0].witness, b[0].witness);
        let (fa, fb) = (wa.map_values(g).flatten() + xa, wb.map_values(g).flatten() + yb);
        assert(witness_encoding(wa) + xa =~= compact_size(wa.len()) + fa);
        assert(witness_encoding(wb) + yb =~= compact_size(wb.len()) + fb);
        lemma_compact_size_delimits(wa.len(), wb.len(), fa, fb);
        lemma_byte_strings_delimit(wa, wb, xa, yb);
        lemma_witnesses_delimit(ra, rb, x, y);
        assert forall|i: int| 0 <= i < a.len() implies (#[trigger] a[i]).witness
            == b[i].witness by {
            if i > 0 {
                assert(ra[i - 1].witness == rb[i - 1].witness);
            }
        }
    }
}

proof fn lemma_i32_bits(v: i32, w: i32)
    ensures
        i32_bits(v) < 0x1_0000_0000,
        i32_bits(v) == i32_bits(w) ==> v == w,
{
}

/// The witnesses, where they are written.
spec fn body_witnesses(t: TransactionView, segwit: bool) -> Seq<u8> {
    if segwit {
        witnesses_encoding(t.input)
    } else {
        Seq::empty()
    }
}

/// What follows the version, and the marker where there is one.
spec fn body(t: TransactionView, segwit: bool) -> Seq<u8> {
    inputs_encoding(t.input) + (outputs_encoding(t.output) + (body_witnesses(t, segwit) + le_bytes(
        t.lock_time as nat,
        4,
    )))
}

proof fn lemma_body(t: TransactionView)
    ensures
        t.encoding() == le_bytes(i32_bits(t.version), 4) + (if t.is_segwit() {
            seq![0u8, 1u8] + body(t, true)
        } else {
            body(t, false)
        }),
{
    if t.is_segwit() {
        assert(t.segwit_encoding() =~= le_bytes(i32_bits(t.version), 4) + (seq![0u8, 1u8] + body(
            t,
            true,
        )));
    } else {
        assert(t.legacy_encoding() =~= le_bytes(i32_bits(t.version), 4) + body(t, false));
    }
}

/// The byte after the version tells which of the two formats is used.
proof fn lemma_body_starts(t: TransactionView)
    requires
        t.wf(),
    ensures
        body(t, false).len() > 0,
        t.input.len() > 0 ==> body(t, false)[0] != 0,
{
    lemma_compact_size_len(t.input.len());
    let c = compact_size(t.input.len());
    assert(inputs_encoding(t.input)[0] == c[0]);
    assert(body(t, false)[0] == inputs_encoding(t.input)[0]);
}

proof fn lemma_body_delimits(
    a: TransactionView,
    b: TransactionView,
    segwit: bool,
    x: Seq<u8>,
    y: Seq<u8>,
)
    requires
        a.wf(),
        b.wf(),
        body(a, segwit) + x == body(b, segwit) + y,
    ensures
        a.input.len() == b.input.len(),
        forall|i: int|
            0 <= i < a.input.len() ==> (#[trigger] a.input[i]).stripped() == b.input[i].stripped(),
        segwit ==> forall|i: int|
            0 <= i < a.input.len() ==> (#[trigger] a.input[i]).witness == b.input[i].witness,
        a.output == b.output,
        a.lock_time == b.lock_time,
        x == y,
{
    vstd::arithmetic::power2::lemma2_to64();
    let fi = |i: TxInView| i.encoding();
    let fo = |o: TxOutView| o.encoding();
    let (la, lb) = (le_bytes(a.lock_time as nat, 4) + x, le_bytes(b.lock_time as nat, 4) + y);
    let (wa, wb) = (body_witnesses(a, segwit), body_witnesses(b, segwit));
    let (ga, gb) = (a.output.map_values(fo).flatten(), b.output.map_values(fo).flatten());
    let oa = compact_size(a.output.len()) + (ga + (wa + la));
    let ob = compact_size(b.output.len()) + (gb + (wb + lb));
    let (fa, fb) = (a.input.map_values(fi).flatten(), b.input.map_values(fi).flatten());
    lemma_body_and_rest(a, segwit, x);
    lemma_body_and_rest(b, segwit, y);
    lemma_compact_size_delimits(a.input.len(), b.input.len(), fa + oa, fb + ob);
    lemma_tx_ins_delimit(a.input, b.input, oa, ob);
    lemma_compact_size_delimits(a.output.len(), b.output.len(), ga + (wa + la), gb + (wb + lb));
    lemma_tx_outs_delimit(a.output, b.output, wa + la, wb + lb);
    if segwit {
        lemma_witnesses_delimit(a.input, b.input, la, lb);
    } else {
        assert(wa + la =~= la && wb + lb =~= lb);
    }
    lemma_le_bytes_delimits(a.lock_time as nat, b.lock_time as nat, 4, x, y);
}

/// A body and what follows it, taken apart from the front.
proof fn lemma_body_and_rest(t: TransactionView, segwit: bool, rest: Seq<u8>)
    ensures
        body(t, segwit) + rest == compact_size(t.input.len()) + (t.input.map_values(
            |i: TxInView| i.encoding(),
        ).flatten() + (compact_size(t.output.len()) + (t.output.map_values(
            |o: TxOutView| o.encoding(),
        ).flatten() + (body_witnesses(t, segwit) + (le_bytes(t.lock_time as nat, 4) + rest))))),
{
    lemma_regroup(
        compact_size(t.input.len()),
        t.input.map_values(|i: TxInView| i.encoding()).flatten(),
        compact_size(t.output.len()),
        t.output.map_values(|o: TxOutView| o.encoding()).flatten(),
        body_witnesses(t, segwit),
        le_bytes(t.lock_time as nat, 4),
        rest,
    );
}

proof fn lemma_regroup(
    a: Seq<u8>,
    b: Seq<u8>,
    c: Seq<u8>,
    d: Seq<u8>,
    e: Seq<u8>,
    f: Seq<u8>,
    rest: Seq<u8>,
)
    ensures
        (a + b) + ((c + d) + (e + f)) + rest == a + (b + (c + (d + (e + (f + rest))))),
{
    assert((a + b) + ((c + d) + (e + f)) + rest =~= a + (b + (c + (d + (e + (f + rest))))));
}

/// No encoding of a transaction is the beginning of another's: what follows a transaction can be
/// told from it.
pub proof fn encoding_is_prefix_free(
    a: TransactionView,
    b: TransactionView,
    x: Seq<u8>,
    y: Seq<u8>,
)
    requires
        a.wf(),
        b.wf(),
        a.encoding() + x == b.encoding() + y,
    ensures
        a == b,
        x == y,
{
    vstd::arithmetic::power2::lemma2_to64();
    lemma_body(a);
    lemma_body(b);
    let (va, vb) = (le_bytes(i32_bits(a.version), 4), le_bytes(i32_bits(b.version), 4));
    let ma = if a.is_segwit() { seq![0u8, 1u8] + body(a, true) } else { body(a, false) };
    let mb = if b.is_segwit() { seq![0u8, 1u8] + body(b, true) } else { body(b, false) };
    assert(a.encoding() + x =~= va + (ma + x));
    assert(b.encoding() + y =~= vb + (mb + y));
    lemma_i32_bits(a.version, b.version);
    lemma_i32_bits(b.version, a.version);
    lemma_le_bytes_delimits(i32_bits(a.version), i32_bits(b.version), 4, ma + x, mb + y);
    lemma_body_starts(a);
    lemma_body_starts(b);
    assert((ma + x)[0] == ma[0] && (mb + y)[0] == mb[0]);
    assert(a.is_segwit() ==> ma[0] == 0);
    assert(b.is_segwit() ==> mb[0] == 0);
    if a.is_segwit() {
        assert(ma + x =~= seq![0u8, 1u8] + (body(a, true) + x));
        assert(mb + y =~= seq![0u8, 1u8] + (body(b, true) + y));
        lemma_split(seq![0u8, 1u8], body(a, true) + x, seq![0u8, 1u8], body(b, true) + y);
    }
    lemma_body_delimits(a, b, a.is_segwit(), x, y);
    assert forall|i: int| 0 <= i < a.input.len() implies a.input[i] == b.input[i] by {
        assert(a.input[i].stripped() == b.input[i].stripped());
        if !a.is_segwit() {
            assert(a.input[i].witness =~= b.input[i].witness);
        }
    }
    assert(a.input =~= b.input);
}

/// No two transactions have one encoding.
pub proof fn encoding_is_injective(a: TransactionView, b: TransactionView)
    requires
        a.wf(),
        b.wf(),
        a.encoding() == b.encoding(),
    ensures
        a == b,
{
    encoding_is_prefix_free(a, b, Seq::empty(), Seq::empty());
}

/// A transaction that is followed by more bytes is not read. This holds where an index has 64
/// bits, and for a transaction of no more than [`ALWAYS_DECODED_LEN`] bytes on any machine.
pub proof fn left_over_bytes_are_refused(
    tx: TransactionView,
    rest: Seq<u8>,
    decoded: Option<TransactionView>,
)
    requires
        tx.wf(),
        rest.len() > 0,
        usize::BITS == 64 || tx.encoding().len() <= ALWAYS_DECODED_LEN,
        decodes_to(tx.encoding() + rest, decoded),
        decoded matches Some(t) ==> t.wf(),
    ensures
        decoded is None,
{
    let bytes = tx.encoding() + rest;
    assert(bytes.take(tx.encoding().len() as int) =~= tx.encoding());
    if usize::BITS == 64 {
        if let Some(t) = decoded {
            assert(t.encoding() + Seq::empty() =~= bytes);
            encoding_is_prefix_free(tx, t, rest, Seq::empty());
        }
    }
}

} // verus!
