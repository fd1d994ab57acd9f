//! Coin selection: fund a payment from the wallet view, spending the given
//! anchor satpoints first and then drawing cardinal (uninscribed) outputs
//! greedily until the target and the estimated fee are covered.

use vstd::prelude::*;
use crate::types::{
    Tx, TxV, TxIn, TxInV, TxOut, TxOutV, OutPoint, OutPointV, SatPoint, SatPointV, UtxoEntry,
    UtxoEntryV, IndexEntry, IndexEntryV, FeeRate, PlanError, seq_views, spec_utxo_sum, sum_values,
};
use crate::fees::{
    spec_varint_len, varint_len, spec_outputs_size, spec_fee, fee_of_vsize,
    spec_dust_threshold, dust_threshold, spec_vsize, spec_weight, spec_witnessed_inputs,
    spec_witnesses_size, spec_witness_size, spec_witness_items_size,
};
use crate::bytes::bytes_eq;

verus! {

/// The value recorded for an outpoint in the wallet view, at its first
/// occurrence.
pub open spec fn spec_find_utxo(utxos: Seq<UtxoEntryV>, op: OutPointV) -> Option<u64>
    decreases utxos.len(),
{
    if utxos.len() == 0 {
        None
    } else if utxos[0].outpoint == op {
        Some(utxos[0].value)
    } else {
        spec_find_utxo(utxos.skip(1), op)
    }
}

/// Whether an index entry occupies the outpoint.
pub open spec fn spec_outpoint_inscribed(idx: Seq<IndexEntryV>, op: OutPointV) -> bool {
    exists|k: int| 0 <= k < idx.len() && idx[k].satpoint.outpoint == op
}

/// Whether one of the satpoints sits on the outpoint.
pub open spec fn spec_outpoint_used(pts: Seq<SatPointV>, op: OutPointV) -> bool {
    exists|k: int| 0 <= k < pts.len() && pts[k].outpoint == op
}

/// Whether an index entry sits exactly on the satpoint, offset included.
pub open spec fn spec_satpoint_known(idx: Seq<IndexEntryV>, s: SatPointV) -> bool {
    exists|k: int| 0 <= k < idx.len() && idx[k].satpoint == s
}

/// The wallet value found for each outpoint of a list, missing ones as
/// zero.
pub open spec fn spec_ops_value(ops: Seq<OutPointV>, utxos: Seq<UtxoEntryV>) -> int
    decreases ops.len(),
{
    if ops.len() == 0 {
        0
    } else {
        spec_ops_value(ops.drop_last(), utxos)
            + match spec_find_utxo(utxos, ops.last()) {
                Some(v) => v as int,
                None => 0,
            }
    }
}

/// The witness-utxo list for a spend: each input's wallet value under one
/// script.
pub open spec fn spec_wu_of(ops: Seq<OutPointV>, utxos: Seq<UtxoEntryV>, spk: Seq<u8>) -> Seq<TxOutV> {
    Seq::new(ops.len(), |i: int| TxOutV {
        value: match spec_find_utxo(utxos, ops[i]) {
            Some(v) => v,
            None => 0u64,
        },
        spk: spk,
    })
}

/// The outpoints a list of inputs spends, in order.
pub open spec fn spec_prevouts(ins: Seq<TxInV>) -> Seq<OutPointV> {
    Seq::new(ins.len(), |i: int| ins[i].prevout)
}

/// Inputs draw from the wallet exactly what their outpoints are worth.
pub proof fn lemma_in_sum_is_ops_value(ins: Seq<TxInV>, utxos: Seq<UtxoEntryV>)
    ensures
        spec_in_sum(ins, utxos) == spec_ops_value(spec_prevouts(ins), utxos),
    decreases ins.len(),
{
    if ins.len() > 0 {
        lemma_in_sum_is_ops_value(ins.drop_last(), utxos);
        assert(spec_prevouts(ins).drop_last() =~= spec_prevouts(ins.drop_last()));
        assert(spec_prevouts(ins).last() == ins.last().prevout);
    }
}

/// A wallet entry greedy selection may draw: neither inscribed nor already
/// spent as an anchor.
pub open spec fn spec_cardinal(u: UtxoEntryV, idx: Seq<IndexEntryV>, anchors: Seq<SatPointV>) -> bool {
    !spec_outpoint_inscribed(idx, u.outpoint) && !spec_outpoint_used(anchors, u.outpoint)
}

/// Total value of the drawable entries.
pub open spec fn spec_cardinal_sum(utxos: Seq<UtxoEntryV>, idx: Seq<IndexEntryV>, anchors: Seq<SatPointV>) -> int
    decreases utxos.len(),
{
    if utxos.len() == 0 {
        0
    } else {
        spec_cardinal_sum(utxos.drop_last(), idx, anchors)
            + if spec_cardinal(utxos.last(), idx, anchors) { utxos.last().value as int } else { 0 }
    }
}

/// Number of drawable entries.
pub open spec fn spec_cardinal_count(utxos: Seq<UtxoEntryV>, idx: Seq<IndexEntryV>, anchors: Seq<SatPointV>) -> nat
    decreases utxos.len(),
{
    if utxos.len() == 0 {
        0
    } else {
        spec_cardinal_count(utxos.drop_last(), idx, anchors)
            + if spec_cardinal(utxos.last(), idx, anchors) { 1nat } else { 0nat }
    }
}

/// Total value of the anchors, as recorded in the wallet view.
pub open spec fn spec_anchor_sum(anchors: Seq<SatPointV>, utxos: Seq<UtxoEntryV>) -> int
    decreases anchors.len(),
{
    if anchors.len() == 0 {
        0
    } else {
        spec_anchor_sum(anchors.drop_last(), utxos)
            + match spec_find_utxo(utxos, anchors.last().outpoint) {
                Some(v) => v as int,
                None => 0,
            }
    }
}

/// Value drawn by a list of inputs from the wallet view.
pub open spec fn spec_in_sum(ins: Seq<TxInV>, utxos: Seq<UtxoEntryV>) -> int
    decreases ins.len(),
{
    if ins.len() == 0 {
        0
    } else {
        spec_in_sum(ins.drop_last(), utxos)
            + match spec_find_utxo(utxos, ins.last().prevout) {
                Some(v) => v as int,
                None => 0,
            }
    }
}

/// No outpoint appears twice in the wallet view.
pub open spec fn spec_distinct_outpoints(s: Seq<UtxoEntryV>) -> bool {
    forall|i: int, j: int| 0 <= i < j < s.len() ==> s[i].outpoint != s[j].outpoint
}

/// Weight of the spend as it will be signed: every input carries a single
/// witness item of `wlen` bytes.
pub open spec fn spec_est_weight(n_in: nat, wlen: nat, outs: Seq<TxOutV>) -> nat {
    let stripped = 4 + spec_varint_len(n_in) + n_in * 41 + spec_varint_len(outs.len())
        + spec_outputs_size(outs) + 4;
    if n_in == 0 {
        4 * stripped
    } else {
        4 * stripped + n_in * (1 + spec_varint_len(wlen) + wlen) + 2
    }
}

/// Virtual size of that signed spend.
pub open spec fn spec_est_vsize(n_in: nat, wlen: nat, outs: Seq<TxOutV>) -> nat {
    (spec_est_weight(n_in, wlen, outs) + 3) / 4
}

/// The estimate is exact: a transaction whose every input carries a single
/// witness item of `wlen` bytes weighs exactly the estimated weight, so
/// the estimated fee is the fee of the transaction as signed.
pub proof fn lemma_est_vsize_exact(t: TxV, wlen: nat)
    requires
        t.inputs.len() > 0,
        forall|i: int| 0 <= i < t.inputs.len() ==> (#[trigger] t.inputs[i]).witness.len() == 1,
        forall|i: int| 0 <= i < t.inputs.len()
            ==> (#[trigger] t.inputs[i]).witness[0].len() == wlen,
    ensures
        spec_weight(t) == spec_est_weight(t.inputs.len(), wlen, t.outputs),
        spec_vsize(t) == spec_est_vsize(t.inputs.len(), wlen, t.outputs),
{
    lemma_single_witness_sums(t.inputs, wlen);
}

proof fn lemma_single_witness_sums(ins: Seq<TxInV>, wlen: nat)
    requires
        forall|i: int| 0 <= i < ins.len() ==> (#[trigger] ins[i]).witness.len() == 1,
        forall|i: int| 0 <= i < ins.len() ==> (#[trigger] ins[i]).witness[0].len() == wlen,
    ensures
        spec_witnessed_inputs(ins) == ins.len(),
        spec_witnesses_size(ins) == ins.len() * (1 + spec_varint_len(wlen) + wlen),
    decreases ins.len(),
{
    if ins.len() > 0 {
        lemma_single_witness_sums(ins.drop_last(), wlen);
        let w = ins.last().witness;
        assert(w.drop_last() =~= Seq::<Seq<u8>>::empty());
        assert(w.last() == w[0]);
        assert(spec_witness_items_size(w)
            == spec_witness_items_size(w.drop_last()) + spec_varint_len(wlen) + wlen);
        assert(spec_witness_size(w) == 1 + spec_varint_len(wlen) + wlen);
        assert((ins.len() - 1) * (1 + spec_varint_len(wlen) + wlen)
            + (1 + spec_varint_len(wlen) + wlen)
            == ins.len() * (1 + spec_varint_len(wlen) + wlen)) by (nonlinear_arith);
    }
}

/// The output shape the estimate is taken against: the payment, a change
/// output, and the data rider if one was asked for.
pub open spec fn spec_sel_outs(payment_value: u64, payment_spk: Seq<u8>, change_spk: Seq<u8>, opret: Option<Seq<u8>>) -> Seq<TxOutV> {
    let base = seq![
        TxOutV { value: payment_value, spk: payment_spk },
        TxOutV { value: 0u64, spk: change_spk },
    ];
    match opret {
        Some(o) => base.push(TxOutV { value: 0u64, spk: o }),
        None => base,
    }
}

/// Ghost image of an optional byte string.
pub open spec fn spec_opt_bytes(o: Option<Vec<u8>>) -> Option<Seq<u8>> {
    match o {
        Some(v) => Some(v@),
        None => None,
    }
}

pub proof fn lemma_utxo_sum_nonneg(s: Seq<UtxoEntryV>)
    ensures
        0 <= spec_utxo_sum(s),
    decreases s.len(),
{
    if s.len() > 0 {
        lemma_utxo_sum_nonneg(s.drop_last());
    }
}

proof fn lemma_utxo_sum_front(s: Seq<UtxoEntryV>)
    requires
        s.len() > 0,
    ensures
        spec_utxo_sum(s) == s[0].value + spec_utxo_sum(s.skip(1)),
    decreases s.len(),
{
    if s.len() == 1 {
        assert(s.skip(1) =~= Seq::<UtxoEntryV>::empty());
        assert(spec_utxo_sum(s.skip(1)) == 0);
        assert(s.drop_last().len() == 0);
        assert(spec_utxo_sum(s) == spec_utxo_sum(s.drop_last()) + s.last().value);
        assert(s.last() == s[0]);
    } else {
        lemma_utxo_sum_front(s.drop_last());
        assert(spec_utxo_sum(s) == spec_utxo_sum(s.drop_last()) + s.last().value);
        assert(spec_utxo_sum(s.drop_last()) == s.drop_last()[0].value + spec_utxo_sum(s.drop_last().skip(1)));
        assert(s.drop_last()[0] == s[0]);
        assert(s.skip(1).drop_last() =~= s.drop_last().skip(1));
        assert(s.skip(1).len() > 0);
        assert(spec_utxo_sum(s.skip(1)) == spec_utxo_sum(s.skip(1).drop_last()) + s.skip(1).last().value);
        assert(s.skip(1).last() == s.last());
        assert(spec_utxo_sum(s.skip(1)) == spec_utxo_sum(s.drop_last().skip(1)) + s.last().value);
    }
}

pub proof fn lemma_find_le_sum(s: Seq<UtxoEntryV>, op: OutPointV)
    requires
        spec_find_utxo(s, op) is Some,
    ensures
        spec_find_utxo(s, op).unwrap() <= spec_utxo_sum(s),
    decreases s.len(),
{
    lemma_utxo_sum_front(s);
    if s[0].outpoint == op {
        lemma_utxo_sum_nonneg(s.skip(1));
    } else {
        lemma_find_le_sum(s.skip(1), op);
    }
}

pub proof fn lemma_take_sum_le(s: Seq<UtxoEntryV>, k: int)
    requires
        0 <= k <= s.len(),
    ensures
        spec_utxo_sum(s.take(k)) <= spec_utxo_sum(s),
    decreases s.len() - k,
{
    if k == s.len() {
        assert(s.take(k) =~= s);
    } else {
        lemma_take_sum_le(s, k + 1);
        assert(s.take(k + 1).drop_last() =~= s.take(k));
        assert(spec_utxo_sum(s.take(k + 1)) == spec_utxo_sum(s.take(k)) + s[k].value);
    }
}

pub proof fn lemma_cardinal_sum_le(s: Seq<UtxoEntryV>, idx: Seq<IndexEntryV>, anchors: Seq<SatPointV>)
    ensures
        spec_cardinal_sum(s, idx, anchors) <= spec_utxo_sum(s),
        0 <= spec_cardinal_sum(s, idx, anchors),
        spec_cardinal_count(s, idx, anchors) <= s.len(),
    decreases s.len(),
{
    if s.len() > 0 {
        lemma_cardinal_sum_le(s.drop_last(), idx, anchors);
    }
}

/// Whether two outpoints are the same.
pub fn outpoint_eq(a: &OutPoint, b: &OutPoint) -> (r: bool)
    ensures
        r <==> a@ == b@,
{
    let same = bytes_eq(&a.txid.bytes, &b.txid.bytes) && a.vout == b.vout;
    proof {
        if same {
            assert(a@ =~= b@);
        }
    }
    same
}

/// Looks an outpoint up in the wallet view.
pub fn find_value(utxos: &Vec<UtxoEntry>, op: &OutPoint) -> (r: Option<u64>)
    ensures
        r == spec_find_utxo(seq_views(utxos@), op@),
{
    let ghost uv = seq_views(utxos@);
    proof {
        assert(uv.skip(0) =~= uv);
    }
    let mut i: usize = 0;
    while i < utxos.len()
        invariant
            i <= utxos@.len(),
            uv == seq_views(utxos@),
            spec_find_utxo(uv, op@) == spec_find_utxo(uv.skip(i as int), op@),
        decreases utxos.len() - i,
    {
        proof {
            assert(uv.skip(i as int)[0] == utxos@[i as int]@);
        }
        if outpoint_eq(&utxos[i].outpoint, op) {
            return Some(utxos[i].value);
        }
        proof {
            assert(uv.skip(i as int).skip(1) =~= uv.skip(i + 1));
        }
        i += 1;
    }
    proof {
        assert(uv.skip(utxos@.len() as int) =~= Seq::<UtxoEntryV>::empty());
    }
    None
}

/// Whether the outpoint carries an inscription.
pub fn outpoint_inscribed(index: &Vec<IndexEntry>, op: &OutPoint) -> (r: bool)
    ensures
        r <==> spec_outpoint_inscribed(seq_views(index@), op@),
{
    let ghost iv = seq_views(index@);
    let mut i: usize = 0;
    while i < index.len()
        invariant
            i <= index@.len(),
            iv == seq_views(index@),
            forall|k: int| 0 <= k < i ==> iv[k].satpoint.outpoint != op@,
        decreases index.len() - i,
    {
        proof {
            assert(iv[i as int] == index@[i as int]@);
        }
        if outpoint_eq(&index[i].satpoint.outpoint, op) {
            return true;
        }
        i += 1;
    }
    false
}

/// Whether the outpoint is one of the satpoints'.
pub fn outpoint_used(pts: &Vec<SatPoint>, op: &OutPoint) -> (r: bool)
    ensures
        r <==> spec_outpoint_used(seq_views(pts@), op@),
{
    let ghost pv = seq_views(pts@);
    let mut i: usize = 0;
    while i < pts.len()
        invariant
            i <= pts@.len(),
            pv == seq_views(pts@),
            forall|k: int| 0 <= k < i ==> pv[k].outpoint != op@,
        decreases pts.len() - i,
    {
        proof {
            assert(pv[i as int] == pts@[i as int]@);
        }
        if outpoint_eq(&pts[i].outpoint, op) {
            return true;
        }
        i += 1;
    }
    false
}

/// Whether the index holds an entry exactly on the satpoint.
pub fn satpoint_known(index: &Vec<IndexEntry>, s: &SatPoint) -> (r: bool)
    ensures
        r <==> spec_satpoint_known(seq_views(index@), s@),
{
    let ghost iv = seq_views(index@);
    let mut i: usize = 0;
    while i < index.len()
        invariant
            i <= index@.len(),
            iv == seq_views(index@),
            forall|k: int| 0 <= k < i ==> (#[trigger] iv[k]).satpoint != s@,
        decreases index.len() - i,
    {
        proof {
            assert(iv[i as int] == index@[i as int]@);
        }
        if outpoint_eq(&index[i].satpoint.outpoint, &s.outpoint)
            && index[i].satpoint.offset == s.offset {
            proof {
                assert(iv[i as int].satpoint =~= s@);
            }
            return true;
        }
        proof {
            if iv[i as int].satpoint == s@ {
                assert(iv[i as int].satpoint.outpoint == s@.outpoint);
                assert(iv[i as int].satpoint.offset == s@.offset);
            }
        }
        i += 1;
    }
    false
}

/// Serialized size of a list of outputs, without the leading count.
pub fn outs_wire_size(outs: &Vec<TxOut>) -> (r: u64)
    requires
        outs@.len() <= 10_000,
        forall|i: int| 0 <= i < outs@.len() ==> #[trigger] outs@[i].spk@.len() <= 10_000,
    ensures
        r == spec_outputs_size(seq_views(outs@)),
        r <= outs@.len() * 10_017,
{
    let ghost ov = seq_views(outs@);
    let mut total: u64 = 0;
    let mut i: usize = 0;
    while i < outs.len()
        invariant
            i <= outs@.len(),
            ov == seq_views(outs@),
            outs@.len() <= 10_000,
            forall|k: int| 0 <= k < outs@.len() ==> #[trigger] outs@[k].spk@.len() <= 10_000,
            total == spec_outputs_size(ov.subrange(0, i as int)),
            total <= i * 10_017,
        decreases outs.len() - i,
    {
        proof {
            assert(ov[i as int] == outs@[i as int]@);
            assert(outs@[i as int].spk@.len() <= 10_000);
        }
        total = total + 8 + varint_len(outs[i].spk.len() as u64) + outs[i].spk.len() as u64;
        proof {
            let now = ov.subrange(0, i + 1);
            assert(now.drop_last() =~= ov.subrange(0, i as int));
            assert(now.last() == ov[i as int]);
        }
        i += 1;
    }
    proof {
        assert(ov.subrange(0, ov.len() as int) =~= ov);
    }
    total
}

/// Virtual size of the spend as it will be signed.
pub fn est_vsize(n_in: u64, wlen: u64, outs: &Vec<TxOut>) -> (r: u64)
    requires
        n_in <= 200_000,
        wlen <= 120,
        outs@.len() <= 10_000,
        forall|i: int| 0 <= i < outs@.len() ==> #[trigger] outs@[i].spk@.len() <= 10_000,
    ensures
        r == spec_est_vsize(n_in as nat, wlen as nat, seq_views(outs@)),
        r <= 200_000_000,
{
    let osz = outs_wire_size(outs);
    let stripped: u64 = 4 + varint_len(n_in) + n_in * 41 + varint_len(outs.len() as u64) + osz + 4;
    let wit_per: u64 = 1 + varint_len(wlen) + wlen;
    proof {
        assert(wit_per <= 130);
        assert(n_in * wit_per <= 200_000 * 130) by (nonlinear_arith)
            requires
                n_in <= 200_000,
                wit_per <= 130,
        ;
    }
    let w: u64 = if n_in == 0 {
        4 * stripped
    } else {
        4 * stripped + n_in * wit_per + 2
    };
    (w + 3) / 4
}

/// What coin selection hands back: the unsigned transaction, the fee it
/// pays, the change it kept or absorbed, and the total drawn from the
/// wallet.
pub struct Selection {
    pub tx: Tx,
    pub fee_paid: u64,
    pub change_value: u64,
    pub has_change: bool,
    pub input_total: u64,
}

/// The fee the selector aims at for a spend with `n_in` inputs: the fee of
/// the signed spend paying the payment, a change output, and the optional
/// data rider.
pub open spec fn spec_sel_fee(n_in: nat, wlen: nat, pv: u64, pspk: Seq<u8>, cspk: Seq<u8>, opret: Option<Seq<u8>>, rate: FeeRate) -> nat {
    spec_fee(spec_est_vsize(n_in, wlen, spec_sel_outs(pv, pspk, cspk, opret)), rate)
}

/// The preconditions the wallet view and the request must meet: bounded
/// counts, well-formed entries, a total value no higher than the coin
/// supply, and no outpoint listed twice.
pub open spec fn spec_sel_inputs_ok(anchors: Seq<SatPoint>, utxos: Seq<UtxoEntry>, pspk: Seq<u8>, pv: u64, cspk: Seq<u8>, rate: FeeRate, wlen: u64, opret: Option<Seq<u8>>) -> bool {
    &&& anchors.len() <= 1_000
    &&& forall|i: int| 0 <= i < anchors.len() ==> (#[trigger] anchors[i]).wf()
    &&& utxos.len() <= 100_000
    &&& forall|i: int| 0 <= i < utxos.len() ==> (#[trigger] utxos[i]).wf()
    &&& spec_utxo_sum(seq_views(utxos)) <= 2_100_000_000_000_000
    &&& spec_distinct_outpoints(seq_views(utxos))
    &&& pspk.len() <= 10_000
    &&& cspk.len() <= 10_000
    &&& pv <= 1_000_000_000_000_000_000
    &&& rate.wf()
    &&& 1 <= wlen <= 120
    &&& (opret matches Some(o) ==> o.len() <= 10_000)
}

/// Skipping entries that cannot be drawn leaves the drawable total and
/// count unchanged.
proof fn lemma_cardinal_range(uv: Seq<UtxoEntryV>, iv: Seq<IndexEntryV>, av: Seq<SatPointV>, a: int, b: int)
    requires
        0 <= a <= b <= uv.len(),
        forall|j: int| a <= j < b ==> !spec_cardinal(#[trigger] uv[j], iv, av),
    ensures
        spec_cardinal_sum(uv.take(b), iv, av) == spec_cardinal_sum(uv.take(a), iv, av),
        spec_cardinal_count(uv.take(b), iv, av) == spec_cardinal_count(uv.take(a), iv, av),
    decreases b - a,
{
    if a < b {
        lemma_cardinal_range(uv, iv, av, a, b - 1);
        assert(uv.take(b).drop_last() =~= uv.take(b - 1));
        assert(uv.take(b).last() == uv[b - 1]);
    }
}

/// The index of the first drawable entry at or after `start`.
fn next_cardinal(utxos: &Vec<UtxoEntry>, index: &Vec<IndexEntry>, anchors: &Vec<SatPoint>, start: usize) -> (r: usize)
    requires
        start <= utxos@.len(),
    ensures
        start <= r <= utxos@.len(),
        forall|j: int| start <= j < r ==> !spec_cardinal(#[trigger] seq_views(utxos@)[j], seq_views(index@), seq_views(anchors@)),
        r < utxos@.len() ==> spec_cardinal(seq_views(utxos@)[r as int], seq_views(index@), seq_views(anchors@)),
{
    let ghost uv = seq_views(utxos@);
    let mut k = start;
    while k < utxos.len()
        invariant
            start <= k <= utxos@.len(),
            uv == seq_views(utxos@),
            forall|j: int| start <= j < k ==> !spec_cardinal(#[trigger] uv[j], seq_views(index@), seq_views(anchors@)),
        decreases utxos@.len() - k,
    {
        proof {
            assert(uv[k as int] == utxos@[k as int]@);
        }
        let cardinal = !outpoint_inscribed(index, &utxos[k].outpoint)
            && !outpoint_used(anchors, &utxos[k].outpoint);
        if cardinal {
            return k;
        }
        k += 1;
    }
    k
}

/// The estimated fee for the current input count, bounded for the callers'
/// arithmetic.
fn fee_now(n_in: u64, wlen: u64, est_outs: &Vec<TxOut>, rate: FeeRate) -> (r: u64)
    requires
        n_in <= 200_000,
        1 <= wlen <= 120,
        rate.wf(),
        est_outs@.len() <= 10_000,
        forall|i: int| 0 <= i < est_outs@.len() ==> (#[trigger] est_outs@[i]).spk@.len() <= 10_000,
    ensures
        r == spec_fee(spec_est_vsize(n_in as nat, wlen as nat, seq_views(est_outs@)), rate),
        r <= 200_000_000_000_000,
{
    let vs = est_vsize(n_in, wlen, est_outs);
    let f = fee_of_vsize(vs, rate);
    proof {
        assert(vs * rate.msat_per_vb <= 200_000_000 * 1_000_000_000) by (nonlinear_arith)
            requires
                vs <= 200_000_000,
                rate.msat_per_vb <= 1_000_000_000,
        ;
    }
    f
}

/// Everything a successful selection guarantees: anchors first, only
/// cardinal draws after them, every input funded and unsigned, the payment
/// output first, change above dust or absorbed, and the exact fee.
pub open spec fn spec_selection_ok(sel: Selection, av: Seq<SatPointV>, uv: Seq<UtxoEntryV>,
    iv: Seq<IndexEntryV>, payment_value: u64, pspk: Seq<u8>, cspk: Seq<u8>, rate: FeeRate,
    wlen: nat, opret: Option<Seq<u8>>) -> bool
{
    let n = sel.tx@.inputs.len();
    let f = spec_sel_fee(n, wlen, payment_value, pspk, cspk, opret, rate);
    &&& sel.tx.wf()
    &&& av.len() <= n <= av.len() + uv.len()
    &&& forall|i: int| 0 <= i < av.len() ==> (#[trigger] sel.tx@.inputs[i]).prevout == av[i].outpoint
    &&& forall|i: int| av.len() <= i < n ==> spec_cardinal(
            UtxoEntryV { outpoint: (#[trigger] sel.tx@.inputs[i]).prevout, value: 0u64 }, iv, av)
    &&& forall|i: int| 0 <= i < n ==> spec_find_utxo(uv, (#[trigger] sel.tx@.inputs[i]).prevout) is Some
    &&& forall|i: int| 0 <= i < n ==> (#[trigger] sel.tx@.inputs[i]).witness.len() == 0
    &&& sel.input_total == spec_in_sum(sel.tx@.inputs, uv)
    &&& sel.input_total <= 2_200_000_000_000_000_000
    &&& sel.tx@.outputs.len() == 1 + (if sel.has_change { 1int } else { 0 })
        + (if opret is Some { 1int } else { 0 })
    &&& sel.tx@.outputs[0] == (TxOutV { value: payment_value, spk: pspk })
    &&& sel.has_change ==> sel.tx@.outputs[1] == (TxOutV { value: sel.change_value, spk: cspk })
    &&& sel.has_change ==> sel.change_value >= spec_dust_threshold(cspk)
    &&& (opret matches Some(o) ==> sel.tx@.outputs.last() == (TxOutV { value: 0u64, spk: o }))
    &&& sel.input_total - sum_values(sel.tx@.outputs) == sel.fee_paid
    &&& sel.fee_paid <= 200_000_000_100_000
    &&& (sel.has_change ==> sel.fee_paid == f)
    &&& (!sel.has_change ==> f <= sel.fee_paid < f + spec_dust_threshold(cspk))
    &&& sel.input_total >= payment_value + f
}

/// An outpoint that occurs in the wallet view is found by lookup.
pub proof fn lemma_find_exists(s: Seq<UtxoEntryV>, op: OutPointV)
    requires
        exists|k: int| 0 <= k < s.len() && (#[trigger] s[k]).outpoint == op,
    ensures
        spec_find_utxo(s, op) is Some,
    decreases s.len(),
{
    let k = choose|k: int| 0 <= k < s.len() && (#[trigger] s[k]).outpoint == op;
    if s[0].outpoint == op {
    } else {
        assert(k >= 1);
        assert(s.skip(1)[k - 1].outpoint == op);
        lemma_find_exists(s.skip(1), op);
    }
}

/// A fee computed from a bounded virtual size stays bounded.
pub proof fn fee_now_bound(vs: u64, rate: FeeRate)
    requires
        vs <= 200_000_000,
        rate.wf(),
    ensures
        spec_fee(vs as nat, rate) <= 200_000_000_000_000,
{
    assert(vs * rate.msat_per_vb <= 200_000_000 * 1_000_000_000) by (nonlinear_arith)
        requires
            vs <= 200_000_000,
            rate.msat_per_vb <= 1_000_000_000,
    ;
}

/// Funds a payment of `payment_value` to `payment_spk` from the wallet
/// view. The anchors are spent first, in order; then uninscribed outputs
/// are drawn greedily, with the fee estimate recomputed after each draw,
/// until the target and fee are covered. The remainder goes to the change
/// script, or into the fee when it would be dust.
pub fn select_funds(
    anchors: &Vec<SatPoint>,
    utxos: &Vec<UtxoEntry>,
    index: &Vec<IndexEntry>,
    payment_spk: &Vec<u8>,
    payment_value: u64,
    change_spk: &Vec<u8>,
    rate: FeeRate,
    wlen: u64,
    op_return: &Option<Vec<u8>>,
) -> (r: Result<Selection, PlanError>)
    requires
        spec_sel_inputs_ok(anchors@, utxos@, payment_spk@, payment_value, change_spk@, rate, wlen, spec_opt_bytes(*op_return)),
    ensures
        r matches Err(e) ==> (e == PlanError::DustOutput || e == PlanError::StaleTransferAnchor
            || e == PlanError::Insufficient),
        r == Err::<Selection, PlanError>(PlanError::DustOutput)
            <==> payment_value < spec_dust_threshold(payment_spk@),
        r == Err::<Selection, PlanError>(PlanError::StaleTransferAnchor)
            <==> (payment_value >= spec_dust_threshold(payment_spk@)
                && exists|k: int| 0 <= k < anchors@.len()
                    && spec_find_utxo(seq_views(utxos@), (#[trigger] seq_views(anchors@)[k]).outpoint) is None),
        r == Err::<Selection, PlanError>(PlanError::Insufficient)
            ==> spec_anchor_sum(seq_views(anchors@), seq_views(utxos@))
                    + spec_cardinal_sum(seq_views(utxos@), seq_views(index@), seq_views(anchors@))
                < payment_value + spec_sel_fee(
                    anchors@.len() + spec_cardinal_count(seq_views(utxos@), seq_views(index@), seq_views(anchors@)),
                    wlen as nat, payment_value, payment_spk@, change_spk@, spec_opt_bytes(*op_return), rate),
        r matches Ok(sel) ==> spec_selection_ok(sel, seq_views(anchors@), seq_views(utxos@),
            seq_views(index@), payment_value, payment_spk@, change_spk@, rate, wlen as nat,
            spec_opt_bytes(*op_return)),
{
    let ghost av = seq_views(anchors@);
    let ghost uv = seq_views(utxos@);
    let ghost iv = seq_views(index@);
    let ghost orv = spec_opt_bytes(*op_return);

    let dust_p = dust_threshold(payment_spk);
    if payment_value < dust_p {
        return Err(PlanError::DustOutput);
    }

    // The shape the fee estimate is taken against.
    let mut est_outs: Vec<TxOut> = Vec::new();
    est_outs.push(TxOut { value: payment_value, spk: crate::bytes::dup(payment_spk) });
    est_outs.push(TxOut { value: 0, spk: crate::bytes::dup(change_spk) });
    match op_return {
        Some(o) => {
            est_outs.push(TxOut { value: 0, spk: crate::bytes::dup(o) });
        },
        None => {},
    }
    proof {
        assert(seq_views(est_outs@) =~= spec_sel_outs(payment_value, payment_spk@, change_spk@, orv));
    }

    // The anchors come first, in order.
    let mut ins: Vec<TxIn> = Vec::new();
    let mut total: u64 = 0;
    let mut i: usize = 0;
    while i < anchors.len()
        invariant
            spec_sel_inputs_ok(anchors@, utxos@, payment_spk@, payment_value, change_spk@, rate, wlen, spec_opt_bytes(*op_return)),
            av == seq_views(anchors@),
            uv == seq_views(utxos@),
            payment_value >= spec_dust_threshold(payment_spk@),
            i <= anchors@.len(),
            ins@.len() == i,
            forall|k: int| 0 <= k < i ==> (#[trigger] ins@[k])@.prevout == av[k].outpoint,
            forall|k: int| 0 <= k < i ==> (#[trigger] ins@[k])@.witness.len() == 0,
            forall|k: int| 0 <= k < i ==> (#[trigger] ins@[k]).wf(),
            forall|k: int| 0 <= k < i ==> spec_find_utxo(uv, (#[trigger] av[k]).outpoint) is Some,
            total == spec_anchor_sum(av.take(i as int), uv),
            total == spec_in_sum(seq_views(ins@), uv),
            total <= i * 2_100_000_000_000_000,
        decreases anchors.len() - i,
    {
        let ghost pre_ins = seq_views(ins@);
        proof {
            assert(av[i as int] == anchors@[i as int]@);
        }
        match find_value(utxos, &anchors[i].outpoint) {
            None => {
                proof {
                    assert(spec_find_utxo(uv, av[i as int].outpoint) is None);
                    assert(exists|k: int| 0 <= k < anchors@.len()
                        && spec_find_utxo(uv, (#[trigger] seq_views(anchors@)[k]).outpoint) is None);
                }
                return Err(PlanError::StaleTransferAnchor);
            },
            Some(v) => {
                proof {
                    lemma_find_le_sum(uv, av[i as int].outpoint);
                }
                ins.push(TxIn { prevout: anchors[i].outpoint.clone(), witness: Vec::new() });
                total = total + v;
                proof {
                    assert(seq_views(ins@).drop_last() =~= pre_ins);
                    assert(ins@[i as int]@.prevout == av[i as int].outpoint);
                    assert(ins@[i as int]@.witness =~= Seq::<Seq<u8>>::empty());
                    assert(av.take(i + 1).drop_last() =~= av.take(i as int));
                    assert(av.take(i + 1).last() == av[i as int]);
                    assert(seq_views(ins@).last() == ins@[i as int]@);
                }
            },
        }
        i += 1;
    }
    proof {
        assert(av.take(av.len() as int) =~= av);
    }
    let ghost anchor_total = total as int;

    // Draw cardinal outputs until the target and the fee are covered.
    let mut k: usize = 0;
    let mut fee = fee_now(ins.len() as u64, wlen, &est_outs, rate);
    proof {
        assert(uv.take(0) =~= Seq::<UtxoEntryV>::empty());
    }
    while total < payment_value + fee
        invariant
            spec_sel_inputs_ok(anchors@, utxos@, payment_spk@, payment_value, change_spk@, rate, wlen, spec_opt_bytes(*op_return)),
            av == seq_views(anchors@),
            uv == seq_views(utxos@),
            iv == seq_views(index@),
            orv == spec_opt_bytes(*op_return),
            seq_views(est_outs@) == spec_sel_outs(payment_value, payment_spk@, change_spk@, orv),
            est_outs@.len() <= 3,
            forall|j: int| 0 <= j < est_outs@.len() ==> (#[trigger] est_outs@[j]).spk@.len() <= 10_000,
            payment_value >= spec_dust_threshold(payment_spk@),
            k <= utxos@.len(),
            ins@.len() == av.len() + spec_cardinal_count(uv.take(k as int), iv, av),
            forall|j: int| 0 <= j < av.len() ==> (#[trigger] ins@[j])@.prevout == av[j].outpoint,
            forall|j: int| av.len() <= j < ins@.len() ==> spec_cardinal(
                UtxoEntryV { outpoint: (#[trigger] ins@[j])@.prevout, value: 0u64 }, iv, av),
            forall|j: int| 0 <= j < ins@.len() ==> (#[trigger] ins@[j])@.witness.len() == 0,
            forall|j: int| 0 <= j < ins@.len() ==> (#[trigger] ins@[j]).wf(),
            forall|j: int| 0 <= j < ins@.len()
                ==> spec_find_utxo(uv, (#[trigger] ins@[j])@.prevout) is Some,
            forall|j: int| 0 <= j < av.len() ==> spec_find_utxo(uv, (#[trigger] av[j]).outpoint) is Some,
            anchor_total == spec_anchor_sum(av, uv),
            0 <= anchor_total <= 2_100_000_000_000_000_000,
            total == anchor_total + spec_cardinal_sum(uv.take(k as int), iv, av),
            total == spec_in_sum(seq_views(ins@), uv),
            fee == spec_fee(spec_est_vsize(ins@.len(), wlen as nat, seq_views(est_outs@)), rate),
            fee <= 200_000_000_000_000,
        decreases utxos@.len() - k,
    {
        let nk = next_cardinal(utxos, index, anchors, k);
        proof {
            lemma_cardinal_range(uv, iv, av, k as int, nk as int);
        }
        if nk == utxos.len() {
            proof {
                assert(uv.take(uv.len() as int) =~= uv);
            }
            return Err(PlanError::Insufficient);
        }
        let ghost pre_ins = seq_views(ins@);
        proof {
            assert(uv[nk as int] == utxos@[nk as int]@);
            lemma_find_distinct(uv, nk as int);
            lemma_find_le_sum(uv, uv[nk as int].outpoint);
            lemma_cardinal_sum_le(uv.take(nk as int), iv, av);
            lemma_take_sum_le(uv, nk as int);
            lemma_utxo_sum_nonneg(uv.take(nk as int));
        }
        ins.push(TxIn { prevout: utxos[nk].outpoint.clone(), witness: Vec::new() });
        total = total + utxos[nk].value;
        proof {
            assert(seq_views(ins@).drop_last() =~= pre_ins);
            assert(ins@[ins@.len() - 1]@.prevout == uv[nk as int].outpoint);
            assert(ins@[ins@.len() - 1]@.witness =~= Seq::<Seq<u8>>::empty());
            assert(seq_views(ins@).last() == ins@[ins@.len() - 1]@);
            assert(uv.take(nk + 1).drop_last() =~= uv.take(nk as int));
            assert(uv.take(nk + 1).last() == uv[nk as int]);
            lemma_cardinal_sum_le(uv.take(nk + 1), iv, av);
            lemma_take_sum_le(uv, nk + 1);
        }
        k = nk + 1;
        fee = fee_now(ins.len() as u64, wlen, &est_outs, rate);
    }

    // Covered: lay the outputs out, payment first.
    let change_val = total - payment_value - fee;
    let dust_c = dust_threshold(change_spk);
    let has_change = change_val >= dust_c;
    let mut outs: Vec<TxOut> = Vec::new();
    outs.push(TxOut { value: payment_value, spk: crate::bytes::dup(payment_spk) });
    if has_change {
        outs.push(TxOut { value: change_val, spk: crate::bytes::dup(change_spk) });
    }
    match op_return {
        Some(o) => {
            outs.push(TxOut { value: 0, spk: crate::bytes::dup(o) });
        },
        None => {},
    }
    let fee_paid = if has_change { fee } else { fee + change_val };
    let ghost ins_v = seq_views(ins@);
    let ghost outs_v = seq_views(outs@);
    let tx = Tx { inputs: ins, outputs: outs };
    proof {
        assert(tx@.inputs =~= ins_v);
        assert(tx@.outputs =~= outs_v);
        reveal_with_fuel(sum_values, 4);
        assert(seq![outs_v[0]].drop_last() =~= Seq::<TxOutV>::empty());
        assert(sum_values(seq![outs_v[0]]) == outs_v[0].value);
        if has_change {
            if orv is Some {
                assert(outs_v.drop_last().drop_last() =~= seq![outs_v[0]]);
            } else {
                assert(outs_v.drop_last() =~= seq![outs_v[0]]);
            }
        } else {
            if orv is Some {
                assert(outs_v.drop_last() =~= seq![outs_v[0]]);
            } else {
                assert(outs_v =~= seq![outs_v[0]]);
            }
        }
        lemma_cardinal_sum_le(uv.take(k as int), iv, av);
        lemma_take_sum_le(uv, k as int);
        lemma_utxo_sum_nonneg(uv.take(k as int));
    }
    Ok(Selection { tx, fee_paid, change_value: if has_change { change_val } else { 0 }, has_change, input_total: total })
}

/// In a view without repeated outpoints, looking an entry's outpoint up
/// finds that entry's value.
pub proof fn lemma_find_distinct(s: Seq<UtxoEntryV>, k: int)
    requires
        spec_distinct_outpoints(s),
        0 <= k < s.len(),
    ensures
        spec_find_utxo(s, s[k].outpoint) == Some(s[k].value),
    decreases k,
{
    if k == 0 {
    } else {
        assert(s[0].outpoint != s[k].outpoint);
        assert(spec_distinct_outpoints(s.skip(1))) by {
            assert(forall|i: int, j: int| 0 <= i < j < s.skip(1).len()
                ==> s.skip(1)[i] == s[i + 1] && s.skip(1)[j] == s[j + 1]);
        }
        lemma_find_distinct(s.skip(1), k - 1);
        assert(s.skip(1)[k - 1] == s[k]);
    }
}

} // verus!
