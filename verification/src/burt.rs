//! The burn-aggregation planner: consolidate the inputs of previously
//! planned transactions into a single output paying the destination, and
//! report the total those transactions were paying out.

use vstd::prelude::*;
use crate::types::{
    Tx, TxIn, TxInV, TxOut, TxOutV, Txid, UtxoEntry, AddressInfo, Net, FeeRate,
    PlanError, seq_views, sum_values, spec_utxo_sum,
};
use crate::fees::{spec_fee, spec_vsize, fee_of_vsize, vsize};

use crate::select::{
    spec_in_sum, spec_find_utxo, spec_wu_of, spec_prevouts,
};
use crate::cancel::{spec_cancel_tx_v};
use crate::bytes::{spec_hex, spec_dec};
use crate::ser::{build_witness_utxos, spec_psbt, spec_companion, spec_outs_view,
    spec_txid_display};
use crate::crypto::tx_ser_of;
use crate::bytes::{dup, hex_encode};
use crate::ser::{psbt_ser, companion_list};

verus! {

/// A burn-aggregation request: the destination, the ids of the planned
/// transactions to consolidate, and the fee rate.
pub struct Burt {
    pub destination: AddressInfo,
    pub burt_txs: Vec<Txid>,
    pub fee_rate: FeeRate,
}

/// What the aggregation hands back. The caller divides the paid-out total
/// by the virtual size to judge up to which fee rate a replacement stays
/// economical.
pub struct Output {
    pub transaction: Vec<u8>,
    pub commit_custom: Vec<Vec<u8>>,
    pub network_fee: u64,
    pub service_fee: u64,
    pub commit_vsize: u64,
    pub commit_fee: u64,
    pub last_output_amount: u64,
}

/// The consolidated spend as sized: every input of the given transactions
/// with its witness, paying a single placeholder output.
pub open spec fn spec_burt_sized_v(txs: Seq<Tx>, spk: Seq<u8>) -> crate::types::TxV {
    crate::types::TxV {
        inputs: spec_concat_ins(txs),
        outputs: seq![TxOutV { value: 0u64, spk: spk }],
    }
}

/// The inputs of a list of transactions, in order.
pub open spec fn spec_concat_ins(txs: Seq<Tx>) -> Seq<TxInV>
    decreases txs.len(),
{
    if txs.len() == 0 {
        Seq::empty()
    } else {
        spec_concat_ins(txs.drop_last()) + txs.last()@.inputs
    }
}

/// The total value paid out by a list of transactions.
pub open spec fn spec_txs_out_total(txs: Seq<Tx>) -> int
    decreases txs.len(),
{
    if txs.len() == 0 {
        0
    } else {
        spec_txs_out_total(txs.drop_last()) + sum_values(txs.last()@.outputs)
    }
}

/// The value of a list of outputs is never negative.
pub proof fn lemma_sum_values_nonneg(outs: Seq<TxOutV>)
    ensures
        0 <= sum_values(outs),
    decreases outs.len(),
{
    if outs.len() > 0 {
        lemma_sum_values_nonneg(outs.drop_last());
    }
}

proof fn lemma_txs_out_total_nonneg(txs: Seq<Tx>)
    ensures
        0 <= spec_txs_out_total(txs),
    decreases txs.len(),
{
    if txs.len() > 0 {
        lemma_txs_out_total_nonneg(txs.drop_last());
        lemma_sum_values_nonneg(txs.last()@.outputs);
    }
}

/// A copy of a witness stack.
fn dup_witness(w: &Vec<Vec<u8>>) -> (r: Vec<Vec<u8>>)
    ensures
        r@.len() == w@.len(),
        forall|i: int| 0 <= i < w@.len() ==> (#[trigger] r@[i])@ == w@[i]@,
{
    let mut r: Vec<Vec<u8>> = Vec::new();
    let mut i: usize = 0;
    while i < w.len()
        invariant
            i <= w@.len(),
            r@.len() == i,
            forall|k: int| 0 <= k < i ==> (#[trigger] r@[k])@ == w@[k]@,
        decreases w.len() - i,
    {
        r.push(dup(&w[i]));
        i += 1;
    }
    r
}

/// A copy of an input, witness included.
fn clone_txin(t: &TxIn) -> (r: TxIn)
    ensures
        r@ == t@,
        t.wf() ==> r.wf(),
{
    let r = TxIn { prevout: t.prevout.clone(), witness: dup_witness(&t.witness) };
    proof {
        assert(r@.witness =~= t@.witness);
        assert(r@ =~= t@);
        if t.wf() {
            assert(forall|i: int| 0 <= i < r.witness@.len()
                ==> (#[trigger] r.witness@[i])@.len() <= 4_000_000);
            assert(r.wf());
        }
    }
    r
}

/// Sums the values of a transaction's outputs.
pub fn tx_out_sum(tx: &Tx) -> (r: u64)
    requires
        0 <= sum_values(tx@.outputs) <= 2_100_000_000_000_000,
    ensures
        r == sum_values(tx@.outputs),
{
    let mut total: u64 = 0;
    let mut i: usize = 0;
    while i < tx.outputs.len()
        invariant
            i <= tx@.outputs.len(),
            total == sum_values(tx@.outputs.subrange(0, i as int)),
            sum_values(tx@.outputs) <= 2_100_000_000_000_000,
            0 <= total <= 2_100_000_000_000_000,
        decreases tx.outputs.len() - i,
    {
        proof {
            assert(tx@.outputs[i as int] == tx.outputs@[i as int]@);
            let now = tx@.outputs.subrange(0, i + 1);
            assert(now.drop_last() =~= tx@.outputs.subrange(0, i as int));
            assert(now.last() == tx@.outputs[i as int]);
            lemma_sum_split(tx@.outputs, i + 1);
            lemma_sum_rest_nonneg(tx@.outputs, i + 1);
            lemma_sum_values_nonneg(now);
        }
        total = total + tx.outputs[i].value;
        i += 1;
    }
    proof {
        assert(tx@.outputs.subrange(0, tx@.outputs.len() as int) =~= tx@.outputs);
    }
    total
}

/// Value of the outputs from position `from` on.
pub open spec fn sum_values_rest(outs: Seq<TxOutV>, from: int) -> int
    decreases outs.len() - from when 0 <= from <= outs.len()
{
    if from < 0 || from >= outs.len() {
        0
    } else {
        outs[from].value + sum_values_rest(outs, from + 1)
    }
}

proof fn lemma_sum_rest_nonneg(outs: Seq<TxOutV>, from: int)
    requires
        0 <= from <= outs.len(),
    ensures
        0 <= sum_values_rest(outs, from),
    decreases outs.len() - from,
{
    if from < outs.len() {
        lemma_sum_rest_nonneg(outs, from + 1);
    }
}

/// The prefix-suffix split of the output total.
proof fn lemma_sum_split(outs: Seq<TxOutV>, i: int)
    requires
        0 <= i <= outs.len(),
    ensures
        sum_values(outs.subrange(0, i)) + sum_values_rest(outs, i) == sum_values(outs),
    decreases outs.len() - i,
{
    if i == outs.len() {
        assert(outs.subrange(0, i) =~= outs);
    } else {
        lemma_sum_split(outs, i + 1);
        let now = outs.subrange(0, i + 1);
        assert(now.drop_last() =~= outs.subrange(0, i));
        assert(now.last() == outs[i]);
    }
}

impl Burt {
    /// Sums the wallet values of the transaction's inputs.
    pub fn get_amount(tx: &Tx, utxos: &Vec<UtxoEntry>) -> (r: Result<u64, PlanError>)
        requires
            tx@.inputs.len() <= 8_000,
            spec_utxo_sum(seq_views(utxos@)) <= 2_100_000_000_000_000,
        ensures
            r matches Ok(v) ==> v == spec_in_sum(tx@.inputs, seq_views(utxos@)),
            r matches Ok(v) ==> v <= 16_800_000_000_000_000_000,
            r is Ok <==> (forall|i: int| 0 <= i < tx@.inputs.len()
                ==> spec_find_utxo(seq_views(utxos@), (#[trigger] tx@.inputs[i]).prevout) is Some),
            r matches Err(e) ==> e == PlanError::StaleTransferAnchor,
    {
        crate::cancel::Cancel::get_amount(tx, utxos)
    }

    /// Concatenates the inputs of the planned transactions into one
    /// transaction paying `out_spk`, keeping the witnesses so the virtual
    /// size reflects the consolidated spends as signed; also sums what they
    /// paid out. The caps on the list are arithmetic limits: at most five
    /// thousand inputs keep the drawn total within sixty-four bits even at
    /// the coin-supply bound per entry.
    pub fn build_burt_transaction(fee_rate: FeeRate, burt_txs: &Vec<Tx>, out_spk: &Vec<u8>)
        -> (r: Result<(Tx, u64, u64, u64), PlanError>)
        requires
            fee_rate.wf(),
            burt_txs@.len() <= 50,
            forall|t: int| 0 <= t < burt_txs@.len() ==> (#[trigger] burt_txs@[t]).wf(),
            forall|t: int| 0 <= t < burt_txs@.len()
                ==> (#[trigger] burt_txs@[t])@.inputs.len() <= 100,
            0 <= spec_txs_out_total(burt_txs@) <= 2_100_000_000_000_000,
            out_spk@.len() <= 10_000,
        ensures
            r matches Ok(p) ==> {
                &&& p.0.wf()
                &&& p.0@.inputs == spec_concat_ins(burt_txs@)
                &&& p.0@.outputs == seq![TxOutV { value: 0u64, spk: out_spk@ }]
                &&& p.1 == spec_fee(spec_vsize(p.0@), fee_rate)
                &&& p.2 == spec_txs_out_total(burt_txs@)
                &&& p.3 == spec_vsize(p.0@)
                &&& p.1 <= 200_000_000_000_000
                &&& p.0@.inputs.len() <= 5_000
            },
            r matches Err(e) ==> (e == PlanError::BadRequest
                && spec_vsize(spec_burt_sized_v(burt_txs@, out_spk@)) > 200_000_000),
            r is Ok ==> spec_vsize(spec_burt_sized_v(burt_txs@, out_spk@)) <= 200_000_000,
    {
        let ghost txsv = burt_txs@;
        let mut ins: Vec<TxIn> = Vec::new();
        let mut last_output_amount: u64 = 0;
        let mut t: usize = 0;
        while t < burt_txs.len()
            invariant
                t <= txsv.len(),
                txsv == burt_txs@,
                txsv.len() <= 50,
                forall|k: int| 0 <= k < txsv.len() ==> (#[trigger] txsv[k]).wf(),
                forall|k: int| 0 <= k < txsv.len() ==> (#[trigger] txsv[k])@.inputs.len() <= 100,
                0 <= spec_txs_out_total(txsv) <= 2_100_000_000_000_000,
                seq_views(ins@) == spec_concat_ins(txsv.take(t as int)),
                ins@.len() <= t * 100,
                forall|k: int| 0 <= k < ins@.len() ==> (#[trigger] ins@[k]).wf(),
                last_output_amount == spec_txs_out_total(txsv.take(t as int)),
                0 <= last_output_amount <= 2_100_000_000_000_000,
            decreases burt_txs.len() - t,
        {
            let ghost pre_ins = seq_views(ins@);
            let tx = &burt_txs[t];
            proof {
                assert(txsv[t as int] == tx);
                lemma_sum_values_nonneg(tx@.outputs);
                lemma_txs_split(txsv, t as int);
                lemma_txs_split(txsv, t + 1);
                lemma_txs_rest_nonneg(txsv, t as int);
                lemma_txs_rest_nonneg(txsv, t + 1);
                lemma_txs_out_total_nonneg(txsv.take(t + 1));
            }
            proof {
                assert(seq_views(ins@) =~= pre_ins + tx@.inputs.subrange(0, 0));
            }
            let mut j: usize = 0;
            while j < tx.inputs.len()
                invariant
                    j <= tx@.inputs.len(),
                    tx.wf(),
                    tx@.inputs.len() <= 100,
                    pre_ins.len() <= 5_000,
                    seq_views(ins@) == pre_ins + tx@.inputs.subrange(0, j as int),
                    ins@.len() == pre_ins.len() + j,
                    forall|k: int| 0 <= k < ins@.len() ==> (#[trigger] ins@[k]).wf(),
                decreases tx.inputs.len() - j,
            {
                proof {
                    assert(tx.inputs@[j as int].wf());
                    assert(tx@.inputs[j as int] == tx.inputs@[j as int]@);
                }
                let ghost before = seq_views(ins@);
                ins.push(clone_txin(&tx.inputs[j]));
                proof {
                    assert(seq_views(ins@).drop_last() =~= before);
                    assert(seq_views(ins@).last() == tx@.inputs[j as int]);
                    assert(tx@.inputs.subrange(0, j + 1).drop_last()
                        =~= tx@.inputs.subrange(0, j as int));
                    assert(tx@.inputs.subrange(0, j + 1).last() == tx@.inputs[j as int]);
                    assert(seq_views(ins@) =~= seq_views(ins@).drop_last().push(
                        seq_views(ins@).last()));
                    assert((pre_ins + tx@.inputs.subrange(0, j as int)).push(
                        tx@.inputs[j as int]) =~= pre_ins + tx@.inputs.subrange(0, j + 1));
                    assert(seq_views(ins@) == before.push(tx@.inputs[j as int]));
                    assert(seq_views(ins@) =~= pre_ins + tx@.inputs.subrange(0, j + 1));
                }
                j += 1;
            }
            proof {
                assert(tx@.inputs.subrange(0, tx@.inputs.len() as int) =~= tx@.inputs);
                assert(txsv.take(t + 1).drop_last() =~= txsv.take(t as int));
                assert(txsv.take(t + 1).last() == txsv[t as int]);
                assert(seq_views(ins@) =~= spec_concat_ins(txsv.take(t + 1)));
            }
            let outsum = tx_out_sum(tx);
            last_output_amount = last_output_amount + outsum;
            t += 1;
        }
        proof {
            assert(txsv.take(txsv.len() as int) =~= txsv);
        }
        let mut outs: Vec<TxOut> = Vec::new();
        outs.push(TxOut { value: 0, spk: dup(out_spk) });
        let ghost insv = seq_views(ins@);
        let tx = Tx { inputs: ins, outputs: outs };
        proof {
            assert(tx@.inputs =~= insv);
            assert(tx@.outputs =~= seq![TxOutV { value: 0u64, spk: out_spk@ }]);
            assert(tx.wf());
        }
        let vs = vsize(&tx);
        if vs > 200_000_000 {
            return Err(PlanError::BadRequest);
        }
        let fee = fee_of_vsize(vs, fee_rate);
        proof {
            crate::select::fee_now_bound(vs, fee_rate);
        }
        Ok((tx, fee, last_output_amount, vs))
    }

    /// Plans the aggregation: validates the destination, concatenates the
    /// inputs, and pays the remainder over the fee to the destination.
    pub fn plan(self, net: Net, burt_txs: &Vec<Tx>, utxos: &Vec<UtxoEntry>)
        -> (r: Result<(Tx, u64, u64, u64, u64), PlanError>)
        requires
            self.destination.wf(),
            self.fee_rate.wf(),
            burt_txs@.len() <= 50,
            forall|t: int| 0 <= t < burt_txs@.len() ==> (#[trigger] burt_txs@[t]).wf(),
            forall|t: int| 0 <= t < burt_txs@.len()
                ==> (#[trigger] burt_txs@[t])@.inputs.len() <= 100,
            0 <= spec_txs_out_total(burt_txs@) <= 2_100_000_000_000_000,
            spec_utxo_sum(seq_views(utxos@)) <= 2_100_000_000_000_000,
        ensures
            r == Err::<(Tx, u64, u64, u64, u64), PlanError>(PlanError::InvalidAddress)
                <==> self.destination.net != net,
            r matches Err(e) ==> (e == PlanError::InvalidAddress
                || e == PlanError::StaleTransferAnchor || e == PlanError::Insufficient
                || e == PlanError::BadRequest),
            r == Err::<(Tx, u64, u64, u64, u64), PlanError>(PlanError::BadRequest)
                <==> (self.destination.net == net
                    && spec_vsize(spec_burt_sized_v(burt_txs@, self.destination.spk@))
                        > 200_000_000),
            r == Err::<(Tx, u64, u64, u64, u64), PlanError>(PlanError::StaleTransferAnchor)
                <==> (self.destination.net == net
                    && spec_vsize(spec_burt_sized_v(burt_txs@, self.destination.spk@))
                        <= 200_000_000
                    && exists|i: int| 0 <= i < spec_concat_ins(burt_txs@).len()
                        && spec_find_utxo(seq_views(utxos@),
                            (#[trigger] spec_concat_ins(burt_txs@)[i]).prevout) is None),
            r == Err::<(Tx, u64, u64, u64, u64), PlanError>(PlanError::Insufficient)
                <==> (self.destination.net == net
                    && spec_vsize(spec_burt_sized_v(burt_txs@, self.destination.spk@))
                        <= 200_000_000
                    && (forall|i: int| 0 <= i < spec_concat_ins(burt_txs@).len()
                        ==> spec_find_utxo(seq_views(utxos@),
                            (#[trigger] spec_concat_ins(burt_txs@)[i]).prevout) is Some)
                    && spec_in_sum(spec_concat_ins(burt_txs@), seq_views(utxos@))
                        <= spec_fee(spec_vsize(spec_burt_sized_v(burt_txs@,
                            self.destination.spk@)), self.fee_rate)),
            // An empty list has nothing to sweep.
            burt_txs@.len() == 0 ==> r is Err,
            r matches Ok(p) ==> {
                let (tx, fee, vs, total, paid_out) = p;
                &&& tx.wf()
                &&& tx@.inputs.len() == spec_concat_ins(burt_txs@).len()
                &&& forall|i: int| 0 <= i < tx@.inputs.len() ==> (#[trigger] tx@.inputs[i]).prevout
                        == spec_concat_ins(burt_txs@)[i].prevout
                &&& forall|i: int| 0 <= i < tx@.inputs.len()
                        ==> (#[trigger] tx@.inputs[i]).witness.len() == 0
                &&& tx@.outputs.len() == 1
                &&& tx@.outputs[0].spk == self.destination.spk@
                &&& total == spec_in_sum(spec_concat_ins(burt_txs@), seq_views(utxos@))
                &&& paid_out == spec_txs_out_total(burt_txs@)
                &&& total > fee
                &&& tx@.outputs[0].value == total - fee
                &&& total - sum_values(tx@.outputs) == fee
                &&& fee == spec_fee(spec_vsize(spec_burt_sized_v(burt_txs@,
                        self.destination.spk@)), self.fee_rate)
                &&& vs == spec_vsize(spec_burt_sized_v(burt_txs@, self.destination.spk@))
                &&& tx@ == spec_cancel_tx_v(spec_prevouts(spec_concat_ins(burt_txs@)),
                        (total - fee) as u64, self.destination.spk@)
            },
    {
        if self.destination.net != net {
            return Err(PlanError::InvalidAddress);
        }
        let ghost uv = seq_views(utxos@);
        let (sized, fee, paid_out, vs) = match Self::build_burt_transaction(self.fee_rate,
            burt_txs, &self.destination.spk) {
            Ok(p) => p,
            Err(e) => {
                return Err(e);
            },
        };
        proof {
            assert(sized@ =~~= spec_burt_sized_v(burt_txs@, self.destination.spk@));
        }
        let total = match Self::get_amount(&sized, utxos) {
            Ok(v) => v,
            Err(e) => {
                proof {
                    assert(exists|i: int| 0 <= i < sized@.inputs.len()
                        && spec_find_utxo(uv, (#[trigger] sized@.inputs[i]).prevout) is None);
                    let iw = choose|i: int| 0 <= i < sized@.inputs.len()
                        && spec_find_utxo(uv, (#[trigger] sized@.inputs[i]).prevout) is None;
                    assert(spec_find_utxo(uv,
                        (#[trigger] spec_concat_ins(burt_txs@)[iw]).prevout) is None);
                }
                return Err(e);
            },
        };
        proof {
            assert forall|i: int| 0 <= i < spec_concat_ins(burt_txs@).len() implies
                spec_find_utxo(uv, (#[trigger] spec_concat_ins(burt_txs@)[i]).prevout)
                    is Some by {
                assert(spec_find_utxo(uv, (#[trigger] sized@.inputs[i]).prevout) is Some);
            }
        }
        if total <= fee {
            return Err(PlanError::Insufficient);
        }
        // The witnesses only served the sizing; the spend goes out unsigned.
        let mut ins: Vec<TxIn> = Vec::new();
        let mut i: usize = 0;
        while i < sized.inputs.len()
            invariant
                i <= sized@.inputs.len(),
                sized.wf(),
                ins@.len() == i,
                forall|k: int| 0 <= k < i ==> (#[trigger] ins@[k])@.prevout
                    == sized@.inputs[k].prevout,
                forall|k: int| 0 <= k < i ==> (#[trigger] ins@[k])@.witness.len() == 0,
                forall|k: int| 0 <= k < i ==> (#[trigger] ins@[k]).wf(),
            decreases sized.inputs.len() - i,
        {
            proof {
                assert(sized.inputs@[i as int].wf());
                assert(sized@.inputs[i as int] == sized.inputs@[i as int]@);
            }
            ins.push(TxIn { prevout: sized.inputs[i].prevout.clone(), witness: Vec::new() });
            proof {
                assert(ins@[i as int]@.witness =~= Seq::<Seq<u8>>::empty());
            }
            i += 1;
        }
        let mut outs: Vec<TxOut> = Vec::new();
        outs.push(TxOut { value: total - fee, spk: dup(&self.destination.spk) });
        let ghost insv = seq_views(ins@);
        let tx = Tx { inputs: ins, outputs: outs };
        proof {
            assert(tx@.inputs =~= insv);
            assert(tx@.outputs =~= seq![TxOutV { value: (total - fee) as u64,
                spk: self.destination.spk@ }]);
            reveal_with_fuel(sum_values, 3);
            assert(tx@.outputs.drop_last() =~= Seq::<TxOutV>::empty());
            assert(sum_values(tx@.outputs) == total - fee);
            // The prevouts are the sized spend's, so the looked-up total
            // carries over.
            lemma_in_sum_same_prevouts(tx@.inputs, sized@.inputs, seq_views(utxos@));
            assert(tx@ =~~= spec_cancel_tx_v(spec_prevouts(spec_concat_ins(burt_txs@)),
                (total - fee) as u64, self.destination.spk@));
        }
        Ok((tx, fee, vs, total, paid_out))
    }

    /// Plans the aggregation and wraps it in the signing envelope.
    pub fn run(self, net: Net, burt_txs: &Vec<Tx>, utxos: &Vec<UtxoEntry>)
        -> (r: Result<Output, PlanError>)
        requires
            self.destination.wf(),
            self.fee_rate.wf(),
            burt_txs@.len() <= 50,
            forall|t: int| 0 <= t < burt_txs@.len() ==> (#[trigger] burt_txs@[t]).wf(),
            forall|t: int| 0 <= t < burt_txs@.len()
                ==> (#[trigger] burt_txs@[t])@.inputs.len() <= 100,
            0 <= spec_txs_out_total(burt_txs@) <= 2_100_000_000_000_000,
            spec_utxo_sum(seq_views(utxos@)) <= 2_100_000_000_000_000,
        ensures
            r == Err::<Output, PlanError>(PlanError::InvalidAddress)
                <==> self.destination.net != net,
            r == Err::<Output, PlanError>(PlanError::BadRequest)
                <==> (self.destination.net == net
                    && spec_vsize(spec_burt_sized_v(burt_txs@, self.destination.spk@))
                        > 200_000_000),
            r == Err::<Output, PlanError>(PlanError::StaleTransferAnchor)
                <==> (self.destination.net == net
                    && spec_vsize(spec_burt_sized_v(burt_txs@, self.destination.spk@))
                        <= 200_000_000
                    && exists|i: int| 0 <= i < spec_concat_ins(burt_txs@).len()
                        && spec_find_utxo(seq_views(utxos@),
                            (#[trigger] spec_concat_ins(burt_txs@)[i]).prevout) is None),
            r == Err::<Output, PlanError>(PlanError::Insufficient)
                <==> (self.destination.net == net
                    && spec_vsize(spec_burt_sized_v(burt_txs@, self.destination.spk@))
                        <= 200_000_000
                    && (forall|i: int| 0 <= i < spec_concat_ins(burt_txs@).len()
                        ==> spec_find_utxo(seq_views(utxos@),
                            (#[trigger] spec_concat_ins(burt_txs@)[i]).prevout) is Some)
                    && spec_in_sum(spec_concat_ins(burt_txs@), seq_views(utxos@))
                        <= spec_fee(spec_vsize(spec_burt_sized_v(burt_txs@,
                            self.destination.spk@)), self.fee_rate)),
            burt_txs@.len() == 0 ==> r is Err,
            r matches Ok(o) ==> {
                let value = spec_in_sum(spec_concat_ins(burt_txs@), seq_views(utxos@));
                let fee = spec_fee(spec_vsize(spec_burt_sized_v(burt_txs@,
                    self.destination.spk@)), self.fee_rate);
                let ops = spec_prevouts(spec_concat_ins(burt_txs@));
                let sweep = spec_cancel_tx_v(ops, (value - fee) as u64, self.destination.spk@);
                let wu = spec_wu_of(ops, seq_views(utxos@), self.destination.spk@);
                &&& o.commit_fee == o.network_fee
                &&& o.network_fee == fee
                &&& o.commit_vsize == spec_vsize(spec_burt_sized_v(burt_txs@,
                        self.destination.spk@))
                &&& o.service_fee == 0
                &&& o.last_output_amount == spec_txs_out_total(burt_txs@)
                &&& o.transaction@ == spec_hex(spec_psbt(tx_ser_of(sweep), wu, 1))
                &&& o.commit_custom@.len() == 1 + 2 * ops.len()
                &&& o.commit_custom@[0]@ == spec_hex(spec_companion(wu, tx_ser_of(sweep)))
                &&& (forall|i: int| 0 <= i < ops.len()
                    ==> (#[trigger] o.commit_custom@[1 + 2 * i])@
                        == spec_txid_display(ops[i].txid))
                &&& (forall|i: int| 0 <= i < ops.len()
                    ==> (#[trigger] o.commit_custom@[2 + 2 * i])@
                        == spec_dec(ops[i].vout as nat))
            },
            r matches Err(e) ==> (e == PlanError::InvalidAddress
                || e == PlanError::StaleTransferAnchor || e == PlanError::Insufficient
                || e == PlanError::BadRequest),
    {
        let destination = self.destination.clone();
        let (tx, fee, vs, total, paid_out) = match self.plan(net, burt_txs, utxos) {
            Ok(p) => p,
            Err(e) => {
                return Err(e);
            },
        };
        let wus = build_witness_utxos(&tx, utxos, &destination.spk);
        let psbt = psbt_ser(&tx, &wus);
        let transaction = hex_encode(&psbt);
        let commit_custom = companion_list(&tx, &wus);
        proof {
            assert(spec_prevouts(tx@.inputs)
                =~= spec_prevouts(spec_concat_ins(burt_txs@)));
            assert(spec_outs_view(wus@) =~= spec_wu_of(spec_prevouts(spec_concat_ins(burt_txs@)),
                seq_views(utxos@), destination.spk@));
        }
        Ok(Output {
            transaction,
            commit_custom,
            network_fee: fee,
            service_fee: 0,
            commit_vsize: vs,
            commit_fee: fee,
            last_output_amount: paid_out,
        })
    }
}

/// The paid-out total of the transactions from position `from` on.
pub open spec fn txs_out_rest(txs: Seq<Tx>, from: int) -> int
    decreases txs.len() - from when 0 <= from <= txs.len()
{
    if from < 0 || from >= txs.len() {
        0
    } else {
        sum_values(txs[from]@.outputs) + txs_out_rest(txs, from + 1)
    }
}

proof fn lemma_txs_rest_nonneg(txs: Seq<Tx>, from: int)
    requires
        0 <= from <= txs.len(),
    ensures
        0 <= txs_out_rest(txs, from),
    decreases txs.len() - from,
{
    if from < txs.len() {
        lemma_txs_rest_nonneg(txs, from + 1);
        lemma_sum_values_nonneg(txs[from]@.outputs);
    }
}

proof fn lemma_txs_split(txs: Seq<Tx>, t: int)
    requires
        0 <= t <= txs.len(),
    ensures
        spec_txs_out_total(txs.take(t)) + txs_out_rest(txs, t) == spec_txs_out_total(txs),
    decreases txs.len() - t,
{
    if t == txs.len() {
        assert(txs.take(t) =~= txs);
    } else {
        lemma_txs_split(txs, t + 1);
        let now = txs.take(t + 1);
        assert(now.drop_last() =~= txs.take(t));
        assert(now.last() == txs[t]);
    }
}

/// Inputs with the same prevouts draw the same total from the wallet.
proof fn lemma_in_sum_same_prevouts(a: Seq<TxInV>, b: Seq<TxInV>, uv: Seq<crate::types::UtxoEntryV>)
    requires
        a.len() == b.len(),
        forall|i: int| 0 <= i < a.len() ==> (#[trigger] a[i]).prevout == b[i].prevout,
    ensures
        spec_in_sum(a, uv) == spec_in_sum(b, uv),
    decreases a.len(),
{
    if a.len() > 0 {
        lemma_in_sum_same_prevouts(a.drop_last(), b.drop_last(), uv);
        assert(a.last().prevout == b.last().prevout);
    }
}

} // verus!
