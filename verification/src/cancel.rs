//! The cancel planner: spend a list of pending commit outputs back to the
//! source address in a single output, net of the network fee.

use vstd::prelude::*;
use crate::types::{
    Tx, TxIn, TxOut, TxOutV, OutPoint, UtxoEntry, AddressInfo, AddrKind, Net, FeeRate,
    PlanError, seq_views, sum_values, spec_utxo_sum,
};
use crate::fees::{spec_fee, fee_of_vsize};
use crate::select::{
    spec_est_vsize, est_vsize, spec_find_utxo, spec_in_sum, spec_ops_value, spec_wu_of,
    spec_prevouts, lemma_in_sum_is_ops_value, find_value, lemma_find_le_sum, fee_now_bound,
};
use crate::types::{TxV, TxInV};
use crate::bytes::{spec_hex, spec_dec};
use crate::ser::{build_witness_utxos, spec_psbt, spec_companion, spec_outs_view,
    spec_txid_display};
use crate::crypto::tx_ser_of;
use crate::mint::{wlen_for, spec_wlen};
use crate::bytes::dup;
use crate::ser::{psbt_ser, companion_list};

verus! {

/// A cancel request: the source address, the outpoints to sweep, and the
/// fee rate.
pub struct Cancel {
    pub source: AddressInfo,
    pub inputs: Vec<OutPoint>,
    pub fee_rate: FeeRate,
}

/// What a cancel hands back: the partial envelope, the companion list, and
/// the sizing.
pub struct Output {
    pub transaction: Vec<u8>,
    pub commit_custom: Vec<Vec<u8>>,
    pub network_fee: u64,
    pub commit_vsize: u64,
    pub commit_fee: u64,
}

/// The single-output shape a cancel pays to.
pub open spec fn spec_cancel_outs(spk: Seq<u8>) -> Seq<TxOutV> {
    seq![TxOutV { value: 0u64, spk: spk }]
}

/// The sweep's exact shape: the given outpoints in order, unsigned, and a
/// single output.
pub open spec fn spec_cancel_tx_v(inputs: Seq<crate::types::OutPointV>, value: u64, spk: Seq<u8>) -> TxV {
    TxV {
        inputs: Seq::new(inputs.len(), |i: int| TxInV { prevout: inputs[i], witness: Seq::empty() }),
        outputs: seq![TxOutV { value: value, spk: spk }],
    }
}

/// Whether the source address fits the network and the supported types.
pub open spec fn spec_cancel_addr_ok(source: crate::types::AddressInfo, net: Net) -> bool {
    source.net == net && (source.kind == AddrKind::P2tr || source.kind == AddrKind::P2wpkh)
}

/// The fee a cancel of `n` inputs pays.
pub open spec fn spec_cancel_fee(n: nat, kind: AddrKind, spk: Seq<u8>, rate: FeeRate) -> nat {
    spec_fee(spec_est_vsize(n, spec_wlen(kind), spec_cancel_outs(spk)), rate)
}

impl Cancel {
    /// Sums the wallet values of the transaction's inputs.
    pub fn get_amount(tx: &Tx, utxos: &Vec<UtxoEntry>) -> (r: Result<u64, PlanError>)
        requires
            tx@.inputs.len() <= 8_000,
            spec_utxo_sum(seq_views(utxos@)) <= 2_100_000_000_000_000,
        ensures
            r matches Ok(v) ==> v == spec_in_sum(tx@.inputs, seq_views(utxos@)),
            r matches Ok(v) ==> v <= 16_800_000_000_000_000_000,
            r is Ok <==> (forall|i: int| 0 <= i < tx@.inputs.len()
                ==> spec_find_utxo(seq_views(utxos@), (#[trigger] tx@.inputs[i]).prevout) is Some),
            r matches Err(e) ==> e == PlanError::StaleTransferAnchor,
    {
        let ghost uv = seq_views(utxos@);
        let mut total: u64 = 0;
        let mut i: usize = 0;
        while i < tx.inputs.len()
            invariant
                i <= tx@.inputs.len(),
                tx@.inputs.len() <= 8_000,
                uv == seq_views(utxos@),
                spec_utxo_sum(uv) <= 2_100_000_000_000_000,
                total == spec_in_sum(tx@.inputs.subrange(0, i as int), uv),
                total <= i * 2_100_000_000_000_000,
                forall|k: int| 0 <= k < i
                    ==> spec_find_utxo(uv, (#[trigger] tx@.inputs[k]).prevout) is Some,
            decreases tx.inputs.len() - i,
        {
            proof {
                assert(tx@.inputs[i as int] == tx.inputs@[i as int]@);
            }
            match find_value(utxos, &tx.inputs[i].prevout) {
                None => {
                    return Err(PlanError::StaleTransferAnchor);
                },
                Some(v) => {
                    proof {
                        lemma_find_le_sum(uv, tx@.inputs[i as int].prevout);
                    }
                    total = total + v;
                    proof {
                        let now = tx@.inputs.subrange(0, i + 1);
                        assert(now.drop_last() =~= tx@.inputs.subrange(0, i as int));
                        assert(now.last() == tx@.inputs[i as int]);
                    }
                },
            }
            i += 1;
        }
        proof {
            assert(tx@.inputs.subrange(0, tx@.inputs.len() as int) =~= tx@.inputs);
        }
        Ok(total)
    }

    /// Builds the unsigned sweep and its fee: one output to `out_spk`,
    /// sized as if every input carried the witness of the source's type.
    pub fn build_cancel_transaction(fee_rate: FeeRate, inputs: Vec<OutPoint>, out_spk: &Vec<u8>,
        input_type: AddrKind) -> (r: (Tx, u64, u64))
        requires
            fee_rate.wf(),
            inputs@.len() <= 1_000,
            forall|i: int| 0 <= i < inputs@.len() ==> (#[trigger] inputs@[i]).wf(),
            out_spk@.len() <= 10_000,
        ensures
            r.0.wf(),
            r.0@.inputs.len() == inputs@.len(),
            forall|i: int| 0 <= i < inputs@.len() ==> (#[trigger] r.0@.inputs[i]).prevout
                == inputs@[i]@,
            forall|i: int| 0 <= i < inputs@.len() ==> (#[trigger] r.0@.inputs[i]).witness.len() == 0,
            r.0@.outputs == spec_cancel_outs(out_spk@),
            r.1 == spec_cancel_fee(inputs@.len(), input_type, out_spk@, fee_rate),
            r.2 == spec_est_vsize(inputs@.len(), spec_wlen(input_type), spec_cancel_outs(out_spk@)),
            r.1 <= 200_000_000_000_000,
    {
        let ghost inpv = inputs@;
        let wlen = wlen_for(input_type);
        let mut outs: Vec<TxOut> = Vec::new();
        outs.push(TxOut { value: 0, spk: dup(out_spk) });
        proof {
            assert(seq_views(outs@) =~= spec_cancel_outs(out_spk@));
        }
        let vs = est_vsize(inputs.len() as u64, wlen, &outs);
        let fee = fee_of_vsize(vs, fee_rate);
        proof {
            fee_now_bound(vs, fee_rate);
        }
        let mut ins: Vec<TxIn> = Vec::new();
        let mut inputs = inputs;
        let mut i: usize = 0;
        let n = inputs.len();
        while i < n
            invariant
                i <= n,
                n == inpv.len(),
                inputs@ == inpv.skip(i as int),
                ins@.len() == i,
                forall|k: int| 0 <= k < inpv.len() ==> (#[trigger] inpv[k]).wf(),
                forall|k: int| 0 <= k < i ==> (#[trigger] ins@[k])@.prevout == inpv[k]@,
                forall|k: int| 0 <= k < i ==> (#[trigger] ins@[k])@.witness.len() == 0,
                forall|k: int| 0 <= k < i ==> (#[trigger] ins@[k]).wf(),
            decreases n - i,
        {
            let op = inputs.remove(0);
            proof {
                assert(op == inpv[i as int]);
                assert(inputs@ =~= inpv.skip(i + 1));
            }
            ins.push(TxIn { prevout: op, witness: Vec::new() });
            proof {
                assert(ins@[i as int]@.witness =~= Seq::<Seq<u8>>::empty());
            }
            i += 1;
        }
        let tx = Tx { inputs: ins, outputs: outs };
        proof {
            assert(tx@.outputs =~= spec_cancel_outs(out_spk@));
        }
        (tx, fee, vs)
    }

    /// Plans the cancel: validates the source address, sizes the sweep,
    /// checks the inputs cover the fee, and sets the single output to the
    /// remainder.
    pub fn plan(self, net: Net, utxos: &Vec<UtxoEntry>) -> (r: Result<(Tx, u64, u64, u64), PlanError>)
        requires
            self.source.wf(),
            self.fee_rate.wf(),
            self.inputs@.len() <= 1_000,
            forall|i: int| 0 <= i < self.inputs@.len() ==> (#[trigger] self.inputs@[i]).wf(),
            spec_utxo_sum(seq_views(utxos@)) <= 2_100_000_000_000_000,
        ensures
            r == Err::<(Tx, u64, u64, u64), PlanError>(PlanError::InvalidAddress)
                <==> !spec_cancel_addr_ok(self.source, net),
            r matches Err(e) ==> (e == PlanError::InvalidAddress
                || e == PlanError::StaleTransferAnchor || e == PlanError::Insufficient),
            r == Err::<(Tx, u64, u64, u64), PlanError>(PlanError::StaleTransferAnchor)
                <==> (spec_cancel_addr_ok(self.source, net)
                    && exists|i: int| 0 <= i < self.inputs@.len()
                        && spec_find_utxo(seq_views(utxos@),
                            #[trigger] seq_views(self.inputs@)[i]) is None),
            r == Err::<(Tx, u64, u64, u64), PlanError>(PlanError::Insufficient)
                <==> (spec_cancel_addr_ok(self.source, net)
                    && (forall|i: int| 0 <= i < self.inputs@.len()
                        ==> spec_find_utxo(seq_views(utxos@),
                            #[trigger] seq_views(self.inputs@)[i]) is Some)
                    && spec_ops_value(seq_views(self.inputs@), seq_views(utxos@))
                        <= spec_cancel_fee(self.inputs@.len(), self.source.kind,
                            self.source.spk@, self.fee_rate)),
            r is Ok <==> (spec_cancel_addr_ok(self.source, net)
                && (forall|i: int| 0 <= i < self.inputs@.len()
                    ==> spec_find_utxo(seq_views(utxos@),
                        #[trigger] seq_views(self.inputs@)[i]) is Some)
                && spec_ops_value(seq_views(self.inputs@), seq_views(utxos@))
                    > spec_cancel_fee(self.inputs@.len(), self.source.kind, self.source.spk@,
                        self.fee_rate)),
            r matches Ok(p) ==> {
                let (tx, fee, vs, total) = p;
                &&& tx.wf()
                &&& tx@.inputs.len() == self.inputs@.len()
                &&& forall|i: int| 0 <= i < self.inputs@.len()
                        ==> (#[trigger] tx@.inputs[i]).prevout == self.inputs@[i]@
                &&& forall|i: int| 0 <= i < tx@.inputs.len()
                        ==> (#[trigger] tx@.inputs[i]).witness.len() == 0
                &&& tx@.outputs.len() == 1
                &&& tx@.outputs[0].spk == self.source.spk@
                &&& total == spec_in_sum(tx@.inputs, seq_views(utxos@))
                &&& fee == spec_cancel_fee(self.inputs@.len(), self.source.kind,
                        self.source.spk@, self.fee_rate)
                &&& vs == spec_est_vsize(self.inputs@.len(), spec_wlen(self.source.kind),
                        spec_cancel_outs(self.source.spk@))
                &&& total > fee
                &&& tx@.outputs[0].value == total - fee
                &&& total - sum_values(tx@.outputs) == fee
                &&& total == spec_ops_value(seq_views(self.inputs@), seq_views(utxos@))
                &&& tx@ == spec_cancel_tx_v(seq_views(self.inputs@), (total - fee) as u64,
                        self.source.spk@)
            },
    {
        if !(self.source.net == net
            && (self.source.kind == AddrKind::P2tr || self.source.kind == AddrKind::P2wpkh)) {
            return Err(PlanError::InvalidAddress);
        }
        let ghost inpv = self.inputs@;
        let ghost uv = seq_views(utxos@);
        let (tx, fee, vs) = Self::build_cancel_transaction(self.fee_rate, self.inputs,
            &self.source.spk, self.source.kind);
        proof {
            assert(spec_prevouts(tx@.inputs) =~= seq_views(inpv));
            lemma_in_sum_is_ops_value(tx@.inputs, uv);
        }
        let total = match Self::get_amount(&tx, utxos) {
            Ok(v) => v,
            Err(e) => {
                proof {
                    assert(exists|i: int| 0 <= i < tx@.inputs.len()
                        && spec_find_utxo(uv, (#[trigger] tx@.inputs[i]).prevout) is None);
                    let iw = choose|i: int| 0 <= i < tx@.inputs.len()
                        && spec_find_utxo(uv, (#[trigger] tx@.inputs[i]).prevout) is None;
                    assert(tx@.inputs[iw].prevout == seq_views(inpv)[iw]);
                    assert(spec_find_utxo(uv, (#[trigger] seq_views(inpv)[iw])) is None);
                }
                return Err(e);
            },
        };
        proof {
            assert forall|i: int| 0 <= i < inpv.len() implies
                spec_find_utxo(uv, (#[trigger] seq_views(inpv)[i])) is Some by {
                assert(tx@.inputs[i].prevout == seq_views(inpv)[i]);
            }
        }
        if total <= fee {
            return Err(PlanError::Insufficient);
        }
        let mut tx = tx;
        let spk = match tx.outputs.pop() {
            Some(o) => o.spk,
            None => {
                return Err(PlanError::Insufficient);
            },
        };
        tx.outputs.push(TxOut { value: total - fee, spk });
        proof {
            assert(tx@.outputs =~= seq![TxOutV { value: (total - fee) as u64,
                spk: self.source.spk@ }]);
            reveal_with_fuel(sum_values, 3);
            assert(tx@.outputs.drop_last() =~= Seq::<TxOutV>::empty());
            assert(sum_values(tx@.outputs) == total - fee);
            assert(tx@.outputs.len() == 1);
            assert(tx@.outputs[0].spk == self.source.spk@);
            assert(tx@.outputs[0].value == total - fee);
            assert(tx@.inputs =~~= spec_cancel_tx_v(seq_views(inpv), (total - fee) as u64,
                self.source.spk@).inputs);
            assert(tx@ =~~= spec_cancel_tx_v(seq_views(inpv), (total - fee) as u64,
                self.source.spk@));
        }
        Ok((tx, fee, vs, total))
    }

    /// Plans the cancel and wraps it in the signing envelope: the partial
    /// transaction, the companion list, and the fee figures.
    pub fn run(self, net: Net, utxos: &Vec<UtxoEntry>) -> (r: Result<Output, PlanError>)
        requires
            self.source.wf(),
            self.fee_rate.wf(),
            self.inputs@.len() <= 1_000,
            forall|i: int| 0 <= i < self.inputs@.len() ==> (#[trigger] self.inputs@[i]).wf(),
            spec_utxo_sum(seq_views(utxos@)) <= 2_100_000_000_000_000,
        ensures
            r == Err::<Output, PlanError>(PlanError::InvalidAddress)
                <==> !spec_cancel_addr_ok(self.source, net),
            r == Err::<Output, PlanError>(PlanError::StaleTransferAnchor)
                <==> (spec_cancel_addr_ok(self.source, net)
                    && exists|i: int| 0 <= i < self.inputs@.len()
                        && spec_find_utxo(seq_views(utxos@),
                            #[trigger] seq_views(self.inputs@)[i]) is None),
            r == Err::<Output, PlanError>(PlanError::Insufficient)
                <==> (spec_cancel_addr_ok(self.source, net)
                    && (forall|i: int| 0 <= i < self.inputs@.len()
                        ==> spec_find_utxo(seq_views(utxos@),
                            #[trigger] seq_views(self.inputs@)[i]) is Some)
                    && spec_ops_value(seq_views(self.inputs@), seq_views(utxos@))
                        <= spec_cancel_fee(self.inputs@.len(), self.source.kind,
                            self.source.spk@, self.fee_rate)),
            r is Ok <==> (spec_cancel_addr_ok(self.source, net)
                && (forall|i: int| 0 <= i < self.inputs@.len()
                    ==> spec_find_utxo(seq_views(utxos@),
                        #[trigger] seq_views(self.inputs@)[i]) is Some)
                && spec_ops_value(seq_views(self.inputs@), seq_views(utxos@))
                    > spec_cancel_fee(self.inputs@.len(), self.source.kind, self.source.spk@,
                        self.fee_rate)),
            r matches Ok(o) ==> {
                let value = spec_ops_value(seq_views(self.inputs@), seq_views(utxos@));
                let fee = spec_cancel_fee(self.inputs@.len(), self.source.kind,
                    self.source.spk@, self.fee_rate);
                let sweep = spec_cancel_tx_v(seq_views(self.inputs@), (value - fee) as u64,
                    self.source.spk@);
                let wu = spec_wu_of(seq_views(self.inputs@), seq_views(utxos@),
                    self.source.spk@);
                &&& o.commit_fee == o.network_fee
                &&& o.network_fee == fee
                &&& o.commit_vsize == spec_est_vsize(self.inputs@.len(),
                        spec_wlen(self.source.kind), spec_cancel_outs(self.source.spk@))
                &&& o.transaction@ == spec_hex(spec_psbt(tx_ser_of(sweep), wu, 1))
                &&& o.commit_custom@.len() == 1 + 2 * self.inputs@.len()
                &&& o.commit_custom@[0]@ == spec_hex(spec_companion(wu, tx_ser_of(sweep)))
                &&& (forall|i: int| 0 <= i < self.inputs@.len()
                    ==> (#[trigger] o.commit_custom@[1 + 2 * i])@
                        == spec_txid_display(seq_views(self.inputs@)[i].txid))
                &&& (forall|i: int| 0 <= i < self.inputs@.len()
                    ==> (#[trigger] o.commit_custom@[2 + 2 * i])@
                        == spec_dec(seq_views(self.inputs@)[i].vout as nat))
            },
            r matches Err(e) ==> (e == PlanError::InvalidAddress
                || e == PlanError::StaleTransferAnchor || e == PlanError::Insufficient),
    {
        let ghost inpv = self.inputs@;
        let source = self.source.clone();
        let (tx, fee, vs, total) = match self.plan(net, utxos) {
            Ok(p) => p,
            Err(e) => {
                return Err(e);
            },
        };
        let wus = build_witness_utxos(&tx, utxos, &source.spk);
        let psbt = psbt_ser(&tx, &wus);
        let transaction = crate::bytes::hex_encode(&psbt);
        let commit_custom = companion_list(&tx, &wus);
        proof {
            assert(spec_prevouts(tx@.inputs) =~= seq_views(inpv));
            assert(spec_outs_view(wus@) =~= spec_wu_of(seq_views(inpv), seq_views(utxos@),
                source.spk@));
        }
        Ok(Output {
            transaction,
            commit_custom,
            network_fee: fee,
            commit_vsize: vs,
            commit_fee: fee,
        })
    }
}

} // verus!
