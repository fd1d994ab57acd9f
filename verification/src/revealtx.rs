//! Reveal transactions: sizing, building and signing the spends that
//! publish an inscription from its commit output.

use vstd::prelude::*;
use crate::types::{Tx, TxV, TxIn, TxOut, TxOutV, OutPoint, seq_views};
use crate::fees::{
    spec_varint_len, varint_len, spec_outputs_size, spec_fee, fee_of_vsize, spec_vsize,
    spec_weight, spec_witness_size, spec_witness_items_size, spec_witnessed_inputs,
    spec_witnesses_size,
};
use crate::crypto::{RevealKey, sign_reveal};

verus! {

/// Weight of a reveal as it will look signed: one input whose witness is a
/// 64-byte signature, the reveal script, and a 33-byte control block.
pub open spec fn spec_reveal_weight(slen: nat, outs: Seq<TxOutV>) -> nat {
    let stripped = 4 + 1 + 41 + spec_varint_len(outs.len()) + spec_outputs_size(outs) + 4;
    let wit = 1 + (1 + 64) + (spec_varint_len(slen) + slen) + (1 + 33);
    4 * stripped + wit + 2
}

/// Virtual size of that signed reveal.
pub open spec fn spec_reveal_vsize(slen: nat, outs: Seq<TxOutV>) -> nat {
    (spec_reveal_weight(slen, outs) + 3) / 4
}

/// Fee of a reveal with the given script length and output shape.
pub open spec fn spec_reveal_fee(slen: nat, outs: Seq<TxOutV>, rate: crate::types::FeeRate) -> nat {
    spec_fee(spec_reveal_vsize(slen, outs), rate)
}

/// Computes the virtual size of the signed reveal.
pub fn reveal_vsize(slen: u64, outs: &Vec<TxOut>) -> (r: u64)
    requires
        slen <= 4_000_000,
        outs@.len() <= 10_000,
        forall|i: int| 0 <= i < outs@.len() ==> (#[trigger] outs@[i]).spk@.len() <= 10_000,
    ensures
        r == spec_reveal_vsize(slen as nat, seq_views(outs@)),
        r <= 110_000_000,
{
    let osz = crate::select::outs_wire_size(outs);
    let stripped: u64 = 4 + 1 + 41 + varint_len(outs.len() as u64) + osz + 4;
    let wit: u64 = 1 + 65 + varint_len(slen) + slen + 34;
    (4 * stripped + wit + 2 + 3) / 4
}

/// Computes the fee of the signed reveal.
pub fn reveal_fee(slen: u64, outs: &Vec<TxOut>, rate: crate::types::FeeRate) -> (r: u64)
    requires
        slen <= 4_000_000,
        rate.wf(),
        outs@.len() <= 10_000,
        forall|i: int| 0 <= i < outs@.len() ==> (#[trigger] outs@[i]).spk@.len() <= 10_000,
    ensures
        r == spec_reveal_fee(slen as nat, seq_views(outs@), rate),
        r <= 200_000_000_000_000,
{
    let vs = reveal_vsize(slen, outs);
    proof {
        assert(vs * rate.msat_per_vb <= 200_000_000 * 1_000_000_000) by (nonlinear_arith)
            requires
                vs <= 200_000_000,
                rate.msat_per_vb <= 1_000_000_000,
        ;
    }
    fee_of_vsize(vs, rate)
}

/// The serialized output size depends only on the scripts, not the values.
pub proof fn lemma_outputs_size_spk(a: Seq<TxOutV>, b: Seq<TxOutV>)
    requires
        a.len() == b.len(),
        forall|i: int| 0 <= i < a.len() ==> (#[trigger] a[i]).spk == b[i].spk,
    ensures
        spec_outputs_size(a) == spec_outputs_size(b),
    decreases a.len(),
{
    if a.len() > 0 {
        lemma_outputs_size_spk(a.drop_last(), b.drop_last());
        assert(a.last().spk == b.last().spk);
    }
}

/// The serialized output size depends only on the script lengths.
pub proof fn lemma_outputs_size_len(a: Seq<TxOutV>, b: Seq<TxOutV>)
    requires
        a.len() == b.len(),
        forall|i: int| 0 <= i < a.len() ==> (#[trigger] a[i]).spk.len() == b[i].spk.len(),
    ensures
        spec_outputs_size(a) == spec_outputs_size(b),
    decreases a.len(),
{
    if a.len() > 0 {
        lemma_outputs_size_len(a.drop_last(), b.drop_last());
        assert(a.last().spk.len() == b.last().spk.len());
    }
}

/// Reveal sizing depends only on the output scripts' lengths.
pub proof fn lemma_reveal_size_len(slen: nat, a: Seq<TxOutV>, b: Seq<TxOutV>)
    requires
        a.len() == b.len(),
        forall|i: int| 0 <= i < a.len() ==> (#[trigger] a[i]).spk.len() == b[i].spk.len(),
    ensures
        spec_reveal_weight(slen, a) == spec_reveal_weight(slen, b),
        spec_reveal_vsize(slen, a) == spec_reveal_vsize(slen, b),
{
    lemma_outputs_size_len(a, b);
}

/// A one-input transaction whose witness is the signed reveal shape has
/// exactly the sized weight.
pub proof fn lemma_signed_reveal_vsize(t: TxV, slen: nat)
    requires
        t.inputs.len() == 1,
        t.inputs[0].witness.len() == 3,
        t.inputs[0].witness[0].len() == 64,
        t.inputs[0].witness[1].len() == slen,
        t.inputs[0].witness[2].len() == 33,
        slen <= 4_000_000,
    ensures
        spec_vsize(t) == spec_reveal_vsize(slen, t.outputs),
        spec_weight(t) == spec_reveal_weight(slen, t.outputs),
{
    reveal_with_fuel(spec_witnessed_inputs, 3);
    reveal_with_fuel(spec_witnesses_size, 3);
    reveal_with_fuel(spec_witness_items_size, 5);
    let ins = t.inputs;
    let w = ins[0].witness;
    assert(ins.drop_last() =~= Seq::<crate::types::TxInV>::empty());
    assert(ins.last() == ins[0]);
    assert(spec_witnessed_inputs(ins) == 1);
    assert(spec_witnesses_size(ins) == spec_witness_size(w));
    assert(w.drop_last().drop_last().drop_last() =~= Seq::<Seq<u8>>::empty());
    assert(w.drop_last().drop_last().last() == w[0]);
    assert(w.drop_last().last() == w[1]);
    assert(w.last() == w[2]);
    assert(spec_witness_items_size(w) == (1 + 64) + (spec_varint_len(slen) + slen) + (1 + 33));
    assert(spec_witness_size(w) == 1 + (1 + 64) + (spec_varint_len(slen) + slen) + (1 + 33));
}

/// Builds the unsigned reveal: one input spending the given outpoint, the
/// given outputs, no witness yet.
pub fn build_reveal_tx(input: OutPoint, outputs: Vec<TxOut>) -> (r: Tx)
    requires
        input.wf(),
        outputs@.len() <= 10_000,
        forall|i: int| 0 <= i < outputs@.len() ==> (#[trigger] outputs@[i]).wf(),
    ensures
        r.wf(),
        r@.inputs.len() == 1,
        r@.inputs[0].prevout == input@,
        r@.inputs[0].witness.len() == 0,
        r@.outputs == seq_views(outputs@),
{
    let ghost outs_v = seq_views(outputs@);
    let ghost inp_v = input@;
    let mut ins: Vec<TxIn> = Vec::new();
    ins.push(TxIn { prevout: input, witness: Vec::new() });
    let r = Tx { inputs: ins, outputs };
    proof {
        assert(r@.inputs[0].witness =~= Seq::<Seq<u8>>::empty());
        assert(r@.outputs =~= outs_v);
    }
    r
}

/// Signs the reveal's single input and installs the witness: signature,
/// reveal script, control block.
pub fn attach_reveal_witness(tx: Tx, key: &RevealKey, prevout: &TxOut, script: &Vec<u8>, control_block: &Vec<u8>) -> (r: Tx)
    requires
        tx.wf(),
        tx@.inputs.len() == 1,
        script@.len() <= 4_000_000,
        control_block@.len() == 33,
    ensures
        r.wf(),
        r@.inputs.len() == 1,
        r@.inputs[0].prevout == tx@.inputs[0].prevout,
        r@.outputs == tx@.outputs,
        r@.inputs[0].witness.len() == 3,
        r@.inputs[0].witness[0].len() == 64,
        r@.inputs[0].witness[1] == script@,
        r@.inputs[0].witness[2] == control_block@,
        spec_vsize(r@) == spec_reveal_vsize(script@.len(), tx@.outputs),
        spec_weight(r@) == spec_reveal_weight(script@.len(), tx@.outputs),
{
    let sig = sign_reveal(key, &tx, prevout, script);
    let ghost old_tx = tx@;
    let mut tx = tx;
    let mut witness: Vec<Vec<u8>> = Vec::new();
    witness.push(sig);
    witness.push(crate::bytes::dup(script));
    witness.push(crate::bytes::dup(control_block));
    proof {
        assert(tx.inputs@[0].wf());
    }
    let prev = tx.inputs.remove(0);
    let mut ins: Vec<TxIn> = Vec::new();
    ins.push(TxIn { prevout: prev.prevout, witness });
    let outs = tx.outputs;
    let ghost outs_v = old_tx.outputs;
    let r = Tx { inputs: ins, outputs: outs };
    proof {
        assert(r@.outputs =~= old_tx.outputs);
        assert(r@.inputs[0].witness.len() == 3);
        assert(r@.inputs[0].witness[0].len() == 64);
        assert(r@.inputs[0].witness[1] == script@);
        assert(r@.inputs[0].witness[2] == control_block@);
        assert(r@.inputs[0].prevout == old_tx.inputs[0].prevout);
        assert(r.inputs@[0].witness@.len() == 3);
        assert(r.inputs@[0].witness@[0]@.len() == 64);
        assert(r.inputs@[0].witness@[1]@.len() <= 4_000_000);
        assert(r.inputs@[0].witness@[2]@.len() == 33);
        assert(forall|j: int| 0 <= j < r.inputs@[0].witness@.len()
            ==> (#[trigger] r.inputs@[0].witness@[j]@).len() <= 4_000_000);
        assert(r.inputs@[0].wf());
        assert(forall|j: int| 0 <= j < r.inputs@.len() ==> (#[trigger] r.inputs@[j]).wf());
        assert(forall|j: int| 0 <= j < r.outputs@.len() ==> (#[trigger] r.outputs@[j]).wf());
        assert(r.wf());
        lemma_signed_reveal_vsize(r@, script@.len());
    }
    r
}

} // verus!
