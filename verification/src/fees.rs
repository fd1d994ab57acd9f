//! Virtual size, weight, fee and dust arithmetic for planned transactions,
//! following the BIP141 weight rules and the standard relay dust rule.

use vstd::prelude::*;
use crate::types::{Tx, TxV, TxInV, TxOutV, FeeRate};

verus! {

/// Length in bytes of the variable-length integer encoding of `n`.
pub open spec fn spec_varint_len(n: nat) -> nat {
    if n < 0xFD {
        1
    } else if n <= 0xFFFF {
        3
    } else if n <= 0xFFFF_FFFF {
        5
    } else {
        9
    }
}

pub fn varint_len(n: u64) -> (r: u64)
    ensures
        r == spec_varint_len(n as nat),
{
    if n < 0xFD {
        1
    } else if n <= 0xFFFF {
        3
    } else if n <= 0xFFFF_FFFF {
        5
    } else {
        9
    }
}

/// Serialized size of one output: value, script length prefix, script.
pub open spec fn spec_txout_size(o: TxOutV) -> nat {
    8 + spec_varint_len(o.spk.len()) + o.spk.len()
}

/// Serialized size of all outputs, without the leading count.
pub open spec fn spec_outputs_size(outs: Seq<TxOutV>) -> nat
    decreases outs.len(),
{
    if outs.len() == 0 {
        0
    } else {
        spec_outputs_size(outs.drop_last()) + spec_txout_size(outs.last())
    }
}

/// Serialized size of one witness stack: item count, then each item with a
/// length prefix.
pub open spec fn spec_witness_items_size(w: Seq<Seq<u8>>) -> nat
    decreases w.len(),
{
    if w.len() == 0 {
        0
    } else {
        spec_witness_items_size(w.drop_last()) + spec_varint_len(w.last().len()) + w.last().len()
    }
}

pub open spec fn spec_witness_size(w: Seq<Seq<u8>>) -> nat {
    spec_varint_len(w.len()) + spec_witness_items_size(w)
}

/// Base (non-witness) serialized size of one input: outpoint, empty script
/// sig with its length prefix, sequence number.
pub open spec fn spec_txin_base_size() -> nat {
    32 + 4 + 1 + 4
}

/// Number of inputs that carry a non-empty witness.
pub open spec fn spec_witnessed_inputs(ins: Seq<TxInV>) -> nat
    decreases ins.len(),
{
    if ins.len() == 0 {
        0
    } else {
        spec_witnessed_inputs(ins.drop_last()) + if ins.last().witness.len() > 0 { 1nat } else { 0nat }
    }
}

/// Total serialized size of the witnesses of inputs that have one.
pub open spec fn spec_witnesses_size(ins: Seq<TxInV>) -> nat
    decreases ins.len(),
{
    if ins.len() == 0 {
        0
    } else {
        spec_witnesses_size(ins.drop_last()) + if ins.last().witness.len() > 0 {
            spec_witness_size(ins.last().witness)
        } else {
            0nat
        }
    }
}

/// Serialized size of the transaction with witness data stripped.
pub open spec fn spec_stripped_size(t: TxV) -> nat {
    4 + spec_varint_len(t.inputs.len()) + t.inputs.len() * spec_txin_base_size()
        + spec_varint_len(t.outputs.len()) + spec_outputs_size(t.outputs) + 4
}

/// BIP141 weight: four times the stripped size, plus the witness bytes, one
/// byte for each witness-less input's empty stack, and the two marker bytes,
/// when any input carries a witness.
pub open spec fn spec_weight(t: TxV) -> nat {
    if spec_witnessed_inputs(t.inputs) == 0 {
        4 * spec_stripped_size(t)
    } else {
        (4 * spec_stripped_size(t) + spec_witnesses_size(t.inputs)
            + (t.inputs.len() - spec_witnessed_inputs(t.inputs)) + 2) as nat
    }
}

/// Virtual size: the weight divided by four, rounded up.
pub open spec fn spec_vsize(t: TxV) -> nat {
    (spec_weight(t) + 3) / 4
}

/// Fee in satoshis for a transaction of `vsize` virtual bytes at a fee rate
/// in millisatoshis per virtual byte, rounded up.
pub open spec fn spec_fee(vsize: nat, rate: FeeRate) -> nat {
    ((vsize * rate.msat_per_vb + 999) / 1000) as nat
}

proof fn lemma_witnessed_le(ins: Seq<TxInV>)
    ensures
        spec_witnessed_inputs(ins) <= ins.len(),
    decreases ins.len(),
{
    if ins.len() > 0 {
        lemma_witnessed_le(ins.drop_last());
    }
}

/// Exact count of witnessed inputs and total witness size, computed together.
fn witness_totals(tx: &Tx) -> (r: (u64, u64))
    requires
        tx.wf(),
    ensures
        r.0 == spec_witnessed_inputs(tx@.inputs),
        r.1 == spec_witnesses_size(tx@.inputs),
        r.0 <= tx@.inputs.len(),
        r.1 <= tx@.inputs.len() * 64_001_000,
{
    let mut count: u64 = 0;
    let mut total: u64 = 0;
    let mut i: usize = 0;
    while i < tx.inputs.len()
        invariant
            tx.wf(),
            i <= tx.inputs.len(),
            count == spec_witnessed_inputs(tx@.inputs.subrange(0, i as int)),
            total == spec_witnesses_size(tx@.inputs.subrange(0, i as int)),
            count <= i,
            total <= i * 64_001_000,
        decreases tx.inputs.len() - i,
    {
        let ghost pre = tx@.inputs.subrange(0, i as int);
        let w = &tx.inputs[i].witness;
        assert(tx@.inputs[i as int] == tx.inputs@[i as int]@);
        if w.len() > 0 {
            let mut wsize: u64 = varint_len(w.len() as u64);
            let mut j: usize = 0;
            while j < w.len()
                invariant
                    tx.wf(),
                    i < tx.inputs.len(),
                    w == &tx.inputs[i as int].witness,
                    j <= w.len(),
                    wsize == spec_varint_len(w@.len())
                        + spec_witness_items_size(tx@.inputs[i as int].witness.subrange(0, j as int)),
                    wsize <= 9 + j * 4_000_009,
                decreases w.len() - j,
            {
                let ghost prew = tx@.inputs[i as int].witness.subrange(0, j as int);
                assert(tx.inputs@[i as int].wf());
                assert(tx@.inputs[i as int].witness[j as int] == w@[j as int]@);
                assert(w@[j as int]@.len() <= 4_000_000);
                wsize = wsize + varint_len(w[j].len() as u64) + w[j].len() as u64;
                proof {
                    let now = tx@.inputs[i as int].witness.subrange(0, j + 1);
                    assert(now.drop_last() =~= prew);
                    assert(now.last() == tx@.inputs[i as int].witness[j as int]);
                }
                j += 1;
            }
            proof {
                assert(tx@.inputs[i as int].witness.subrange(0, w@.len() as int)
                    =~= tx@.inputs[i as int].witness);
            }
            assert(wsize <= 64_001_000) by {
                assert(tx.inputs@[i as int].wf());
                assert(w@.len() <= 16);
            }
            count = count + 1;
            total = total + wsize;
        }
        proof {
            let now = tx@.inputs.subrange(0, i + 1);
            assert(now.drop_last() =~= pre);
            assert(now.last() == tx@.inputs[i as int]);
        }
        i += 1;
    }
    proof {
        assert(tx@.inputs.subrange(0, tx@.inputs.len() as int) =~= tx@.inputs);
    }
    (count, total)
}

/// Serialized size of all outputs, without the leading count.
fn outputs_size(tx: &Tx) -> (r: u64)
    requires
        tx.wf(),
    ensures
        r == spec_outputs_size(tx@.outputs),
        r <= tx@.outputs.len() * 10_017,
{
    let mut total: u64 = 0;
    let mut i: usize = 0;
    while i < tx.outputs.len()
        invariant
            tx.wf(),
            i <= tx.outputs.len(),
            total == spec_outputs_size(tx@.outputs.subrange(0, i as int)),
            total <= i * 10_017,
        decreases tx.outputs.len() - i,
    {
        let ghost pre = tx@.outputs.subrange(0, i as int);
        assert(tx.outputs@[i as int].wf());
        assert(tx@.outputs[i as int] == tx.outputs@[i as int]@);
        total = total + 8 + varint_len(tx.outputs[i].spk.len() as u64) + tx.outputs[i].spk.len() as u64;
        proof {
            let now = tx@.outputs.subrange(0, i + 1);
            assert(now.drop_last() =~= pre);
            assert(now.last() == tx@.outputs[i as int]);
        }
        i += 1;
    }
    proof {
        assert(tx@.outputs.subrange(0, tx@.outputs.len() as int) =~= tx@.outputs);
    }
    total
}

/// BIP141 weight of a planned transaction.
pub fn weight(tx: &Tx) -> (r: u64)
    requires
        tx.wf(),
    ensures
        r == spec_weight(tx@),
        r <= 14_000_000_000_000,
{
    let (witnessed, wit_size) = witness_totals(tx);
    let outs = outputs_size(tx);
    let n_in = tx.inputs.len() as u64;
    let n_out = tx.outputs.len() as u64;
    let stripped: u64 = 4 + varint_len(n_in) + n_in * 41 + varint_len(n_out) + outs + 4;
    proof {
        lemma_witnessed_le(tx@.inputs);
    }
    if witnessed == 0 {
        4 * stripped
    } else {
        4 * stripped + wit_size + (n_in - witnessed) + 2
    }
}

/// Virtual size of a planned transaction.
pub fn vsize(tx: &Tx) -> (r: u64)
    requires
        tx.wf(),
    ensures
        r == spec_vsize(tx@),
        r <= 3_500_000_000_000,
{
    (weight(tx) + 3) / 4
}

/// Fee for a transaction of `vsize` virtual bytes, rounding up.
pub fn fee_of_vsize(vsize: u64, rate: FeeRate) -> (r: u64)
    requires
        rate.wf(),
        vsize <= 10_000_000_000,
    ensures
        r == spec_fee(vsize as nat, rate),
{
    proof {
        assert(vsize * rate.msat_per_vb <= 10_000_000_000 * 1_000_000_000) by (nonlinear_arith)
            requires
                vsize <= 10_000_000_000,
                rate.msat_per_vb <= 1_000_000_000,
        ;
    }
    (vsize * rate.msat_per_vb + 999) / 1000
}

/// Whether the script is a witness program: a version opcode (zero or one
/// through sixteen) followed by a single push of the rest of the script.
pub open spec fn spec_is_witness_program(spk: Seq<u8>) -> bool {
    &&& 4 <= spk.len() <= 42
    &&& (spk[0] == 0u8 || (0x51u8 <= spk[0] && spk[0] <= 0x60u8))
    &&& 2 <= spk[1] <= 40
    &&& spk[1] == spk.len() - 2
}

/// Whether the script starts with OP_RETURN.
pub open spec fn spec_is_op_return(spk: Seq<u8>) -> bool {
    spk.len() > 0 && spk[0] == 0x6au8
}

/// Dust threshold of an output script under the standard relay rule: three
/// satoshis per virtual byte over the cost of creating and later spending
/// the output. Data-carrier outputs have no threshold.
pub open spec fn spec_dust_threshold(spk: Seq<u8>) -> nat {
    if spec_is_op_return(spk) {
        0
    } else if spec_is_witness_program(spk) {
        3 * (32 + 4 + 1 + 26 + 4 + 8 + spec_varint_len(spk.len()) + spk.len())
    } else {
        3 * (32 + 4 + 1 + 107 + 4 + 8 + spec_varint_len(spk.len()) + spk.len())
    }
}

pub fn dust_threshold(spk: &Vec<u8>) -> (r: u64)
    requires
        spk@.len() <= 10_000,
    ensures
        r == spec_dust_threshold(spk@),
{
    let n = spk.len() as u64;
    let is_op_return = spk.len() > 0 && spk[0] == 0x6a;
    let is_witness = 4 <= spk.len() && spk.len() <= 42
        && (spk[0] == 0 || (0x51 <= spk[0] && spk[0] <= 0x60))
        && 2 <= spk[1] && spk[1] <= 40
        && spk[1] as usize == spk.len() - 2;
    if is_op_return {
        0
    } else if is_witness {
        3 * (75 + varint_len(n) + n)
    } else {
        3 * (156 + varint_len(n) + n)
    }
}

} // verus!
