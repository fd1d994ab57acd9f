//! The envelopes the planner hands to signers: the narrow partial-signed
//! transaction form (unsigned transaction plus one witness utxo per input)
//! and the companion blob of previous outputs followed by the transaction.

use vstd::prelude::*;
use crate::types::{Tx, TxOut, TxOutV, UtxoEntry, seq_views};
use crate::bytes::{spec_le_bytes, spec_varint_bytes, spec_hex, spec_rev, spec_dec};
use crate::bytes::{push_u64_le, push_varint, extend, hex_encode, rev_bytes, dec_render, dup};
use crate::crypto::{tx_ser, tx_ser_of};
use crate::select::{find_value, spec_wu_of, spec_prevouts};

verus! {

/// Consensus serialization of one output.
pub open spec fn spec_txout_ser(o: TxOutV) -> Seq<u8> {
    spec_le_bytes(o.value as nat, 8) + spec_varint_bytes(o.spk.len()) + o.spk
}

/// Appends the consensus serialization of `o`.
pub fn push_txout(dst: &mut Vec<u8>, o: &TxOut)
    ensures
        final(dst)@ == old(dst)@ + spec_txout_ser(o@),
{
    push_u64_le(dst, o.value);
    push_varint(dst, o.spk.len() as u64);
    extend(dst, &o.spk);
    proof {
        assert(dst@ =~= old(dst)@ + spec_txout_ser(o@));
    }
}

/// The per-input maps of the partial envelope: each holds one witness-utxo
/// entry and a terminator.
pub open spec fn spec_psbt_inputs(wus: Seq<TxOutV>) -> Seq<u8>
    decreases wus.len(),
{
    if wus.len() == 0 {
        Seq::empty()
    } else {
        spec_psbt_inputs(wus.drop_last()) + seq![0x01u8, 0x01u8]
            + spec_varint_bytes(spec_txout_ser(wus.last()).len()) + spec_txout_ser(wus.last())
            + seq![0x00u8]
    }
}

/// One empty map terminator per output.
pub open spec fn spec_psbt_out_seps(n: nat) -> Seq<u8>
    decreases n,
{
    if n == 0 {
        Seq::empty()
    } else {
        spec_psbt_out_seps((n - 1) as nat) + seq![0x00u8]
    }
}

/// The whole partial envelope: magic, the unsigned transaction as the one
/// global entry, a terminator, the per-input witness utxos, and one empty
/// map per output.
pub open spec fn spec_psbt(txb: Seq<u8>, wus: Seq<TxOutV>, n_out: nat) -> Seq<u8> {
    seq![0x70u8, 0x73u8, 0x62u8, 0x74u8, 0xffu8, 0x01u8, 0x00u8]
        + spec_varint_bytes(txb.len()) + txb + seq![0x00u8]
        + spec_psbt_inputs(wus) + spec_psbt_out_seps(n_out)
}

/// Ghost image of a vector of outputs.
pub open spec fn spec_outs_view(s: Seq<TxOut>) -> Seq<TxOutV> {
    Seq::new(s.len(), |i: int| s[i]@)
}

/// Serializes the partial envelope for an unsigned transaction and its
/// per-input witness utxos.
pub fn psbt_ser(tx: &Tx, wus: &Vec<TxOut>) -> (r: Vec<u8>)
    requires
        tx.wf(),
        forall|i: int| 0 <= i < tx@.inputs.len() ==> #[trigger] tx@.inputs[i].witness.len() == 0,
        wus@.len() == tx@.inputs.len(),
    ensures
        r@ == spec_psbt(tx_ser_of(tx@), spec_outs_view(wus@), tx@.outputs.len()),
{
    let txb = tx_ser(tx);
    let mut r: Vec<u8> = Vec::new();
    r.push(0x70);
    r.push(0x73);
    r.push(0x62);
    r.push(0x74);
    r.push(0xff);
    r.push(0x01);
    r.push(0x00);
    push_varint(&mut r, txb.len() as u64);
    extend(&mut r, &txb);
    r.push(0x00);
    let ghost head = seq![0x70u8, 0x73u8, 0x62u8, 0x74u8, 0xffu8, 0x01u8, 0x00u8]
        + spec_varint_bytes(txb@.len()) + txb@ + seq![0x00u8];
    proof {
        assert(r@ =~= head);
        assert(spec_outs_view(wus@).subrange(0, 0) =~= Seq::<TxOutV>::empty());
    }
    let mut i: usize = 0;
    while i < wus.len()
        invariant
            i <= wus@.len(),
            r@ == head + spec_psbt_inputs(spec_outs_view(wus@).subrange(0, i as int)),
        decreases wus.len() - i,
    {
        let ghost pre = spec_outs_view(wus@).subrange(0, i as int);
        r.push(0x01);
        r.push(0x01);
        let mut ob: Vec<u8> = Vec::new();
        push_txout(&mut ob, &wus[i]);
        push_varint(&mut r, ob.len() as u64);
        extend(&mut r, &ob);
        r.push(0x00);
        proof {
            let now = spec_outs_view(wus@).subrange(0, i + 1);
            assert(now.drop_last() =~= pre);
            assert(now.last() == wus@[i as int]@);
            assert(r@ =~= head + spec_psbt_inputs(now));
        }
        i += 1;
    }
    proof {
        assert(spec_outs_view(wus@).subrange(0, wus@.len() as int) =~= spec_outs_view(wus@));
    }
    let ghost mid = r@;
    let mut k: usize = 0;
    while k < tx.outputs.len()
        invariant
            k <= tx.outputs@.len(),
            r@ == mid + spec_psbt_out_seps(k as nat),
        decreases tx.outputs.len() - k,
    {
        r.push(0x00);
        proof {
            assert(r@ =~= mid + spec_psbt_out_seps((k + 1) as nat));
        }
        k += 1;
    }
    proof {
        assert(r@ =~= spec_psbt(tx_ser_of(tx@), spec_outs_view(wus@), tx@.outputs.len()));
    }
    r
}

/// The previous outputs of a transaction's inputs followed by the
/// transaction itself: the companion form handed to signers that do not
/// parse the partial envelope.
pub open spec fn spec_companion(wus: Seq<TxOutV>, txb: Seq<u8>) -> Seq<u8> {
    spec_varint_bytes(wus.len()) + spec_txouts_ser(wus) + txb
}

/// Concatenated serializations of a list of outputs.
pub open spec fn spec_txouts_ser(wus: Seq<TxOutV>) -> Seq<u8>
    decreases wus.len(),
{
    if wus.len() == 0 {
        Seq::empty()
    } else {
        spec_txouts_ser(wus.drop_last()) + spec_txout_ser(wus.last())
    }
}

/// Serializes the companion form.
pub fn companion_ser(tx: &Tx, wus: &Vec<TxOut>) -> (r: Vec<u8>)
    requires
        tx.wf(),
    ensures
        r@ == spec_companion(spec_outs_view(wus@), tx_ser_of(tx@)),
{
    let mut r: Vec<u8> = Vec::new();
    push_varint(&mut r, wus.len() as u64);
    let ghost head = r@;
    proof {
        assert(spec_outs_view(wus@).subrange(0, 0) =~= Seq::<TxOutV>::empty());
    }
    let mut i: usize = 0;
    while i < wus.len()
        invariant
            i <= wus@.len(),
            r@ == head + spec_txouts_ser(spec_outs_view(wus@).subrange(0, i as int)),
        decreases wus.len() - i,
    {
        let ghost pre = spec_outs_view(wus@).subrange(0, i as int);
        push_txout(&mut r, &wus[i]);
        proof {
            let now = spec_outs_view(wus@).subrange(0, i + 1);
            assert(now.drop_last() =~= pre);
            assert(now.last() == wus@[i as int]@);
            assert(r@ =~= head + spec_txouts_ser(now));
        }
        i += 1;
    }
    proof {
        assert(spec_outs_view(wus@).subrange(0, wus@.len() as int) =~= spec_outs_view(wus@));
    }
    let txb = tx_ser(tx);
    extend(&mut r, &txb);
    proof {
        assert(r@ =~= spec_companion(spec_outs_view(wus@), tx_ser_of(tx@)));
    }
    r
}

/// Builds the witness-utxo list the partial envelope carries: each
/// input's wallet value under the owner's script.
pub fn build_witness_utxos(tx: &Tx, utxos: &Vec<UtxoEntry>, spk: &Vec<u8>) -> (r: Vec<TxOut>)
    ensures
        r@.len() == tx@.inputs.len(),
        seq_views(r@) == spec_wu_of(spec_prevouts(tx@.inputs), seq_views(utxos@), spk@),
{
    let ghost goal = spec_wu_of(spec_prevouts(tx@.inputs), seq_views(utxos@), spk@);
    let mut r: Vec<TxOut> = Vec::new();
    let mut i: usize = 0;
    while i < tx.inputs.len()
        invariant
            i <= tx@.inputs.len(),
            r@.len() == i,
            goal == spec_wu_of(spec_prevouts(tx@.inputs), seq_views(utxos@), spk@),
            forall|j: int| 0 <= j < i ==> (#[trigger] r@[j])@ == goal[j],
        decreases tx.inputs.len() - i,
    {
        proof {
            assert(tx@.inputs[i as int] == tx.inputs@[i as int]@);
            assert(spec_prevouts(tx@.inputs)[i as int] == tx@.inputs[i as int].prevout);
        }
        let v = match find_value(utxos, &tx.inputs[i].prevout) {
            Some(v) => v,
            None => 0,
        };
        r.push(TxOut { value: v, spk: dup(spk) });
        proof {
            assert(r@[i as int]@ =~= goal[i as int]);
        }
        i += 1;
    }
    proof {
        assert(seq_views(r@) =~= goal);
    }
    r
}

/// The display form of a txid: the hex of its bytes in reverse order.
pub open spec fn spec_txid_display(txid: Seq<u8>) -> Seq<u8> {
    spec_hex(spec_rev(txid))
}

pub fn txid_display(txid: &Vec<u8>) -> (r: Vec<u8>)
    ensures
        r@ == spec_txid_display(txid@),
{
    let rev = rev_bytes(txid);
    hex_encode(&rev)
}

/// The display form of an inscription id: the reveal txid followed by `i`
/// and the index.
pub open spec fn spec_inscription_id_display(txid: Seq<u8>, index: u32) -> Seq<u8> {
    spec_txid_display(txid) + seq![0x69u8] + spec_dec(index as nat)
}

pub fn inscription_id_display(txid: &Vec<u8>, index: u32) -> (r: Vec<u8>)
    ensures
        r@ == spec_inscription_id_display(txid@, index),
{
    let mut r = txid_display(txid);
    r.push(0x69);
    let d = dec_render(index as u64);
    extend(&mut r, &d);
    proof {
        assert(r@ =~= spec_inscription_id_display(txid@, index));
    }
    r
}

/// The companion list for a transaction: the hex of the companion form,
/// then, for every input, the display txid and the decimal output index of
/// the spent outpoint.
pub fn companion_list(tx: &Tx, wus: &Vec<TxOut>) -> (r: Vec<Vec<u8>>)
    requires
        tx.wf(),
    ensures
        r@.len() == 1 + 2 * tx@.inputs.len(),
        r@[0]@ == spec_hex(spec_companion(spec_outs_view(wus@), tx_ser_of(tx@))),
        forall|i: int| 0 <= i < tx@.inputs.len() ==> #[trigger] r@[1 + 2 * i]@
            == spec_txid_display(tx@.inputs[i].prevout.txid),
        forall|i: int| 0 <= i < tx@.inputs.len() ==> #[trigger] r@[2 + 2 * i]@
            == spec_dec(tx@.inputs[i].prevout.vout as nat),
    {
    let blob = companion_ser(tx, wus);
    let mut r: Vec<Vec<u8>> = Vec::new();
    r.push(hex_encode(&blob));
    let mut i: usize = 0;
    while i < tx.inputs.len()
        invariant
            tx.wf(),
            i <= tx@.inputs.len(),
            r@.len() == 1 + 2 * i,
            r@[0]@ == spec_hex(spec_companion(spec_outs_view(wus@), tx_ser_of(tx@))),
            forall|k: int| 0 <= k < i ==> #[trigger] r@[1 + 2 * k]@
                == spec_txid_display(tx@.inputs[k].prevout.txid),
            forall|k: int| 0 <= k < i ==> #[trigger] r@[2 + 2 * k]@
                == spec_dec(tx@.inputs[k].prevout.vout as nat),
        decreases tx.inputs.len() - i,
    {
        assert(tx@.inputs[i as int] == tx.inputs@[i as int]@);
        r.push(txid_display(&tx.inputs[i].prevout.txid.bytes));
        r.push(dec_render(tx.inputs[i].prevout.vout as u64));
        i += 1;
    }
    r
}

} // verus!
