//! The repeat-mint planner: one inscription, minted `repeat` times through
//! a chain of reveal transactions funded by a single commit transaction.

use vstd::prelude::*;
use crate::types::{
    Tx, TxV, TxOut, TxOutV, OutPoint, OutPointV, SatPoint, SatPointV, Txid, UtxoEntry,
    UtxoEntryV, IndexEntry, IndexEntryV, AddressInfo, AddrKind, Net, FeeRate, PlanError,
    seq_views, sum_values, spec_utxo_sum,
};
use crate::fees::{spec_fee, spec_vsize, spec_weight, spec_dust_threshold, dust_threshold, weight};
use crate::select::{
    Selection, select_funds, spec_selection_ok, spec_outpoint_inscribed,
    spec_distinct_outpoints, outpoint_inscribed, spec_find_utxo, spec_sel_fee,
    spec_anchor_sum, spec_cardinal_sum, spec_cardinal_count, lemma_find_exists,
};
use crate::script::{Inscription, build_reveal_script, spec_reveal_script, spec_script_len,
    spec_media, spec_after_last_dot};
use crate::crypto::{RevealKey, key_new, taproot_commit, commit_spk_of, control_block_of, tx_txid, txid_of};
use crate::revealtx::{
    build_reveal_tx, attach_reveal_witness, reveal_fee, spec_reveal_fee, spec_reveal_vsize,
    spec_reveal_weight, lemma_reveal_size_len, lemma_outputs_size_spk,
};
use crate::bytes::{dup, hex_encode, spec_hex};
use crate::ser::{psbt_ser, companion_list, inscription_id_display};
use crate::crypto::tx_ser;

verus! {

/// The postage carried to the destination by every reveal, unless a call
/// asks for another value.
pub const TARGET_POSTAGE: u64 = 10_000;

/// The default per-mint service fee.
pub const SERVICE_FEE: u64 = 3_000;

/// The standardness ceiling on a transaction's weight.
pub const MAX_STANDARD_TX_WEIGHT: u64 = 400_000;

/// Whether `op` is the first wallet entry, in the view's own order, whose
/// outpoint carries no inscription.
pub open spec fn spec_is_first_cardinal(op: OutPointV, utxos: Seq<UtxoEntry>,
    index: Seq<IndexEntry>) -> bool
{
    exists|k: int| 0 <= k < utxos.len()
        && (#[trigger] seq_views(utxos)[k]).outpoint == op
        && !spec_outpoint_inscribed(seq_views(index), op)
        && (forall|j: int| 0 <= j < k ==> spec_outpoint_inscribed(seq_views(index),
            (#[trigger] seq_views(utxos)[j]).outpoint))
}

/// The first wallet entry that carries no inscription, taken as the anchor
/// satpoint at offset zero.
pub fn first_cardinal_satpoint(utxos: &Vec<UtxoEntry>, index: &Vec<IndexEntry>) -> (r: Option<SatPoint>)
    requires
        forall|i: int| 0 <= i < utxos@.len() ==> (#[trigger] utxos@[i]).wf(),
    ensures
        r is None <==> (forall|k: int| 0 <= k < utxos@.len()
            ==> spec_outpoint_inscribed(seq_views(index@), (#[trigger] seq_views(utxos@)[k]).outpoint)),
        r matches Some(s) ==> {
            &&& s.wf()
            &&& s@.offset == 0
            &&& !spec_outpoint_inscribed(seq_views(index@), s@.outpoint)
            &&& spec_is_first_cardinal(s@.outpoint, utxos@, index@)
        },
{
    let ghost uv = seq_views(utxos@);
    let mut k: usize = 0;
    while k < utxos.len()
        invariant
            k <= utxos@.len(),
            uv == seq_views(utxos@),
            forall|i: int| 0 <= i < utxos@.len() ==> (#[trigger] utxos@[i]).wf(),
            forall|j: int| 0 <= j < k
                ==> spec_outpoint_inscribed(seq_views(index@), (#[trigger] uv[j]).outpoint),
        decreases utxos@.len() - k,
    {
        proof {
            assert(uv[k as int] == utxos@[k as int]@);
        }
        if !outpoint_inscribed(index, &utxos[k].outpoint) {
            let s = SatPoint { outpoint: utxos[k].outpoint.clone(), offset: 0 };
            proof {
                assert(uv[k as int].outpoint == s@.outpoint);
                assert(spec_is_first_cardinal(s@.outpoint, utxos@, index@));
            }
            return Some(s);
        }
        k += 1;
    }
    None
}

/// Rejects an anchor whose outpoint already carries an inscription.
pub fn check_anchor_free(index: &Vec<IndexEntry>, anchor: &SatPoint) -> (r: Result<(), PlanError>)
    ensures
        r is Err <==> spec_outpoint_inscribed(seq_views(index@), anchor@.outpoint),
        r matches Err(e) ==> e == PlanError::AlreadyInscribed,
{
    if outpoint_inscribed(index, &anchor.outpoint) {
        Err(PlanError::AlreadyInscribed)
    } else {
        Ok(())
    }
}

/// The output list of reveal `i` in a repeat chain of `repeat` reveals:
/// the destination postage first; a next-commit output carrying `carry`
/// for every reveal but the last; and the whole service fee on the first
/// reveal, when there is one.
pub open spec fn spec_repeat_outs(i: nat, repeat: nat, postage: u64, carry: u64, service_total: u64,
    dest_spk: Seq<u8>, commit_spk: Seq<u8>, service_spk: Seq<u8>) -> Seq<TxOutV>
{
    let base = seq![TxOutV { value: postage, spk: dest_spk }];
    let with_next = if i + 1 < repeat {
        base.push(TxOutV { value: carry, spk: commit_spk })
    } else {
        base
    };
    if i == 0 && service_total > 0 {
        with_next.push(TxOutV { value: service_total, spk: service_spk })
    } else {
        with_next
    }
}

/// Builds the outputs of reveal `i` with the given values.
pub fn repeat_outs(i: u64, repeat: u64, postage: u64, carry: u64, service_total: u64,
    dest_spk: &Vec<u8>, commit_spk: &Vec<u8>, service_spk: &Vec<u8>) -> (r: Vec<TxOut>)
    requires
        dest_spk@.len() <= 10_000,
        commit_spk@.len() <= 10_000,
        service_spk@.len() <= 10_000,
    ensures
        seq_views(r@) == spec_repeat_outs(i as nat, repeat as nat, postage, carry, service_total,
            dest_spk@, commit_spk@, service_spk@),
        r@.len() <= 3,
        forall|j: int| 0 <= j < r@.len() ==> (#[trigger] r@[j]).wf(),
{
    let mut r: Vec<TxOut> = Vec::new();
    r.push(TxOut { value: postage, spk: dup(dest_spk) });
    if i < repeat && repeat - i > 1 {
        r.push(TxOut { value: carry, spk: dup(commit_spk) });
    }
    if i == 0 && service_total > 0 {
        r.push(TxOut { value: service_total, spk: dup(service_spk) });
    }
    proof {
        assert(seq_views(r@) =~= spec_repeat_outs(i as nat, repeat as nat, postage, carry,
            service_total, dest_spk@, commit_spk@, service_spk@));
    }
    r
}

/// Everything the repeat-mint planner hands back besides the envelope:
/// the unsigned commit, the signed reveal chain, the sizing it used, and
/// the reveal-side crypto.
pub struct MintPlan {
    pub commit: Selection,
    pub reveals: Vec<Tx>,
    pub reveal_fees: Vec<u64>,
    pub carries: Vec<u64>,
    pub key: RevealKey,
    pub reveal_script: Vec<u8>,
    pub commit_spk: Vec<u8>,
    pub control_block: Vec<u8>,
    pub service_total: u64,
    pub postage: u64,
}

/// The preconditions of the repeat-mint planner. The count and value caps
/// are arithmetic limits: with at most a thousand reveals of at most two
/// hundred trillion millisatoshis of fee each, every carry, target and
/// running total in the planner fits in sixty-four bits.
pub open spec fn spec_mint_inputs_ok(utxos: Seq<UtxoEntry>, index: Seq<IndexEntry>,
    change_spk: Seq<u8>, dest: AddressInfo, service: AddressInfo,
    commit_rate: FeeRate, reveal_rate: FeeRate, repeat: u64, service_fee: u64, postage: u64) -> bool
{
    &&& utxos.len() <= 100_000
    &&& forall|i: int| 0 <= i < utxos.len() ==> (#[trigger] utxos[i]).wf()
    &&& spec_utxo_sum(seq_views(utxos)) <= 2_100_000_000_000_000
    &&& spec_distinct_outpoints(seq_views(utxos))
    &&& change_spk.len() <= 10_000
    &&& dest.wf()
    &&& service.wf()
    &&& commit_rate.wf()
    &&& reveal_rate.wf()
    &&& 1 <= repeat <= 1_000
    &&& service_fee <= 1_000_000_000
    &&& 330 <= postage <= 1_000_000_000
}

/// The screen before sizing: an explicit anchor must be uninscribed; an
/// anchorless mint needs some uninscribed wallet entry.
pub open spec fn spec_mint_screen_ok(satpoint: Option<SatPoint>, utxos: Seq<UtxoEntry>,
    index: Seq<IndexEntry>) -> bool
{
    match satpoint {
        Some(s) => !spec_outpoint_inscribed(seq_views(index), s@.outpoint),
        None => !(forall|k: int| 0 <= k < utxos.len()
            ==> spec_outpoint_inscribed(seq_views(index),
                (#[trigger] seq_views(utxos)[k]).outpoint)),
    }
}

/// The floored service total: the per-mint fee times the count, raised to
/// 600 satoshis when present at all.
pub open spec fn spec_service_total(service_fee: u64, repeat: u64) -> u64 {
    if service_fee * repeat == 0 {
        0u64
    } else if service_fee * repeat < 600 {
        600u64
    } else {
        (service_fee * repeat) as u64
    }
}

/// Which anchor the commit spends: the given satpoint, or the first
/// cardinal wallet entry at offset zero.
pub open spec fn spec_mint_anchor_rule(a: SatPointV, satpoint: Option<SatPoint>,
    utxos: Seq<UtxoEntry>, index: Seq<IndexEntry>) -> bool
{
    match satpoint {
        Some(s) => a == s@,
        None => a.offset == 0 && spec_is_first_cardinal(a.outpoint, utxos, index),
    }
}

/// A 34-byte stand-in with a commitment script's shape; sizing depends on
/// script lengths alone.
pub open spec fn spec_commit_spk_shape() -> Seq<u8> {
    Seq::new(34, |i: int| 0u8)
}

/// The sized fee of reveal `i`: a function of the reveal script's length
/// and the request alone.
pub open spec fn spec_sized_fee(slen: nat, i: nat, repeat: u64, postage: u64,
    service_total: u64, dspk: Seq<u8>, sspk: Seq<u8>, rate: FeeRate) -> nat
{
    spec_reveal_fee(slen, spec_repeat_outs(i, repeat as nat, postage, 0u64, service_total,
        dspk, spec_commit_spk_shape(), sspk), rate)
}

/// What the reveals from position `from` on need: each one's sized fee
/// plus its postage.
pub open spec fn spec_sized_need(slen: nat, from: int, repeat: u64, postage: u64,
    service_total: u64, dspk: Seq<u8>, sspk: Seq<u8>, rate: FeeRate) -> int
    decreases repeat - from when from <= repeat
{
    if from < 0 || from >= repeat {
        0
    } else {
        spec_sized_fee(slen, from as nat, repeat, postage, service_total, dspk, sspk, rate)
            + postage
            + spec_sized_need(slen, from + 1, repeat, postage, service_total, dspk, sspk, rate)
    }
}

/// The commit target of a repeat mint, in closed form over the script
/// length.
pub open spec fn spec_mint_target(slen: nat, repeat: u64, postage: u64, service_fee: u64,
    dspk: Seq<u8>, sspk: Seq<u8>, rate: FeeRate) -> int
{
    spec_sized_fee(slen, 0, repeat, postage, spec_service_total(service_fee, repeat), dspk,
        sspk, rate) + postage
        + spec_sized_need(slen, 1, repeat, postage, spec_service_total(service_fee, repeat),
            dspk, sspk, rate)
        + spec_service_total(service_fee, repeat)
}

/// The sized fee is the same under any 34-byte commitment script.
proof fn lemma_sized_fee_bridge(slen: nat, i: nat, repeat: u64, postage: u64,
    service_total: u64, dspk: Seq<u8>, cspk: Seq<u8>, sspk: Seq<u8>, rate: FeeRate)
    requires
        cspk.len() == 34,
    ensures
        spec_reveal_fee(slen, spec_repeat_outs(i, repeat as nat, postage, 0u64, service_total,
            dspk, cspk, sspk), rate)
            == spec_sized_fee(slen, i, repeat, postage, service_total, dspk, sspk, rate),
{
    let a = spec_repeat_outs(i, repeat as nat, postage, 0u64, service_total, dspk, cspk, sspk);
    let b = spec_repeat_outs(i, repeat as nat, postage, 0u64, service_total, dspk,
        spec_commit_spk_shape(), sspk);
    lemma_repeat_outs_facts(i, repeat as nat, postage, 0u64, service_total, dspk, cspk, sspk);
    lemma_repeat_outs_facts(i, repeat as nat, postage, 0u64, service_total, dspk,
        spec_commit_spk_shape(), sspk);
    assert(forall|q: int| 0 <= q < a.len() ==> (#[trigger] a[q]).spk.len() == b[q].spk.len());
    crate::revealtx::lemma_reveal_size_len(slen, a, b);
}

/// The carry recursion equals the closed sized need under any 34-byte
/// commitment script.
proof fn lemma_need_bridge(fees: Seq<u64>, slen: nat, repeat: u64, postage: u64,
    service_total: u64, dspk: Seq<u8>, cspk: Seq<u8>, sspk: Seq<u8>, rate: FeeRate, from: int)
    requires
        cspk.len() == 34,
        fees.len() == repeat,
        0 <= from <= repeat,
        forall|j: int| 0 <= j < repeat ==> (#[trigger] fees[j]) == spec_reveal_fee(slen,
            spec_repeat_outs(j as nat, repeat as nat, postage, 0u64, service_total, dspk,
                cspk, sspk), rate),
    ensures
        spec_tail_need(fees, postage, from)
            == spec_sized_need(slen, from, repeat, postage, service_total, dspk, sspk, rate),
    decreases repeat - from,
{
    if from < repeat {
        lemma_sized_fee_bridge(slen, from as nat, repeat, postage, service_total, dspk, cspk,
            sspk, rate);
        lemma_need_bridge(fees, slen, repeat, postage, service_total, dspk, cspk, sspk, rate,
            from + 1);
    }
}

/// The dust screen of a repeat mint: the postage must clear the
/// destination's threshold and a present service total its script's.
#[verifier::opaque]
pub open spec fn spec_mint_dust_bad(postage: u64, service_fee: u64, repeat: u64,
    dspk: Seq<u8>, sspk: Seq<u8>) -> bool
{
    postage < spec_dust_threshold(dspk)
        || (spec_service_total(service_fee, repeat) > 0
            && spec_service_total(service_fee, repeat) < spec_dust_threshold(sspk))
}

/// Whether the reveal at position `i`, sized from the script length
/// alone, would exceed the standardness weight ceiling.
#[verifier::opaque]
pub open spec fn spec_mint_overweight(i: int, ct_len: nat, body_len: nat, repeat: u64,
    postage: u64, service_fee: u64, dspk: Seq<u8>, sspk: Seq<u8>) -> bool
{
    spec_reveal_weight(spec_script_len(ct_len, body_len), spec_repeat_outs(i as nat,
        repeat as nat, postage, 0u64, spec_service_total(service_fee, repeat), dspk,
        spec_commit_spk_shape(), sspk)) > MAX_STANDARD_TX_WEIGHT
}

/// The shortfall a failed funding exhibits: over the rule-conforming
/// anchor and the actual 34-byte commitment script, the anchor plus every
/// drawable entry cannot cover the closed-form target and the fee of the
/// full selection.
#[verifier::opaque]
pub open spec fn spec_mint_shortfall(a: SatPointV, cspk: Seq<u8>, satpoint: Option<SatPoint>,
    utxos: Seq<UtxoEntry>, index: Seq<IndexEntry>, change_spk: Seq<u8>, dspk: Seq<u8>,
    sspk: Seq<u8>, commit_rate: FeeRate, reveal_rate: FeeRate, repeat: u64,
    postage: u64, service_fee: u64, slen: nat, wlen: nat) -> bool
{
    let target = spec_mint_target(slen, repeat, postage, service_fee, dspk, sspk,
        reveal_rate);
    &&& spec_mint_anchor_rule(a, satpoint, utxos, index)
    &&& cspk.len() == 34
    &&& spec_anchor_sum(seq![a], seq_views(utxos))
            + spec_cardinal_sum(seq_views(utxos), seq_views(index), seq![a])
        < target + spec_sel_fee(1 + spec_cardinal_count(seq_views(utxos), seq_views(index),
            seq![a]), wlen, target as u64, cspk, change_spk, None, commit_rate)
}


/// The executable sizing equals the closed-form target.
proof fn lemma_mint_target_bridge(fees: Seq<u64>, carries0: u64, slen: nat, repeat: u64,
    postage: u64, service_fee: u64, service_total: u64, dspk: Seq<u8>, cspk: Seq<u8>,
    sspk: Seq<u8>, rate: FeeRate, target: u64)
    requires
        cspk.len() == 34,
        fees.len() == repeat,
        1 <= repeat,
        service_total == spec_service_total(service_fee, repeat),
        forall|j: int| 0 <= j < repeat ==> (#[trigger] fees[j]) == spec_reveal_fee(slen,
            spec_repeat_outs(j as nat, repeat as nat, postage, 0u64, service_total, dspk,
                cspk, sspk), rate),
        carries0 == spec_tail_need(fees, postage, 1),
        target == fees[0] + postage + carries0 + service_total,
    ensures
        target == spec_mint_target(slen, repeat, postage, service_fee, dspk, sspk, rate),
{
    lemma_sized_fee_bridge(slen, 0, repeat, postage, service_total, dspk, cspk, sspk, rate);
    lemma_need_bridge(fees, slen, repeat, postage, service_total, dspk, cspk, sspk, rate, 1);
}

/// A selection anchored on some cardinal wallet entry at offset zero,
/// paying `target` to `payment_spk`.
pub open spec fn spec_sel_anchored(sel: Selection, a: SatPointV, utxos: Seq<UtxoEntry>,
    index: Seq<IndexEntry>, change_spk: Seq<u8>, commit_rate: FeeRate, wlen: nat, target: u64,
    payment_spk: Seq<u8>) -> bool
{
    &&& spec_selection_ok(sel, seq![a], seq_views(utxos), seq_views(index), target, payment_spk,
            change_spk, commit_rate, wlen, None)
    &&& a.offset == 0
    &&& spec_is_first_cardinal(a.outpoint, utxos, index)
}

/// The commit of a mint without an explicit satpoint: funded over some
/// cardinal anchor.
pub open spec fn spec_mint_anchor_ok_none(sel: Selection, utxos: Seq<UtxoEntry>,
    index: Seq<IndexEntry>, change_spk: Seq<u8>, commit_rate: FeeRate, wlen: nat, target: u64,
    payment_spk: Seq<u8>) -> bool
{
    exists|a: SatPointV| #[trigger] spec_sel_anchored(sel, a, utxos, index, change_spk,
        commit_rate, wlen, target, payment_spk)
}

/// The sum the reveals after position `from` still need: each one's fee
/// plus its postage.
pub open spec fn spec_tail_need(fees: Seq<u64>, postage: u64, from: int) -> int
    decreases fees.len() - from when from <= fees.len()
{
    if from < 0 || from >= fees.len() {
        0
    } else {
        fees[from] + postage + spec_tail_need(fees, postage, from + 1)
    }
}

/// Everything a successful repeat mint guarantees; the laws of the chain.
pub open spec fn spec_mint_plan_ok(plan: MintPlan, satpoint: Option<SatPoint>,
    utxos: Seq<UtxoEntry>, index: Seq<IndexEntry>, change_spk: Seq<u8>, dest: AddressInfo,
    commit_rate: FeeRate, reveal_rate: FeeRate, no_limit: bool, service: AddressInfo,
    repeat: u64, postage: u64, service_fee: u64, wlen: nat) -> bool
{
    let n = repeat as int;
    let rs = plan.reveals@;
    let fees = plan.reveal_fees@;
    let cs = plan.carries@;
    let target = (fees[0] + postage + cs[0] + plan.service_total) as u64;
    &&& plan.postage == postage
    &&& plan.service_total == spec_service_total(service_fee, repeat)
    &&& plan.commit_spk@ == commit_spk_of(plan.key@, plan.reveal_script@)
    &&& plan.control_block@ == control_block_of(plan.key@, plan.reveal_script@)
    &&& rs.len() == n && fees.len() == n && cs.len() == n
    &&& forall|i: int| 0 <= i < n ==> (#[trigger] fees[i]) <= 200_000_000_000_000
    // The carry recurrence: what each reveal forwards to those after it.
    &&& cs[n - 1] == 0
    &&& forall|i: int| 0 <= i < n - 1 ==> cs[i] == cs[i + 1] + (#[trigger] fees[i + 1]) + postage
    // The commit funds the whole chain and obeys the selection contract,
    // spending the anchor satpoint first.
    &&& exists|a: SatPointV| #[trigger] spec_mint_anchor_ok(plan, a, satpoint, utxos, index,
            change_spk, commit_rate, wlen, target)
    // Each reveal: shape, sizing fixed point, weight ceiling, dust floor,
    // linkage and value conservation.
    &&& spec_chain_ok(rs, plan.commit.tx@, fees, cs, plan.reveal_script@, plan.commit_spk@,
            plan.control_block@, dest.spk@, service.spk@, repeat, postage, plan.service_total,
            reveal_rate, no_limit)
}

/// The laws of reveal `j` within a chain over its commit: shape, sizing
/// fixed point, weight ceiling, dust floor, linkage and value
/// conservation.
pub open spec fn spec_chain_elem_ok(rs: Seq<Tx>, j: int, commit: TxV, fees: Seq<u64>,
    cs: Seq<u64>, script: Seq<u8>, commit_spk: Seq<u8>, cb: Seq<u8>, dspk: Seq<u8>,
    sspk: Seq<u8>, repeat: u64, postage: u64, service_total: u64, rate: FeeRate,
    no_limit: bool) -> bool
{
    &&& rs[j].wf()
    &&& rs[j]@.outputs == spec_repeat_outs(j as nat, repeat as nat, postage, cs[j],
            service_total, dspk, commit_spk, sspk)
    &&& rs[j]@.inputs.len() == 1
    &&& rs[j]@.inputs[0].witness.len() == 3
    &&& rs[j]@.inputs[0].witness[1] == script
    &&& rs[j]@.inputs[0].witness[2] == cb
    &&& fees[j] == spec_fee(spec_vsize(rs[j]@), rate)
    &&& (!no_limit ==> spec_weight(rs[j]@) <= MAX_STANDARD_TX_WEIGHT)
    &&& forall|q: int| 0 <= q < rs[j]@.outputs.len() ==> (#[trigger] rs[j]@.outputs[q]).value
            >= spec_dust_threshold(rs[j]@.outputs[q].spk)
    &&& rs[j]@.inputs[0].prevout == (OutPointV {
            txid: if j == 0 { txid_of(commit) } else { txid_of(rs[j - 1]@) },
            vout: if j == 0 { 0u32 } else { 1u32 },
        })
    &&& (if j == 0 { commit.outputs[0].value as int } else { rs[j - 1]@.outputs[1].value as int })
            - sum_values(rs[j]@.outputs) == fees[j]
}

/// The laws of every reveal of a (prefix of a) chain.
pub open spec fn spec_chain_prefix_ok(rs: Seq<Tx>, commit: TxV, fees: Seq<u64>, cs: Seq<u64>,
    script: Seq<u8>, commit_spk: Seq<u8>, cb: Seq<u8>, dspk: Seq<u8>, sspk: Seq<u8>,
    repeat: u64, postage: u64, service_total: u64, rate: FeeRate, no_limit: bool) -> bool
    decreases rs.len(),
{
    rs.len() <= repeat && if rs.len() == 0 {
        true
    } else {
        spec_chain_prefix_ok(rs.drop_last(), commit, fees, cs, script, commit_spk, cb, dspk,
            sspk, repeat, postage, service_total, rate, no_limit)
            && spec_chain_elem_ok(rs, rs.len() - 1, commit, fees, cs, script, commit_spk, cb,
                dspk, sspk, repeat, postage, service_total, rate, no_limit)
    }
}

/// Every position of a lawful chain obeys the per-position laws.
pub proof fn lemma_chain_index(rs: Seq<Tx>, commit: TxV, fees: Seq<u64>, cs: Seq<u64>,
    script: Seq<u8>, commit_spk: Seq<u8>, cb: Seq<u8>, dspk: Seq<u8>, sspk: Seq<u8>,
    repeat: u64, postage: u64, service_total: u64, rate: FeeRate, no_limit: bool, j: int)
    requires
        spec_chain_prefix_ok(rs, commit, fees, cs, script, commit_spk, cb, dspk, sspk, repeat,
            postage, service_total, rate, no_limit),
        0 <= j < rs.len(),
    ensures
        spec_chain_elem_ok(rs, j, commit, fees, cs, script, commit_spk, cb, dspk, sspk, repeat,
            postage, service_total, rate, no_limit),
    decreases rs.len(),
{
    if j == rs.len() - 1 {
    } else {
        let pre = rs.drop_last();
        lemma_chain_index(pre, commit, fees, cs, script, commit_spk, cb, dspk, sspk, repeat,
            postage, service_total, rate, no_limit, j);
        assert(pre[j] == rs[j]);
        if j > 0 {
            assert(pre[j - 1] == rs[j - 1]);
        }
    }
}

/// The laws of the complete chain.
pub open spec fn spec_chain_ok(rs: Seq<Tx>, commit: TxV, fees: Seq<u64>, cs: Seq<u64>,
    script: Seq<u8>, commit_spk: Seq<u8>, cb: Seq<u8>, dspk: Seq<u8>, sspk: Seq<u8>,
    repeat: u64, postage: u64, service_total: u64, rate: FeeRate, no_limit: bool) -> bool
{
    rs.len() == repeat && spec_chain_prefix_ok(rs, commit, fees, cs, script, commit_spk, cb,
        dspk, sspk, repeat, postage, service_total, rate, no_limit)
}

/// How the commit was anchored: on the given satpoint, or on a cardinal
/// wallet entry at offset zero.
pub open spec fn spec_mint_anchor_ok(plan: MintPlan, a: SatPointV, satpoint: Option<SatPoint>,
    utxos: Seq<UtxoEntry>, index: Seq<IndexEntry>, change_spk: Seq<u8>, commit_rate: FeeRate,
    wlen: nat, target: u64) -> bool
{
    &&& spec_selection_ok(plan.commit, seq![a], seq_views(utxos), seq_views(index), target,
            plan.commit_spk@, change_spk, commit_rate, wlen, None)
    &&& (satpoint matches Some(s) ==> a == s@)
    &&& (satpoint is None ==> a.offset == 0
            && spec_is_first_cardinal(a.outpoint, utxos, index))
}


/// The envelope handed back to the caller: inscription ids, the commit as
/// a partial envelope in hex, the companion list, the signed reveals in
/// hex, and the fee breakdown.
pub struct Output {
    pub inscription: Vec<Vec<u8>>,
    pub commit: Vec<u8>,
    pub commit_custom: Vec<Vec<u8>>,
    pub reveal: Vec<Vec<u8>>,
    pub service_fee: u64,
    pub satpoint_fee: u64,
    pub network_fee: u64,
}

/// A repeat-mint request: one content, minted `repeat` times.
pub struct Mint {
    pub fee_rate: FeeRate,
    pub destination: Option<AddressInfo>,
    pub source: AddressInfo,
    pub extension: Option<Vec<u8>>,
    pub content: Vec<u8>,
    pub repeat: Option<u64>,
}

/// The destination a request pays: the given one, or the source itself.
pub open spec fn spec_build_dest(m: Mint) -> AddressInfo {
    match m.destination {
        Some(d) => d,
        None => m.source,
    }
}

/// The service address a request pays: the given one, or the source.
pub open spec fn spec_build_service(m: Mint, service_address: Option<AddressInfo>) -> AddressInfo {
    match service_address {
        Some(a) => a,
        None => m.source,
    }
}

/// Whether the request's addresses fit the network and the supported
/// types.
pub open spec fn spec_build_addr_ok(m: Mint, net: Net) -> bool {
    let dest = spec_build_dest(m);
    &&& m.source.net == net
    &&& dest.net == net
    &&& (m.source.kind == AddrKind::P2tr || m.source.kind == AddrKind::P2wpkh)
    &&& (dest.kind == AddrKind::P2tr || dest.kind == AddrKind::P2wpkh)
}

/// The extension the media type is taken from: the given one, or `.txt`.
pub open spec fn spec_build_ext(m: Mint) -> Seq<u8> {
    match m.extension {
        Some(e) => e@,
        None => seq![0x2eu8, 0x74u8, 0x78u8, 0x74u8],
    }
}

/// The number of copies a request mints.
pub open spec fn spec_build_repeat(m: Mint) -> u64 {
    match m.repeat {
        Some(n) => n,
        None => 1u64,
    }
}

/// The per-mint service fee a request pays.
pub open spec fn spec_build_sfee(service_fee: Option<u64>) -> u64 {
    match service_fee {
        Some(f) => f,
        None => SERVICE_FEE,
    }
}

/// Total of a list of fees.
pub open spec fn spec_fee_total(fees: Seq<u64>) -> int
    decreases fees.len(),
{
    if fees.len() == 0 {
        0
    } else {
        spec_fee_total(fees.drop_last()) + fees.last()
    }
}

impl Mint {
    /// What every mint request must satisfy.
    pub open spec fn wf(&self) -> bool {
        &&& self.fee_rate.wf()
        &&& self.source.wf()
        &&& (self.destination matches Some(d) ==> d.wf())
        &&& self.content@.len() <= 3_800_000
        &&& (self.extension matches Some(e) ==> e@.len() <= 100)
        &&& (self.repeat matches Some(n) ==> 1 <= n <= 1_000)
    }

    /// Plans the mint and wraps it into the caller envelope: validates the
    /// addresses, derives the inscription, builds the commit and reveal
    /// chain, and serializes everything.
    pub fn build(self, net: Net, utxos: &Vec<UtxoEntry>, index: &Vec<IndexEntry>,
        service_address: Option<AddressInfo>, service_fee: Option<u64>, target_postage: u64,
        no_limit: bool) -> (r: Result<Output, PlanError>)
        requires
            self.wf(),
            utxos@.len() <= 100_000,
            forall|i: int| 0 <= i < utxos@.len() ==> (#[trigger] utxos@[i]).wf(),
            spec_utxo_sum(seq_views(utxos@)) <= 2_100_000_000_000_000,
            spec_distinct_outpoints(seq_views(utxos@)),
            index@.len() <= 100_000,
            service_address matches Some(a) ==> (a.wf()
                && (a.kind == AddrKind::P2tr || a.kind == AddrKind::P2wpkh)),
            service_fee matches Some(f) ==> f <= 1_000_000_000,
            330 <= target_postage <= 1_000_000_000,
        ensures
            r matches Err(e) ==> (e == PlanError::InvalidAddress || e == PlanError::BadRequest
                || e == PlanError::NoCardinalUtxos || e == PlanError::DustOutput
                || e == PlanError::Insufficient || e == PlanError::WeightExceeded),
            r == Err::<Output, PlanError>(PlanError::InvalidAddress)
                <==> !spec_build_addr_ok(self, net),
            r == Err::<Output, PlanError>(PlanError::BadRequest)
                <==> (spec_build_addr_ok(self, net)
                    && spec_media(spec_after_last_dot(spec_build_ext(self))) is None),
            r == Err::<Output, PlanError>(PlanError::NoCardinalUtxos)
                <==> (spec_build_addr_ok(self, net)
                    && spec_media(spec_after_last_dot(spec_build_ext(self))) is Some
                    && (forall|k: int| 0 <= k < utxos@.len()
                        ==> spec_outpoint_inscribed(seq_views(index@),
                            (#[trigger] seq_views(utxos@)[k]).outpoint))),
            r == Err::<Output, PlanError>(PlanError::DustOutput)
                <==> (spec_build_addr_ok(self, net)
                    && spec_media(spec_after_last_dot(spec_build_ext(self))) is Some
                    && !(forall|k: int| 0 <= k < utxos@.len()
                        ==> spec_outpoint_inscribed(seq_views(index@),
                            (#[trigger] seq_views(utxos@)[k]).outpoint))
                    && spec_mint_dust_bad(target_postage, spec_build_sfee(service_fee),
                        spec_build_repeat(self), spec_build_dest(self).spk@,
                        spec_build_service(self, service_address).spk@)),
            // A successful envelope is the byte-exact rendering of a
            // lawful plan.
            r matches Ok(o) ==> exists|plan: MintPlan|
                #[trigger] spec_mint_plan_ok(plan, None, utxos@, index@, self.source.spk@,
                    spec_build_dest(self), self.fee_rate, self.fee_rate, no_limit,
                    spec_build_service(self, service_address), spec_build_repeat(self),
                    target_postage, spec_build_sfee(service_fee), spec_wlen(self.source.kind))
                && (spec_media(spec_after_last_dot(spec_build_ext(self))) matches Some(ct)
                    && plan.reveal_script@ == spec_reveal_script(plan.key@, ct, self.content@))
                && o.commit@ == spec_hex(crate::ser::spec_psbt(crate::crypto::tx_ser_of(
                    plan.commit.tx@), crate::select::spec_wu_of(crate::select::spec_prevouts(
                    plan.commit.tx@.inputs), seq_views(utxos@), self.source.spk@),
                    plan.commit.tx@.outputs.len()))
                && o.commit_custom@.len() == 1 + 2 * plan.commit.tx@.inputs.len()
                && o.commit_custom@[0]@ == spec_hex(crate::ser::spec_companion(
                    crate::select::spec_wu_of(crate::select::spec_prevouts(
                    plan.commit.tx@.inputs), seq_views(utxos@), self.source.spk@),
                    crate::crypto::tx_ser_of(plan.commit.tx@)))
                && o.reveal@.len() == spec_build_repeat(self)
                && (forall|i: int| 0 <= i < o.reveal@.len() ==> (#[trigger] o.reveal@[i])@
                    == spec_hex(crate::crypto::tx_ser_of(plan.reveals@[i]@)))
                && o.inscription@.len() == spec_build_repeat(self)
                && (forall|i: int| 0 <= i < o.inscription@.len()
                    ==> (#[trigger] o.inscription@[i])@
                        == crate::ser::spec_inscription_id_display(
                            crate::crypto::txid_of(plan.reveals@[i]@), 0))
                && o.network_fee == plan.commit.fee_paid + spec_fee_total(plan.reveal_fees@)
                && o.service_fee == plan.service_total
                && o.satpoint_fee == target_postage * spec_build_repeat(self),
    {
        let repeat: u64 = match self.repeat {
            Some(n) => n,
            None => 1,
        };
        let source = self.source;
        let destination = match self.destination {
            Some(d) => d,
            None => source.clone(),
        };
        if !(source.net == net && destination.net == net
            && (source.kind == AddrKind::P2tr || source.kind == AddrKind::P2wpkh)
            && (destination.kind == AddrKind::P2tr || destination.kind == AddrKind::P2wpkh)) {
            return Err(PlanError::InvalidAddress);
        }
        let extension = match self.extension {
            Some(e) => e,
            None => vec![0x2e, 0x74, 0x78, 0x74],
        };
        let inscription = match Inscription::from_content(&extension, self.content) {
            Ok(i) => i,
            Err(e) => {
                return Err(e);
            },
        };
        let service_addr = match service_address {
            Some(a) => a,
            None => source.clone(),
        };
        let sfee = match service_fee {
            Some(f) => f,
            None => SERVICE_FEE,
        };
        let plan = match create_inscription_transactions(None, &inscription, index, utxos,
            &source.spk, &destination, self.fee_rate, self.fee_rate, no_limit, &service_addr,
            repeat, sfee, target_postage, source.kind) {
            Ok(p) => p,
            Err(e) => {
                return Err(e);
            },
        };
        proof {
            assert(target_postage * repeat <= 1_000_000_000 * 1_000) by (nonlinear_arith)
                requires
                    target_postage <= 1_000_000_000,
                    repeat <= 1_000,
            ;
        }
        let satpoint_fee = target_postage * repeat;
        // The network fee: what the commit pays plus what every reveal pays.
        let mut network_fee = plan.commit.fee_paid;
        proof {
            assert(plan.reveal_fees@.subrange(0, 0) =~= Seq::<u64>::empty());
        }
        let mut i: usize = 0;
        while i < plan.reveal_fees.len()
            invariant
                i <= plan.reveal_fees@.len(),
                plan.reveal_fees@.len() <= 1_000,
                forall|j: int| 0 <= j < plan.reveal_fees@.len()
                    ==> (#[trigger] plan.reveal_fees@[j]) <= 200_000_000_000_000,
                network_fee == plan.commit.fee_paid
                    + spec_fee_total(plan.reveal_fees@.subrange(0, i as int)),
                network_fee <= 200_000_000_100_000 + i * 200_000_000_000_000,
            decreases plan.reveal_fees.len() - i,
        {
            network_fee = network_fee + plan.reveal_fees[i];
            proof {
                let now = plan.reveal_fees@.subrange(0, i + 1);
                assert(now.drop_last() =~= plan.reveal_fees@.subrange(0, i as int));
                assert(now.last() == plan.reveal_fees@[i as int]);
            }
            i += 1;
        }
        proof {
            assert(plan.reveal_fees@.subrange(0, plan.reveal_fees@.len() as int)
                =~= plan.reveal_fees@);
        }
        // The commit's witness utxos: each input's wallet value under the
        // source's script.
        let wus = crate::ser::build_witness_utxos(&plan.commit.tx, utxos, &source.spk);
        let psbt = psbt_ser(&plan.commit.tx, &wus);
        let commit = hex_encode(&psbt);
        let commit_custom = companion_list(&plan.commit.tx, &wus);
        proof {
            assert(crate::ser::spec_outs_view(wus@) =~= crate::select::spec_wu_of(
                crate::select::spec_prevouts(plan.commit.tx@.inputs), seq_views(utxos@),
                source.spk@));
            assert forall|j: int| 0 <= j < plan.reveals@.len()
                implies (#[trigger] plan.reveals@[j]).wf() by {
                lemma_chain_index(plan.reveals@, plan.commit.tx@, plan.reveal_fees@,
                    plan.carries@, plan.reveal_script@, plan.commit_spk@, plan.control_block@,
                    destination.spk@, service_addr.spk@, repeat, target_postage,
                    plan.service_total, self.fee_rate, no_limit, j);
            }
        }
        let mut reveal_hex: Vec<Vec<u8>> = Vec::new();
        let mut inscription_ids: Vec<Vec<u8>> = Vec::new();
        let mut t: usize = 0;
        while t < plan.reveals.len()
            invariant
                t <= plan.reveals@.len(),
                reveal_hex@.len() == t,
                inscription_ids@.len() == t,
                forall|j: int| 0 <= j < plan.reveals@.len() ==> (#[trigger] plan.reveals@[j]).wf(),
                forall|j: int| 0 <= j < t ==> (#[trigger] reveal_hex@[j])@
                    == spec_hex(crate::crypto::tx_ser_of(plan.reveals@[j]@)),
                forall|j: int| 0 <= j < t ==> (#[trigger] inscription_ids@[j])@
                    == crate::ser::spec_inscription_id_display(
                        crate::crypto::txid_of(plan.reveals@[j]@), 0),
            decreases plan.reveals.len() - t,
        {
            let ser = tx_ser(&plan.reveals[t]);
            reveal_hex.push(hex_encode(&ser));
            let txid = tx_txid(&plan.reveals[t]);
            inscription_ids.push(inscription_id_display(&txid, 0));
            t += 1;
        }
        let out = Output {
            inscription: inscription_ids,
            commit,
            commit_custom,
            reveal: reveal_hex,
            service_fee: plan.service_total,
            satpoint_fee,
            network_fee,
        };
        proof {
            assert(spec_mint_plan_ok(plan, None, utxos@, index@, self.source.spk@,
                spec_build_dest(self), self.fee_rate, self.fee_rate, no_limit,
                spec_build_service(self, service_address), spec_build_repeat(self),
                target_postage, spec_build_sfee(service_fee), spec_wlen(self.source.kind)));
        }
        Ok(out)
    }

    /// The network fee a spend pays: what its inputs draw from the wallet
    /// minus what its outputs carry.
    pub fn calculate_fee(tx: &Tx, utxos: &Vec<UtxoEntry>) -> (r: Result<u64, PlanError>)
        requires
            tx@.inputs.len() <= 8_000,
            spec_utxo_sum(seq_views(utxos@)) <= 2_100_000_000_000_000,
            0 <= sum_values(tx@.outputs) <= 2_100_000_000_000_000,
        ensures
            r matches Ok(v) ==> v == crate::select::spec_in_sum(tx@.inputs, seq_views(utxos@))
                - sum_values(tx@.outputs),
            r is Ok <==> ((forall|i: int| 0 <= i < tx@.inputs.len()
                ==> crate::select::spec_find_utxo(seq_views(utxos@),
                    (#[trigger] tx@.inputs[i]).prevout) is Some)
                && crate::select::spec_in_sum(tx@.inputs, seq_views(utxos@))
                    >= sum_values(tx@.outputs)),
            r matches Err(e) ==> (e == PlanError::StaleTransferAnchor
                || e == PlanError::Insufficient),
    {
        let total_in = match crate::cancel::Cancel::get_amount(tx, utxos) {
            Ok(v) => v,
            Err(e) => {
                return Err(e);
            },
        };
        let total_out = crate::burt::tx_out_sum(tx);
        if total_in < total_out {
            return Err(PlanError::Insufficient);
        }
        Ok(total_in - total_out)
    }

    /// The mint as the command runs it: default service fee, default
    /// postage, the standard weight ceiling.
    pub fn run(self, net: Net, utxos: &Vec<UtxoEntry>, index: &Vec<IndexEntry>)
        -> (r: Result<Output, PlanError>)
        requires
            self.wf(),
            utxos@.len() <= 100_000,
            forall|i: int| 0 <= i < utxos@.len() ==> (#[trigger] utxos@[i]).wf(),
            spec_utxo_sum(seq_views(utxos@)) <= 2_100_000_000_000_000,
            spec_distinct_outpoints(seq_views(utxos@)),
            index@.len() <= 100_000,
        ensures
            r == Err::<Output, PlanError>(PlanError::InvalidAddress)
                <==> !spec_build_addr_ok(self, net),
            r == Err::<Output, PlanError>(PlanError::BadRequest)
                <==> (spec_build_addr_ok(self, net)
                    && spec_media(spec_after_last_dot(spec_build_ext(self))) is None),
            r == Err::<Output, PlanError>(PlanError::NoCardinalUtxos)
                <==> (spec_build_addr_ok(self, net)
                    && spec_media(spec_after_last_dot(spec_build_ext(self))) is Some
                    && (forall|k: int| 0 <= k < utxos@.len()
                        ==> spec_outpoint_inscribed(seq_views(index@),
                            (#[trigger] seq_views(utxos@)[k]).outpoint))),
            r matches Err(e) ==> (e == PlanError::InvalidAddress || e == PlanError::BadRequest
                || e == PlanError::NoCardinalUtxos || e == PlanError::DustOutput
                || e == PlanError::Insufficient || e == PlanError::WeightExceeded),
            r matches Ok(o) ==> exists|plan: MintPlan|
                #[trigger] spec_mint_plan_ok(plan, None, utxos@, index@, self.source.spk@,
                    spec_build_dest(self), self.fee_rate, self.fee_rate, false,
                    spec_build_service(self, None), spec_build_repeat(self), TARGET_POSTAGE,
                    SERVICE_FEE, spec_wlen(self.source.kind))
                && o.reveal@.len() == spec_build_repeat(self)
                && (forall|i: int| 0 <= i < o.reveal@.len() ==> (#[trigger] o.reveal@[i])@
                    == spec_hex(crate::crypto::tx_ser_of(plan.reveals@[i]@)))
                && o.inscription@.len() == spec_build_repeat(self)
                && o.network_fee == plan.commit.fee_paid + spec_fee_total(plan.reveal_fees@)
                && o.service_fee == plan.service_total
                && o.satpoint_fee == TARGET_POSTAGE * spec_build_repeat(self),
    {
        self.build(net, utxos, index, None, Some(SERVICE_FEE), TARGET_POSTAGE, false)
    }
}


/// Witness placeholder size used to size commit inputs for an address type.
pub open spec fn spec_wlen(kind: AddrKind) -> nat {
    if kind == AddrKind::P2tr {
        64
    } else {
        107
    }
}

pub fn wlen_for(kind: AddrKind) -> (r: u64)
    ensures
        r == spec_wlen(kind),
        1 <= r <= 120,
{
    if kind == AddrKind::P2tr {
        64
    } else {
        107
    }
}

/// What remains to be forwarded is never negative.
pub proof fn lemma_tail_nonneg(fees: Seq<u64>, postage: u64, from: int)
    requires
        from <= fees.len(),
    ensures
        0 <= spec_tail_need(fees, postage, from),
    decreases fees.len() - from,
{
    if 0 <= from < fees.len() {
        lemma_tail_nonneg(fees, postage, from + 1);
    }
}

/// Shape facts about a repeat reveal's outputs: its length, each member,
/// and the total value.
pub proof fn lemma_repeat_outs_facts(i: nat, repeat: nat, postage: u64, carry: u64,
    service_total: u64, dest_spk: Seq<u8>, commit_spk: Seq<u8>, service_spk: Seq<u8>)
    ensures
        ({
            let outs = spec_repeat_outs(i, repeat, postage, carry, service_total, dest_spk,
                commit_spk, service_spk);
            &&& outs.len() == 1 + (if i + 1 < repeat { 1int } else { 0 })
                + (if i == 0 && service_total > 0 { 1int } else { 0 })
            &&& outs[0] == (TxOutV { value: postage, spk: dest_spk })
            &&& (i + 1 < repeat ==> outs[1] == (TxOutV { value: carry, spk: commit_spk }))
            &&& (i == 0 && service_total > 0 ==> outs.last() == (TxOutV { value: service_total,
                    spk: service_spk }))
            &&& sum_values(outs) == postage + (if i + 1 < repeat { carry as int } else { 0 })
                + (if i == 0 && service_total > 0 { service_total as int } else { 0 })
        }),
{
    let outs = spec_repeat_outs(i, repeat, postage, carry, service_total, dest_spk, commit_spk,
        service_spk);
    reveal_with_fuel(sum_values, 5);
    assert(outs.len() <= 3);
    if i + 1 < repeat {
        if i == 0 && service_total > 0 {
            assert(outs.drop_last().drop_last().drop_last() =~= Seq::<TxOutV>::empty());
        } else {
            assert(outs.drop_last().drop_last() =~= Seq::<TxOutV>::empty());
        }
    } else {
        if i == 0 && service_total > 0 {
            assert(outs.drop_last().drop_last() =~= Seq::<TxOutV>::empty());
        } else {
            assert(outs.drop_last() =~= Seq::<TxOutV>::empty());
        }
    }
}

/// Builds and signs one reveal of a repeat chain: spends `prev_txid` at
/// the right output index, pays the shape for its position, and checks
/// the weight ceiling.
#[verifier::rlimit(100)]
fn make_reveal(
    bi: u64,
    repeat: u64,
    target_postage: u64,
    carry: u64,
    service_total: u64,
    key: &RevealKey,
    reveal_script: &Vec<u8>,
    commit_spk: &Vec<u8>,
    control_block: &Vec<u8>,
    dest_spk: &Vec<u8>,
    service_spk: &Vec<u8>,
    prev_txid: &Vec<u8>,
    funding: u64,
    reveal_fee_rate: FeeRate,
    no_limit: bool,
) -> (r: Result<Tx, PlanError>)
    requires
        bi < repeat,
        repeat <= 1_000,
        reveal_script@.len() <= 4_000_000,
        commit_spk@.len() == 34,
        commit_spk@[0] == 0x51u8,
        commit_spk@[1] == 0x20u8,
        control_block@.len() == 33,
        dest_spk@.len() <= 10_000,
        service_spk@.len() <= 10_000,
        prev_txid@.len() == 32,
        reveal_fee_rate.wf(),
        330 <= target_postage,
        target_postage >= spec_dust_threshold(dest_spk@),
        service_total > 0 ==> service_total >= spec_dust_threshold(service_spk@),
        bi + 1 < repeat ==> carry >= target_postage,
    ensures
        r matches Ok(tx) ==> {
            let outs = spec_repeat_outs(bi as nat, repeat as nat, target_postage, carry,
                service_total, dest_spk@, commit_spk@, service_spk@);
            &&& tx.wf()
            &&& tx@.outputs == outs
            &&& tx@.inputs.len() == 1
            &&& tx@.inputs[0].witness.len() == 3
            &&& tx@.inputs[0].witness[1] == reveal_script@
            &&& tx@.inputs[0].witness[2] == control_block@
            &&& tx@.inputs[0].prevout == (OutPointV { txid: prev_txid@,
                    vout: if bi == 0 { 0u32 } else { 1u32 } })
            &&& spec_fee(spec_vsize(tx@), reveal_fee_rate) == spec_reveal_fee(
                    reveal_script@.len(), spec_repeat_outs(bi as nat, repeat as nat,
                        target_postage, 0u64, service_total, dest_spk@, commit_spk@,
                        service_spk@), reveal_fee_rate)
            &&& !no_limit ==> spec_weight(tx@) <= MAX_STANDARD_TX_WEIGHT
            &&& forall|q: int| 0 <= q < tx@.outputs.len() ==> (#[trigger] tx@.outputs[q]).value
                    >= spec_dust_threshold(tx@.outputs[q].spk)
            &&& funding - sum_values(tx@.outputs) == funding - target_postage
                    - (if bi + 1 < repeat { carry as int } else { 0 })
                    - (if bi == 0 && service_total > 0 { service_total as int } else { 0 })
        },
        r matches Err(e) ==> (e == PlanError::WeightExceeded && !no_limit
            && spec_reveal_weight(reveal_script@.len(), spec_repeat_outs(bi as nat,
                repeat as nat, target_postage, carry, service_total, dest_spk@, commit_spk@,
                service_spk@)) > MAX_STANDARD_TX_WEIGHT),
{
    let outs = repeat_outs(bi, repeat, target_postage, carry, service_total, dest_spk,
        commit_spk, service_spk);
    let vout: u32 = if bi == 0 { 0 } else { 1 };
    let input = OutPoint { txid: Txid::new(dup(prev_txid)), vout };
    let unsigned = build_reveal_tx(input, outs);
    let prevout = TxOut { value: funding, spk: dup(commit_spk) };
    let signed = attach_reveal_witness(unsigned, key, &prevout, reveal_script, control_block);
    let w = weight(&signed);
    if !no_limit && w > MAX_STANDARD_TX_WEIGHT {
        return Err(PlanError::WeightExceeded);
    }
    proof {
        let n = repeat as nat;
        let outs_final = spec_repeat_outs(bi as nat, n, target_postage, carry, service_total,
            dest_spk@, commit_spk@, service_spk@);
        let outs_est = spec_repeat_outs(bi as nat, n, target_postage, 0u64, service_total,
            dest_spk@, commit_spk@, service_spk@);
        lemma_repeat_outs_facts(bi as nat, n, target_postage, carry, service_total, dest_spk@,
            commit_spk@, service_spk@);
        lemma_repeat_outs_facts(bi as nat, n, target_postage, 0u64, service_total, dest_spk@,
            commit_spk@, service_spk@);
        assert(forall|q: int| 0 <= q < outs_final.len()
            ==> (#[trigger] outs_final[q]).spk == outs_est[q].spk);
        lemma_outputs_size_spk(outs_final, outs_est);
        assert(spec_vsize(signed@) == spec_reveal_vsize(reveal_script@.len() as nat, outs_final));
        assert(spec_dust_threshold(commit_spk@) == 330);
        assert(forall|q: int| 0 <= q < signed@.outputs.len()
            ==> (#[trigger] signed@.outputs[q]).value
                >= spec_dust_threshold(signed@.outputs[q].spk));
    }
    Ok(signed)
}


/// Appending a correctly built reveal keeps the chain laws.
#[verifier::rlimit(100)]
proof fn lemma_chain_step(pre: Seq<Tx>, signed: Tx, commit: TxV, fees: Seq<u64>, cs: Seq<u64>,
    script: Seq<u8>, commit_spk: Seq<u8>, cb: Seq<u8>, dspk: Seq<u8>, sspk: Seq<u8>,
    repeat: u64, postage: u64, service_total: u64, rate: FeeRate, no_limit: bool,
    funding: u64, prev_txid: Seq<u8>)
    requires
        spec_chain_prefix_ok(pre, commit, fees, cs, script, commit_spk, cb, dspk, sspk, repeat,
            postage, service_total, rate, no_limit),
        pre.len() < repeat,
        fees.len() == repeat,
        cs.len() == repeat,
        forall|j: int| 0 <= j < repeat - 1 ==> (#[trigger] cs[j]) == cs[j + 1] + fees[j + 1] + postage,
        cs[repeat - 1] == 0,
        commit.outputs.len() >= 1,
        commit.outputs[0].value == fees[0] + postage + cs[0] + service_total,
        ({
            let j = pre.len() as int;
            &&& signed.wf()
            &&& signed@.outputs == spec_repeat_outs(j as nat, repeat as nat, postage, cs[j],
                    service_total, dspk, commit_spk, sspk)
            &&& signed@.inputs.len() == 1
            &&& signed@.inputs[0].witness.len() == 3
            &&& signed@.inputs[0].witness[1] == script
            &&& signed@.inputs[0].witness[2] == cb
            &&& signed@.inputs[0].prevout == (OutPointV { txid: prev_txid,
                    vout: if j == 0 { 0u32 } else { 1u32 } })
            &&& prev_txid == if j == 0 { txid_of(commit) } else { txid_of(pre[j - 1]@) }
            &&& spec_fee(spec_vsize(signed@), rate) == fees[j]
            &&& (!no_limit ==> spec_weight(signed@) <= MAX_STANDARD_TX_WEIGHT)
            &&& forall|q: int| 0 <= q < signed@.outputs.len()
                    ==> (#[trigger] signed@.outputs[q]).value
                        >= spec_dust_threshold(signed@.outputs[q].spk)
        }),
    ensures
        spec_chain_prefix_ok(pre.push(signed), commit, fees, cs, script, commit_spk, cb, dspk,
            sspk, repeat, postage, service_total, rate, no_limit),
{
    let j = pre.len() as int;
    let n = repeat as nat;
    let rs = pre.push(signed);
    assert(rs.drop_last() =~= pre);
    assert(rs[j] == signed);
    lemma_repeat_outs_facts(j as nat, n, postage, cs[j], service_total, dspk, commit_spk, sspk);
    if j == 0 {
        if repeat == 1 {
            assert(cs[0] == 0);
        }
        assert(commit.outputs[0].value - sum_values(signed@.outputs) == fees[0]);
    } else {
        assert(rs[j - 1] == pre[j - 1]);
        assert(cs[j - 1] == cs[j] + fees[j] + postage);
        if j == repeat - 1 {
            assert(cs[j] == 0);
        }
        lemma_chain_index(pre, commit, fees, cs, script, commit_spk, cb, dspk, sspk, repeat,
            postage, service_total, rate, no_limit, j - 1);
        assert(pre[j - 1]@.outputs[1].value == cs[j - 1]) by {
            lemma_repeat_outs_facts((j - 1) as nat, n, postage, cs[j - 1], service_total, dspk,
                commit_spk, sspk);
        }
        assert(cs[j - 1] - sum_values(signed@.outputs) == fees[j]);
    }
    assert(spec_chain_elem_ok(rs, j, commit, fees, cs, script, commit_spk, cb, dspk, sspk,
        repeat, postage, service_total, rate, no_limit));
}

/// Builds the whole signed reveal chain over an already funded commit.
#[verifier::rlimit(100)]
fn build_reveal_chain(
    key: &RevealKey,
    reveal_script: &Vec<u8>,
    commit_spk: &Vec<u8>,
    control_block: &Vec<u8>,
    dest_spk: &Vec<u8>,
    service_spk: &Vec<u8>,
    fees: &Vec<u64>,
    carries: &Vec<u64>,
    commit_tx: &Tx,
    target: u64,
    repeat: u64,
    service_total: u64,
    target_postage: u64,
    reveal_fee_rate: FeeRate,
    no_limit: bool,
) -> (r: Result<Vec<Tx>, PlanError>)
    requires
        1 <= repeat <= 1_000,
        330 <= target_postage <= 1_000_000_000,
        target_postage >= spec_dust_threshold(dest_spk@),
        service_total > 0 ==> service_total >= spec_dust_threshold(service_spk@),
        reveal_script@.len() <= 4_000_000,
        reveal_fee_rate.wf(),
        dest_spk@.len() <= 10_000,
        service_spk@.len() <= 10_000,
        commit_spk@.len() == 34,
        commit_spk@[0] == 0x51u8,
        commit_spk@[1] == 0x20u8,
        control_block@.len() == 33,
        fees@.len() == repeat,
        carries@.len() == repeat,
        forall|j: int| 0 <= j < repeat ==> (#[trigger] fees@[j]) == spec_reveal_fee(
            reveal_script@.len(), spec_repeat_outs(j as nat, repeat as nat, target_postage, 0u64,
                service_total, dest_spk@, commit_spk@, service_spk@), reveal_fee_rate),
        forall|j: int| 0 <= j < repeat - 1 ==> (#[trigger] carries@[j])
            == carries@[j + 1] + fees@[j + 1] + target_postage,
        forall|j: int| 0 <= j < repeat ==> 0 <= (#[trigger] carries@[j]),
        carries@[repeat - 1] == 0,
        commit_tx.wf(),
        commit_tx@.outputs.len() >= 1,
        commit_tx@.outputs[0] == (TxOutV { value: target, spk: commit_spk@ }),
        target == fees@[0] + target_postage + carries@[0] + service_total,
    ensures
        r matches Ok(rs) ==> spec_chain_ok(rs@, commit_tx@, fees@, carries@, reveal_script@,
            commit_spk@, control_block@, dest_spk@, service_spk@, repeat, target_postage,
            service_total, reveal_fee_rate, no_limit),
        r matches Err(e) ==> (e == PlanError::WeightExceeded && !no_limit
            && exists|i: int| 0 <= i < repeat
                && spec_reveal_weight(reveal_script@.len(), spec_repeat_outs(i as nat,
                    repeat as nat, target_postage, (#[trigger] carries@[i]), service_total,
                    dest_spk@, commit_spk@, service_spk@)) > MAX_STANDARD_TX_WEIGHT),
{
    let ghost dspk = dest_spk@;
    let ghost sspk = service_spk@;
    let commit_txid = tx_txid(commit_tx);
    let mut reveals: Vec<Tx> = Vec::new();
    let mut prev_txid: Vec<u8> = commit_txid;
    proof {
        assert(spec_chain_prefix_ok(reveals@, commit_tx@, fees@, carries@, reveal_script@,
            commit_spk@, control_block@, dspk, sspk, repeat, target_postage, service_total,
            reveal_fee_rate, no_limit));
    }
    let mut bi: u64 = 0;
    while bi < repeat
        invariant
            bi <= repeat,
            reveals@.len() == bi,
            1 <= repeat <= 1_000,
            330 <= target_postage <= 1_000_000_000,
            target_postage >= spec_dust_threshold(dspk),
            service_total > 0 ==> service_total >= spec_dust_threshold(sspk),
            reveal_script@.len() <= 4_000_000,
            reveal_fee_rate.wf(),
            dspk == dest_spk@,
            sspk == service_spk@,
            dest_spk@.len() <= 10_000,
            service_spk@.len() <= 10_000,
            commit_spk@.len() == 34,
            commit_spk@[0] == 0x51u8,
            commit_spk@[1] == 0x20u8,
            control_block@.len() == 33,
            fees@.len() == repeat,
            carries@.len() == repeat,
            forall|j: int| 0 <= j < repeat ==> (#[trigger] fees@[j]) == spec_reveal_fee(
                reveal_script@.len(), spec_repeat_outs(j as nat, repeat as nat, target_postage,
                    0u64, service_total, dspk, commit_spk@, sspk), reveal_fee_rate),
            forall|j: int| 0 <= j < repeat - 1 ==> (#[trigger] carries@[j])
                == carries@[j + 1] + fees@[j + 1] + target_postage,
            forall|j: int| 0 <= j < repeat ==> 0 <= (#[trigger] carries@[j]),
            carries@[repeat - 1] == 0,
            commit_tx.wf(),
            commit_tx@.outputs.len() >= 1,
            commit_tx@.outputs[0] == (TxOutV { value: target, spk: commit_spk@ }),
            target == fees@[0] + target_postage + carries@[0] + service_total,
            prev_txid@.len() == 32,
            bi == 0 ==> prev_txid@ == txid_of(commit_tx@),
            bi > 0 ==> prev_txid@ == txid_of(reveals@[bi - 1]@),
            spec_chain_prefix_ok(reveals@, commit_tx@, fees@, carries@, reveal_script@,
                commit_spk@, control_block@, dspk, sspk, repeat, target_postage, service_total,
                reveal_fee_rate, no_limit),
        decreases repeat - bi,
    {
        let ghost pre_reveals = reveals@;
        let ghost old_prev_txid = prev_txid@;
        let carry = carries[bi as usize];
        let funding = if bi == 0 { target } else { carries[(bi - 1) as usize] };
        let signed = match make_reveal(bi, repeat, target_postage, carry, service_total, key,
            reveal_script, commit_spk, control_block, dest_spk, service_spk, &prev_txid, funding,
            reveal_fee_rate, no_limit) {
            Ok(tx) => tx,
            Err(e) => {
                return Err(e);
            },
        };
        prev_txid = tx_txid(&signed);
        reveals.push(signed);
        proof {
            lemma_chain_step(pre_reveals, signed, commit_tx@, fees@, carries@, reveal_script@,
                commit_spk@, control_block@, dspk, sspk, repeat, target_postage, service_total,
                reveal_fee_rate, no_limit, funding, old_prev_txid);
            assert(reveals@ =~= pre_reveals.push(signed));
        }
        bi += 1;
    }
    Ok(reveals)
}

/// Builds the commit and the signed reveal chain for a repeat mint.
#[verifier::rlimit(100)]
#[verifier::spinoff_prover]
pub fn create_inscription_transactions(
    satpoint: Option<SatPoint>,
    inscription: &Inscription,
    index: &Vec<IndexEntry>,
    utxos: &Vec<UtxoEntry>,
    change_spk: &Vec<u8>,
    destination: &AddressInfo,
    commit_fee_rate: FeeRate,
    reveal_fee_rate: FeeRate,
    no_limit: bool,
    service_address: &AddressInfo,
    repeat: u64,
    service_fee: u64,
    target_postage: u64,
    source_kind: AddrKind,
) -> (r: Result<MintPlan, PlanError>)
    requires
        inscription.wf(),
        spec_mint_inputs_ok(utxos@, index@, change_spk@, *destination, *service_address,
            commit_fee_rate, reveal_fee_rate, repeat, service_fee, target_postage),
        index@.len() <= 100_000,
        satpoint matches Some(s) ==> s.wf(),
    ensures
        r matches Ok(plan) ==> spec_mint_plan_ok(plan, satpoint, utxos@, index@, change_spk@,
            *destination, commit_fee_rate, reveal_fee_rate, no_limit, *service_address, repeat,
            target_postage, service_fee, spec_wlen(source_kind)),
        r matches Ok(plan) ==> plan.reveal_script@ == spec_reveal_script(plan.key@,
            inscription.content_type@, inscription.body@),
        r matches Err(e) ==> (e == PlanError::NoCardinalUtxos || e == PlanError::AlreadyInscribed
            || e == PlanError::DustOutput || e == PlanError::StaleTransferAnchor
            || e == PlanError::Insufficient || e == PlanError::WeightExceeded),
        r == Err::<MintPlan, PlanError>(PlanError::NoCardinalUtxos)
            <==> (satpoint is None && forall|k: int| 0 <= k < utxos@.len()
                ==> spec_outpoint_inscribed(seq_views(index@), (#[trigger] seq_views(utxos@)[k]).outpoint)),
        r == Err::<MintPlan, PlanError>(PlanError::AlreadyInscribed)
            <==> (satpoint matches Some(s)
                && spec_outpoint_inscribed(seq_views(index@), s@.outpoint)),
        r == Err::<MintPlan, PlanError>(PlanError::DustOutput)
            <==> (spec_mint_screen_ok(satpoint, utxos@, index@)
                && spec_mint_dust_bad(target_postage, service_fee, repeat, destination.spk@,
                    service_address.spk@)),
        r == Err::<MintPlan, PlanError>(PlanError::StaleTransferAnchor)
            <==> (spec_mint_screen_ok(satpoint, utxos@, index@)
                && !spec_mint_dust_bad(target_postage, service_fee, repeat, destination.spk@,
                    service_address.spk@)
                && (satpoint matches Some(s)
                    && spec_find_utxo(seq_views(utxos@), s@.outpoint) is None)),
        r == Err::<MintPlan, PlanError>(PlanError::Insufficient)
            ==> exists|a: SatPointV, cspk: Seq<u8>| #[trigger] spec_mint_shortfall(a, cspk,
                satpoint, utxos@, index@, change_spk@, destination.spk@, service_address.spk@,
                commit_fee_rate, reveal_fee_rate, repeat, target_postage, service_fee,
                spec_script_len(inscription.content_type@.len(), inscription.body@.len()),
                spec_wlen(source_kind)),
        r == Err::<MintPlan, PlanError>(PlanError::WeightExceeded)
            ==> (!no_limit && exists|i: int| 0 <= i < repeat
                && #[trigger] spec_mint_overweight(i, inscription.content_type@.len(),
                    inscription.body@.len(), repeat, target_postage, service_fee,
                    destination.spk@, service_address.spk@)),
{
    // The anchor: the given satpoint, or the first cardinal wallet entry.
    let anchor: SatPoint = match &satpoint {
        Some(s) => {
            if outpoint_inscribed(index, &s.outpoint) {
                return Err(PlanError::AlreadyInscribed);
            }
            s.clone()
        },
        None => {
            match first_cardinal_satpoint(utxos, index) {
                Some(s) => s,
                None => {
                    return Err(PlanError::NoCardinalUtxos);
                },
            }
        },
    };

    // The reveal-side crypto: a fresh key, the reveal script over it, and
    // the taproot commitment to that script.
    let key = key_new();
    let reveal_script = build_reveal_script(key.pubkey(), inscription);
    let (commit_spk, control_block) = taproot_commit(&key, &reveal_script);
    // Recompute the commitment independently from the tweak path; a
    // mismatch would mean the derivation itself went wrong.
    let recheck = crate::crypto::recompute_commit_spk(&key, &reveal_script);
    if !crate::bytes::bytes_eq(&recheck, &commit_spk) {
        return Err(PlanError::BadRequest);
    }

    // The service total: per-mint fee times the count, floored at 600
    // satoshis when present at all.
    proof {
        assert(service_fee * repeat <= 1_000_000_000 * 1_000) by (nonlinear_arith)
            requires
                service_fee <= 1_000_000_000,
                repeat <= 1_000,
        ;
    }
    let service_total0 = service_fee * repeat;
    let service_total: u64 = if service_total0 == 0 {
        0
    } else if service_total0 < 600 {
        600
    } else {
        service_total0
    };

    // Dust screening for the fixed reveal outputs.
    let dust_dest = dust_threshold(&destination.spk);
    if target_postage < dust_dest {
        proof {
            reveal(spec_mint_dust_bad);
        }
        return Err(PlanError::DustOutput);
    }
    let dust_svc = dust_threshold(&service_address.spk);
    if service_total > 0 && service_total < dust_svc {
        proof {
            reveal(spec_mint_dust_bad);
        }
        return Err(PlanError::DustOutput);
    }
    proof {
        assert(!spec_mint_dust_bad(target_postage, service_fee, repeat, destination.spk@,
            service_address.spk@)) by {
            reveal(spec_mint_dust_bad);
        }
    }

    // Sizing pass: each reveal's fee from its output shape.
    let slen = reveal_script.len() as u64;
    let mut fees: Vec<u64> = Vec::new();
    let mut i: u64 = 0;
    while i < repeat
        invariant
            i <= repeat,
            fees@.len() == i,
            repeat <= 1_000,
            slen == reveal_script@.len(),
            slen <= 4_000_000,
            reveal_fee_rate.wf(),
            destination.spk@.len() <= 10_000,
            commit_spk@.len() == 34,
            service_address.spk@.len() <= 10_000,
            forall|j: int| 0 <= j < i ==> (#[trigger] fees@[j]) == spec_reveal_fee(slen as nat,
                spec_repeat_outs(j as nat, repeat as nat, target_postage, 0u64, service_total,
                    destination.spk@, commit_spk@, service_address.spk@), reveal_fee_rate),
            forall|j: int| 0 <= j < i ==> (#[trigger] fees@[j]) <= 200_000_000_000_000,
        decreases repeat - i,
    {
        let outs = repeat_outs(i, repeat, target_postage, 0, service_total, &destination.spk,
            &commit_spk, &service_address.spk);
        let f = reveal_fee(slen, &outs, reveal_fee_rate);
        fees.push(f);
        i += 1;
    }

    // Carry pass: what each reveal forwards to those after it.
    let mut carries: Vec<u64> = Vec::new();
    let mut z: u64 = 0;
    while z < repeat
        invariant
            z <= repeat,
            carries@.len() == z,
            forall|j: int| 0 <= j < z ==> (#[trigger] carries@[j]) == 0,
        decreases repeat - z,
    {
        carries.push(0);
        z += 1;
    }
    let mut t: usize = (repeat - 1) as usize;
    while t > 0
        invariant
            t <= repeat - 1,
            carries@.len() == repeat,
            fees@.len() == repeat,
            repeat <= 1_000,
            target_postage <= 1_000_000_000,
            forall|j: int| 0 <= j < repeat ==> (#[trigger] fees@[j]) <= 200_000_000_000_000,
            forall|j: int| t <= j < repeat ==> (#[trigger] carries@[j])
                == spec_tail_need(fees@, target_postage, j + 1),
            forall|j: int| t <= j < repeat ==> (#[trigger] carries@[j])
                <= (repeat - 1 - j) * 200_002_000_000_000,
        decreases t,
    {
        let v = carries[t] + fees[t] + target_postage;
        carries.set(t - 1, v);
        proof {
            assert(carries@[t - 1] == spec_tail_need(fees@, target_postage, t as int));
        }
        t -= 1;
    }
    proof {
        assert(forall|j: int| 0 <= j < repeat ==> (#[trigger] carries@[j])
            == spec_tail_need(fees@, target_postage, j + 1));
        assert(carries@[repeat - 1] == 0);
        assert(forall|j: int| 0 <= j < repeat - 1 ==> (#[trigger] carries@[j])
            == carries@[j + 1] + fees@[j + 1] + target_postage);
        assert forall|j: int| 0 <= j < repeat implies 0 <= (#[trigger] carries@[j]) by {
            lemma_tail_nonneg(fees@, target_postage, j + 1);
        }
    }

    // The commit target: the first reveal's fee and postage, everything it
    // forwards, and the service total.
    let target = fees[0] + target_postage + carries[0] + service_total;

    // Fund the commit from the wallet, anchored on the chosen satpoint.
    let wlen = wlen_for(source_kind);
    let mut anchors_vec: Vec<SatPoint> = Vec::new();
    anchors_vec.push(anchor);
    let opret: Option<Vec<u8>> = None;
    let ghost slen_c = spec_script_len(inscription.content_type@.len(), inscription.body@.len());
    proof {
        // The target in closed form over the script length.
        lemma_mint_target_bridge(fees@, carries@[0] as u64, slen_c, repeat, target_postage,
            service_fee, service_total, destination.spk@, commit_spk@, service_address.spk@,
            reveal_fee_rate, target);
        // The commitment script clears its own dust threshold at any
        // postage, so funding can only fail for staleness or shortfall.
        assert(spec_dust_threshold(commit_spk@) == 330);
        // The anchor obeys the rule for its mode.
        assert(seq_views(anchors_vec@) =~= seq![anchor@]);
        match &satpoint {
            Some(s0) => {
                assert(anchor@ == s0@);
            },
            None => {
                assert(spec_is_first_cardinal(anchor@.outpoint, utxos@, index@));
                let kf = choose|k: int| 0 <= k < utxos@.len()
                    && (#[trigger] seq_views(utxos@)[k]).outpoint == anchor@.outpoint
                    && !spec_outpoint_inscribed(seq_views(index@), anchor@.outpoint)
                    && (forall|j: int| 0 <= j < k ==> spec_outpoint_inscribed(seq_views(index@),
                        (#[trigger] seq_views(utxos@)[j]).outpoint));
                lemma_find_exists(seq_views(utxos@), anchor@.outpoint);
            },
        }
        assert(spec_mint_anchor_rule(anchor@, satpoint, utxos@, index@));
    }
    let sel = match select_funds(&anchors_vec, utxos, index, &commit_spk, target, change_spk,
        commit_fee_rate, wlen, &opret) {
        Ok(s) => s,
        Err(e) => {
            proof {
                if e == PlanError::Insufficient {
                    reveal(spec_mint_shortfall);
                    assert(spec_mint_shortfall(anchor@, commit_spk@, satpoint, utxos@, index@,
                        change_spk@, destination.spk@, service_address.spk@, commit_fee_rate,
                        reveal_fee_rate, repeat, target_postage, service_fee, slen_c,
                        spec_wlen(source_kind)));
                }
                if e == PlanError::StaleTransferAnchor {
                    let kw = choose|k: int| 0 <= k < anchors_vec@.len()
                        && spec_find_utxo(seq_views(utxos@),
                            (#[trigger] seq_views(anchors_vec@)[k]).outpoint) is None;
                    assert(seq_views(anchors_vec@)[kw] == anchor@);
                }
            }
            return Err(e);
        },
    };
    proof {
        // The funded anchor is present in the view.
        assert(sel.tx@.inputs[0].prevout == anchor@.outpoint);
        assert(spec_find_utxo(seq_views(utxos@), anchor@.outpoint) is Some);
    }

    // Build the signed reveal chain over the funded commit.
    let reveals = match build_reveal_chain(&key, &reveal_script, &commit_spk, &control_block,
        &destination.spk, &service_address.spk, &fees, &carries, &sel.tx, target, repeat,
        service_total, target_postage, reveal_fee_rate, no_limit) {
        Ok(rs) => rs,
        Err(e) => {
            proof {
                let iw = choose|i: int| 0 <= i < repeat
                    && spec_reveal_weight(reveal_script@.len(), spec_repeat_outs(i as nat,
                        repeat as nat, target_postage, (#[trigger] carries@[i]), service_total,
                        destination.spk@, commit_spk@, service_address.spk@))
                        > MAX_STANDARD_TX_WEIGHT;
                let a = spec_repeat_outs(iw as nat, repeat as nat, target_postage,
                    carries@[iw], service_total, destination.spk@, commit_spk@,
                    service_address.spk@);
                let b = spec_repeat_outs(iw as nat, repeat as nat, target_postage, 0u64,
                    service_total, destination.spk@, spec_commit_spk_shape(),
                    service_address.spk@);
                lemma_repeat_outs_facts(iw as nat, repeat as nat, target_postage,
                    carries@[iw], service_total, destination.spk@, commit_spk@,
                    service_address.spk@);
                lemma_repeat_outs_facts(iw as nat, repeat as nat, target_postage, 0u64,
                    service_total, destination.spk@, spec_commit_spk_shape(),
                    service_address.spk@);
                lemma_reveal_size_len(reveal_script@.len(), a, b);
                assert(spec_mint_overweight(iw, inscription.content_type@.len(),
                    inscription.body@.len(), repeat, target_postage, service_fee,
                    destination.spk@, service_address.spk@)) by {
                    reveal(spec_mint_overweight);
                }
            }
            return Err(e);
        },
    };

    let ghost anchor_v = anchors_vec@[0]@;
    proof {
        assert(seq_views(anchors_vec@) =~= seq![anchor_v]);
    }
    let plan = MintPlan {
        commit: sel,
        reveals,
        reveal_fees: fees,
        carries,
        key,
        reveal_script,
        commit_spk,
        control_block,
        service_total,
        postage: target_postage,
    };
    proof {
        assert(spec_mint_anchor_ok(plan, anchor_v, satpoint, utxos@, index@, change_spk@,
            commit_fee_rate, spec_wlen(source_kind), target));
        assert(spec_chain_ok(plan.reveals@, plan.commit.tx@, plan.reveal_fees@, plan.carries@,
            plan.reveal_script@, plan.commit_spk@, plan.control_block@, destination.spk@,
            service_address.spk@, repeat, target_postage, plan.service_total, reveal_fee_rate,
            no_limit));
        assert(spec_mint_plan_ok(plan, satpoint, utxos@, index@, change_spk@, *destination,
            commit_fee_rate, reveal_fee_rate, no_limit, *service_address, repeat, target_postage,
            service_fee, spec_wlen(source_kind)));
    }
    Ok(plan)
}

} // verus!
verus! {

/// Postage preservation: in a lawful repeat plan, the first output of
/// every reveal pays exactly the postage to the destination.
pub proof fn lemma_postage_preserved(plan: MintPlan, satpoint: Option<SatPoint>,
    utxos: Seq<UtxoEntry>, index: Seq<IndexEntry>, change_spk: Seq<u8>, dest: AddressInfo,
    commit_rate: FeeRate, reveal_rate: FeeRate, no_limit: bool, service: AddressInfo,
    repeat: u64, postage: u64, service_fee: u64, wlen: nat, i: int)
    requires
        spec_mint_plan_ok(plan, satpoint, utxos, index, change_spk, dest, commit_rate,
            reveal_rate, no_limit, service, repeat, postage, service_fee, wlen),
        0 <= i < repeat,
    ensures
        plan.reveals@[i]@.outputs[0] == (TxOutV { value: postage, spk: dest.spk@ }),
{
    lemma_chain_index(plan.reveals@, plan.commit.tx@, plan.reveal_fees@, plan.carries@,
        plan.reveal_script@, plan.commit_spk@, plan.control_block@, dest.spk@, service.spk@,
        repeat, postage, plan.service_total, reveal_rate, no_limit, i);
    lemma_repeat_outs_facts(i as nat, repeat as nat, postage, plan.carries@[i],
        plan.service_total, dest.spk@, plan.commit_spk@, service.spk@);
}

/// Inscription exclusion: no input of a lawful selection beyond its
/// anchors sits on an inscribed outpoint.
pub proof fn lemma_inscription_exclusion(sel: Selection, av: Seq<SatPointV>,
    uv: Seq<UtxoEntryV>, iv: Seq<IndexEntryV>, payment_value: u64, pspk: Seq<u8>,
    cspk: Seq<u8>, rate: FeeRate, wlen: nat, opret: Option<Seq<u8>>, i: int)
    requires
        spec_selection_ok(sel, av, uv, iv, payment_value, pspk, cspk, rate, wlen, opret),
        av.len() <= i < sel.tx@.inputs.len(),
    ensures
        !spec_outpoint_inscribed(iv, sel.tx@.inputs[i].prevout),
{
}

/// Commit key closure: the first commit output of a lawful repeat plan
/// carries exactly the script committing to the reveal key and script.
pub proof fn lemma_commit_key_closure(plan: MintPlan, satpoint: Option<SatPoint>,
    utxos: Seq<UtxoEntry>, index: Seq<IndexEntry>, change_spk: Seq<u8>, dest: AddressInfo,
    commit_rate: FeeRate, reveal_rate: FeeRate, no_limit: bool, service: AddressInfo,
    repeat: u64, postage: u64, service_fee: u64, wlen: nat)
    requires
        spec_mint_plan_ok(plan, satpoint, utxos, index, change_spk, dest, commit_rate,
            reveal_rate, no_limit, service, repeat, postage, service_fee, wlen),
    ensures
        plan.commit.tx@.outputs[0].spk == commit_spk_of(plan.key@, plan.reveal_script@),
{
    let target = (plan.reveal_fees@[0] + postage + plan.carries@[0]
        + plan.service_total) as u64;
    let a = choose|a: SatPointV| #[trigger] spec_mint_anchor_ok(plan, a, satpoint, utxos,
        index, change_spk, commit_rate, wlen, target);
    assert(spec_selection_ok(plan.commit, seq![a], seq_views(utxos), seq_views(index), target,
        plan.commit_spk@, change_spk, commit_rate, wlen, None));
}

/// Reveal chain linkage: in a lawful repeat plan, every reveal after the
/// first spends the second output of its predecessor, and the first spends
/// the commit's first output.
pub proof fn lemma_reveal_chain_linkage(plan: MintPlan, satpoint: Option<SatPoint>,
    utxos: Seq<UtxoEntry>, index: Seq<IndexEntry>, change_spk: Seq<u8>, dest: AddressInfo,
    commit_rate: FeeRate, reveal_rate: FeeRate, no_limit: bool, service: AddressInfo,
    repeat: u64, postage: u64, service_fee: u64, wlen: nat, i: int)
    requires
        spec_mint_plan_ok(plan, satpoint, utxos, index, change_spk, dest, commit_rate,
            reveal_rate, no_limit, service, repeat, postage, service_fee, wlen),
        0 <= i < repeat,
    ensures
        i == 0 ==> plan.reveals@[0]@.inputs[0].prevout
            == (OutPointV { txid: txid_of(plan.commit.tx@), vout: 0u32 }),
        i > 0 ==> plan.reveals@[i]@.inputs[0].prevout
            == (OutPointV { txid: txid_of(plan.reveals@[i - 1]@), vout: 1u32 }),
{
    lemma_chain_index(plan.reveals@, plan.commit.tx@, plan.reveal_fees@, plan.carries@,
        plan.reveal_script@, plan.commit_spk@, plan.control_block@, dest.spk@, service.spk@,
        repeat, postage, plan.service_total, reveal_rate, no_limit, i);
}

/// Dust and weight: in a lawful repeat plan, no reveal output falls below
/// its script's dust threshold, and, unless the ceiling was lifted, no
/// reveal weighs more than the standardness limit.
pub proof fn lemma_dust_and_weight(plan: MintPlan, satpoint: Option<SatPoint>,
    utxos: Seq<UtxoEntry>, index: Seq<IndexEntry>, change_spk: Seq<u8>, dest: AddressInfo,
    commit_rate: FeeRate, reveal_rate: FeeRate, no_limit: bool, service: AddressInfo,
    repeat: u64, postage: u64, service_fee: u64, wlen: nat, i: int)
    requires
        spec_mint_plan_ok(plan, satpoint, utxos, index, change_spk, dest, commit_rate,
            reveal_rate, no_limit, service, repeat, postage, service_fee, wlen),
        0 <= i < repeat,
    ensures
        forall|q: int| 0 <= q < plan.reveals@[i]@.outputs.len()
            ==> (#[trigger] plan.reveals@[i]@.outputs[q]).value
                >= spec_dust_threshold(plan.reveals@[i]@.outputs[q].spk),
        !no_limit ==> spec_weight(plan.reveals@[i]@) <= MAX_STANDARD_TX_WEIGHT,
{
    lemma_chain_index(plan.reveals@, plan.commit.tx@, plan.reveal_fees@, plan.carries@,
        plan.reveal_script@, plan.commit_spk@, plan.control_block@, dest.spk@, service.spk@,
        repeat, postage, plan.service_total, reveal_rate, no_limit, i);
}

/// Sizing idempotence: in a lawful repeat plan, the fee each reveal was
/// sized with equals the fee of the reveal as built, so one sizing pass is
/// a fixed point.
pub proof fn lemma_sizing_fixed_point(plan: MintPlan, satpoint: Option<SatPoint>,
    utxos: Seq<UtxoEntry>, index: Seq<IndexEntry>, change_spk: Seq<u8>, dest: AddressInfo,
    commit_rate: FeeRate, reveal_rate: FeeRate, no_limit: bool, service: AddressInfo,
    repeat: u64, postage: u64, service_fee: u64, wlen: nat, i: int)
    requires
        spec_mint_plan_ok(plan, satpoint, utxos, index, change_spk, dest, commit_rate,
            reveal_rate, no_limit, service, repeat, postage, service_fee, wlen),
        0 <= i < repeat,
    ensures
        plan.reveal_fees@[i] == spec_fee(spec_vsize(plan.reveals@[i]@), reveal_rate),
{
    lemma_chain_index(plan.reveals@, plan.commit.tx@, plan.reveal_fees@, plan.carries@,
        plan.reveal_script@, plan.commit_spk@, plan.control_block@, dest.spk@, service.spk@,
        repeat, postage, plan.service_total, reveal_rate, no_limit, i);
}

/// Value conservation along the chain: each reveal spends exactly its
/// funding minus its fee.
pub proof fn lemma_chain_value_conserved(plan: MintPlan, satpoint: Option<SatPoint>,
    utxos: Seq<UtxoEntry>, index: Seq<IndexEntry>, change_spk: Seq<u8>, dest: AddressInfo,
    commit_rate: FeeRate, reveal_rate: FeeRate, no_limit: bool, service: AddressInfo,
    repeat: u64, postage: u64, service_fee: u64, wlen: nat, i: int)
    requires
        spec_mint_plan_ok(plan, satpoint, utxos, index, change_spk, dest, commit_rate,
            reveal_rate, no_limit, service, repeat, postage, service_fee, wlen),
        0 <= i < repeat,
    ensures
        i == 0 ==> plan.commit.tx@.outputs[0].value - sum_values(plan.reveals@[0]@.outputs)
            == plan.reveal_fees@[0],
        i > 0 ==> plan.reveals@[i - 1]@.outputs[1].value
            - sum_values(plan.reveals@[i]@.outputs) == plan.reveal_fees@[i],
{
    lemma_chain_index(plan.reveals@, plan.commit.tx@, plan.reveal_fees@, plan.carries@,
        plan.reveal_script@, plan.commit_spk@, plan.control_block@, dest.spk@, service.spk@,
        repeat, postage, plan.service_total, reveal_rate, no_limit, i);
}

} // verus!
