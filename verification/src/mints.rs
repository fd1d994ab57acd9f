//! The batch-mint planner: several distinct inscriptions, one commit, and
//! a first reveal that fans out to one further reveal per inscription.

use vstd::prelude::*;
use crate::types::{
    Tx, TxV, TxOut, TxOutV, OutPoint, OutPointV, SatPoint, SatPointV, Txid, UtxoEntry,
    IndexEntry, AddressInfo, AddrKind, Net, FeeRate, PlanError, seq_views, sum_values,
    spec_utxo_sum,
};
use crate::fees::{spec_fee, spec_vsize, spec_weight, spec_dust_threshold, dust_threshold, weight};
use crate::select::{
    Selection, select_funds, spec_outpoint_inscribed, spec_distinct_outpoints,
};
use crate::script::{Inscription, build_reveal_script, spec_reveal_script};
use crate::crypto::{
    RevealKey, key_new, taproot_commit, commit_spk_of, control_block_of, tx_txid, txid_of, tx_ser,
};
use crate::revealtx::{
    build_reveal_tx, attach_reveal_witness, reveal_fee, spec_reveal_vsize,
};
use crate::mint::{
    MAX_STANDARD_TX_WEIGHT, SERVICE_FEE, TARGET_POSTAGE, first_cardinal_satpoint, wlen_for,
    spec_wlen, spec_mint_anchor_ok_none,
};
use crate::bytes::{dup, hex_encode};
use crate::ser::{psbt_ser, companion_list, inscription_id_display};

verus! {

/// The fan-out outputs of the first batch reveal: the destination postage,
/// one next-commit output per later inscription carrying its fee and
/// postage, and the service total when there is one.
pub open spec fn spec_batch_outs0(postage: u64, fees: Seq<u64>, spks: Seq<Seq<u8>>,
    service_total: u64, dspk: Seq<u8>, sspk: Seq<u8>) -> Seq<TxOutV>
{
    let base = seq![TxOutV { value: postage, spk: dspk }]
        + Seq::new((fees.len() - 1) as nat, |j: int| TxOutV {
            value: (fees[j + 1] + postage) as u64,
            spk: spks[j + 1],
        });
    if service_total > 0 {
        base.push(TxOutV { value: service_total, spk: sspk })
    } else {
        base
    }
}

/// The single destination output of every later batch reveal.
pub open spec fn spec_batch_outs_later(postage: u64, dspk: Seq<u8>) -> Seq<TxOutV> {
    seq![TxOutV { value: postage, spk: dspk }]
}

/// Everything the batch planner hands back.
pub struct MintsPlan {
    pub commit: Selection,
    pub reveals: Vec<Tx>,
    pub reveal_fees: Vec<u64>,
    pub key: RevealKey,
    pub reveal_scripts: Vec<Vec<u8>>,
    pub commit_spks: Vec<Vec<u8>>,
    pub control_blocks: Vec<Vec<u8>>,
    pub service_total: u64,
    pub postage: u64,
}

/// The per-position laws of a batch plan.
pub open spec fn spec_batch_elem_ok(rs: Seq<Tx>, j: int, commit: TxV, fees: Seq<u64>,
    scripts: Seq<Vec<u8>>, spks: Seq<Vec<u8>>, cbs: Seq<Vec<u8>>, postage: u64,
    service_total: u64, dspk: Seq<u8>, sspk: Seq<u8>, rate: FeeRate, no_limit: bool) -> bool
{
    &&& rs[j].wf()
    &&& rs[j]@.outputs == if j == 0 {
            spec_batch_outs0(postage, fees, seq_views(spks), service_total, dspk, sspk)
        } else {
            spec_batch_outs_later(postage, dspk)
        }
    &&& rs[j]@.inputs.len() == 1
    &&& rs[j]@.inputs[0].witness.len() == 3
    &&& rs[j]@.inputs[0].witness[1] == spks_script(scripts, j)
    &&& rs[j]@.inputs[0].witness[2] == spks_script(cbs, j)
    &&& fees[j] == spec_fee(spec_vsize(rs[j]@), rate)
    &&& (!no_limit ==> spec_weight(rs[j]@) <= MAX_STANDARD_TX_WEIGHT)
    &&& forall|q: int| 0 <= q < rs[j]@.outputs.len() ==> (#[trigger] rs[j]@.outputs[q]).value
            >= spec_dust_threshold(rs[j]@.outputs[q].spk)
    &&& rs[j]@.inputs[0].prevout == (OutPointV {
            txid: if j == 0 { txid_of(commit) } else { txid_of(rs[0]@) },
            vout: if j == 0 { 0u32 } else { j as u32 },
        })
    &&& (if j == 0 { commit.outputs[0].value as int } else { rs[0]@.outputs[j].value as int })
            - sum_values(rs[j]@.outputs) == fees[j]
}

/// The bytes of the j-th script in a list.
pub open spec fn spks_script(list: Seq<Vec<u8>>, j: int) -> Seq<u8> {
    list[j]@
}

/// The laws of every position of a (prefix of a) batch plan.
pub open spec fn spec_batch_prefix_ok(rs: Seq<Tx>, n: u64, commit: TxV, fees: Seq<u64>,
    scripts: Seq<Vec<u8>>, spks: Seq<Vec<u8>>, cbs: Seq<Vec<u8>>, postage: u64,
    service_total: u64, dspk: Seq<u8>, sspk: Seq<u8>, rate: FeeRate, no_limit: bool) -> bool
    decreases rs.len(),
{
    rs.len() <= n && if rs.len() == 0 {
        true
    } else {
        spec_batch_prefix_ok(rs.drop_last(), n, commit, fees, scripts, spks, cbs, postage,
            service_total, dspk, sspk, rate, no_limit)
            && spec_batch_elem_ok(rs, rs.len() - 1, commit, fees, scripts, spks, cbs, postage,
                service_total, dspk, sspk, rate, no_limit)
    }
}

/// Every position of a lawful batch plan obeys the per-position laws.
pub proof fn lemma_batch_index(rs: Seq<Tx>, n: u64, commit: TxV, fees: Seq<u64>,
    scripts: Seq<Vec<u8>>, spks: Seq<Vec<u8>>, cbs: Seq<Vec<u8>>, postage: u64,
    service_total: u64, dspk: Seq<u8>, sspk: Seq<u8>, rate: FeeRate, no_limit: bool, j: int)
    requires
        spec_batch_prefix_ok(rs, n, commit, fees, scripts, spks, cbs, postage, service_total,
            dspk, sspk, rate, no_limit),
        0 <= j < rs.len(),
    ensures
        spec_batch_elem_ok(rs, j, commit, fees, scripts, spks, cbs, postage, service_total,
            dspk, sspk, rate, no_limit),
    decreases rs.len(),
{
    if j == rs.len() - 1 {
    } else {
        let pre = rs.drop_last();
        lemma_batch_index(pre, n, commit, fees, scripts, spks, cbs, postage, service_total,
            dspk, sspk, rate, no_limit, j);
        assert(pre[j] == rs[j]);
        assert(pre[0] == rs[0]);
    }
}

/// The laws of the whole batch plan.
pub open spec fn spec_mints_plan_ok(plan: MintsPlan, n: u64, utxos: Seq<UtxoEntry>,
    index: Seq<IndexEntry>, change_spk: Seq<u8>, dest: AddressInfo, service: AddressInfo,
    commit_rate: FeeRate, reveal_rate: FeeRate, no_limit: bool, postage: u64,
    service_fee: u64, wlen: nat) -> bool
{
    let rs = plan.reveals@;
    let fees = plan.reveal_fees@;
    let target = (fees[0] + postage + spec_need_range(fees, postage, 1, fees.len() as int)
        + plan.service_total) as u64;
    &&& plan.postage == postage
    &&& plan.service_total == (if service_fee * n == 0 { 0u64 }
            else if service_fee * n < 600 { 600u64 } else { (service_fee * n) as u64 })
    &&& rs.len() == n && fees.len() == n
    &&& plan.reveal_scripts@.len() == n && plan.commit_spks@.len() == n
    &&& plan.control_blocks@.len() == n
    &&& forall|i: int| 0 <= i < n ==> (#[trigger] plan.commit_spks@[i])@
            == commit_spk_of(plan.key@, plan.reveal_scripts@[i]@)
    &&& forall|i: int| 0 <= i < n ==> (#[trigger] plan.control_blocks@[i])@
            == control_block_of(plan.key@, plan.reveal_scripts@[i]@)
    &&& forall|i: int| 0 <= i < n ==> (#[trigger] fees[i]) <= 200_000_000_000_000
    &&& spec_mint_anchor_ok_none(plan.commit, utxos, index, change_spk, commit_rate, wlen,
            target, plan.commit_spks@[0]@)
    &&& spec_batch_prefix_ok(rs, n, plan.commit.tx@, fees, plan.reveal_scripts@,
            plan.commit_spks@, plan.control_blocks@, postage, plan.service_total,
            dest.spk@, service.spk@, reveal_rate, no_limit)
}


/// The shortfall a failed batch funding exhibits: over the first-cardinal
/// anchor, the actual 34-byte commitment scripts, and the sized fees they
/// pin, the anchor plus every drawable entry cannot cover the target and
/// the fee of the full selection.
#[verifier::opaque]
pub open spec fn spec_mints_shortfall(a: SatPointV, cspks: Seq<Vec<u8>>, fees: Seq<u64>,
    inscriptions: Seq<Inscription>, utxos: Seq<UtxoEntry>, index: Seq<IndexEntry>,
    change_spk: Seq<u8>, dest: AddressInfo, service: AddressInfo, commit_rate: FeeRate,
    reveal_rate: FeeRate, postage: u64, service_fee: u64, wlen: nat) -> bool
{
    let n = inscriptions.len();
    let svc = crate::mint::spec_service_total(service_fee, n as u64);
    let target = fees[0] + postage + spec_need_range(fees, postage, 1, n as int) + svc;
    &&& a.offset == 0
    &&& crate::mint::spec_is_first_cardinal(a.outpoint, utxos, index)
    &&& cspks.len() == n && fees.len() == n
    &&& (forall|i: int| 0 <= i < n ==> (#[trigger] cspks[i])@.len() == 34)
    &&& (forall|i: int| 1 <= i < n ==> (#[trigger] fees[i]) == spec_fee(spec_reveal_vsize(
            crate::script::spec_script_len(inscriptions[i].content_type@.len(),
                inscriptions[i].body@.len()),
            spec_batch_outs_later(postage, dest.spk@)), reveal_rate))
    &&& fees[0] == spec_fee(spec_reveal_vsize(
            crate::script::spec_script_len(inscriptions[0].content_type@.len(),
                inscriptions[0].body@.len()),
            spec_batch_outs0(postage, fees, seq_views(cspks), svc, dest.spk@, service.spk@)),
            reveal_rate)
    &&& crate::select::spec_anchor_sum(seq![a], seq_views(utxos))
            + crate::select::spec_cardinal_sum(seq_views(utxos), seq_views(index), seq![a])
        < target + crate::select::spec_sel_fee(
            1 + crate::select::spec_cardinal_count(seq_views(utxos), seq_views(index),
                seq![a]), wlen, target as u64, cspks[0]@, change_spk, None, commit_rate)
}

/// Whether the wallet view holds any uninscribed entry.
pub open spec fn spec_has_cardinal(utxos: Seq<UtxoEntry>, index: Seq<IndexEntry>) -> bool {
    exists|k: int| 0 <= k < utxos.len()
        && !spec_outpoint_inscribed(seq_views(index), (#[trigger] seq_views(utxos)[k]).outpoint)
}

/// The fee-and-postage need of positions `a` through `b` of the fee list.
pub open spec fn spec_need_range(fees: Seq<u64>, postage: u64, a: int, b: int) -> int
    decreases b - a when a <= b
{
    if a < 0 || a >= b || b > fees.len() {
        0
    } else {
        fees[a] + postage + spec_need_range(fees, postage, a + 1, b)
    }
}

proof fn lemma_need_range_extend(fees: Seq<u64>, postage: u64, a: int, b: int)
    requires
        0 <= a <= b < fees.len(),
    ensures
        spec_need_range(fees, postage, a, b + 1) == spec_need_range(fees, postage, a, b)
            + fees[b] + postage,
    decreases b - a,
{
    if a < b {
        lemma_need_range_extend(fees, postage, a + 1, b);
    } else {
        assert(spec_need_range(fees, postage, a, b) == 0);
        assert(spec_need_range(fees, postage, a + 1, b + 1) == 0);
        assert(spec_need_range(fees, postage, a, b + 1)
            == fees[a] + postage + spec_need_range(fees, postage, a + 1, b + 1));
    }
}

proof fn lemma_need_range_nonneg(fees: Seq<u64>, postage: u64, a: int, b: int)
    requires
        a <= b,
    ensures
        0 <= spec_need_range(fees, postage, a, b),
    decreases b - a,
{
    if 0 <= a && a < b && b <= fees.len() {
        lemma_need_range_nonneg(fees, postage, a + 1, b);
    }
}

/// The value of a concatenation of output lists is the sum of the parts.
proof fn lemma_sum_concat(a: Seq<TxOutV>, b: Seq<TxOutV>)
    ensures
        sum_values(a + b) == sum_values(a) + sum_values(b),
    decreases b.len(),
{
    if b.len() == 0 {
        assert(a + b =~= a);
    } else {
        lemma_sum_concat(a, b.drop_last());
        assert((a + b).drop_last() =~= a + b.drop_last());
        assert((a + b).last() == b.last());
    }
}

/// Shape facts about the fan-out outputs: length, members and total.
proof fn lemma_batch_outs0_facts(postage: u64, fees: Seq<u64>, spksv: Seq<Seq<u8>>,
    service_total: u64, dspk: Seq<u8>, sspk: Seq<u8>)
    requires
        fees.len() >= 1,
        spksv.len() == fees.len(),
        forall|j: int| 0 <= j < fees.len() ==> (#[trigger] fees[j]) <= 200_000_000_000_000,
        postage <= 1_000_000_000,
    ensures
        ({
            let outs = spec_batch_outs0(postage, fees, spksv, service_total, dspk, sspk);
            &&& outs.len() == fees.len() + (if service_total > 0 { 1int } else { 0 })
            &&& outs[0] == (TxOutV { value: postage, spk: dspk })
            &&& forall|j: int| 1 <= j < fees.len() ==> outs[j] == (TxOutV {
                    value: (fees[j] + postage) as u64, spk: spksv[j] })
            &&& (service_total > 0 ==> outs.last() == (TxOutV { value: service_total,
                    spk: sspk }))
            &&& sum_values(outs) == postage + spec_need_range(fees, postage, 1, fees.len() as int)
                + (if service_total > 0 { service_total as int } else { 0 })
        }),
{
    reveal_with_fuel(sum_values, 3);
    let n = fees.len() as int;
    let mid = Seq::new((n - 1) as nat, |j: int| TxOutV {
        value: (fees[j + 1] + postage) as u64,
        spk: spksv[j + 1],
    });
    let base = seq![TxOutV { value: postage, spk: dspk }] + mid;
    lemma_mid_sum(fees, spksv, postage, (n - 1) as nat);
    lemma_sum_concat(seq![TxOutV { value: postage, spk: dspk }], mid);
    assert(seq![TxOutV { value: postage, spk: dspk }].drop_last() =~= Seq::<TxOutV>::empty());
    assert(sum_values(seq![TxOutV { value: postage, spk: dspk }]) == postage);
    if service_total > 0 {
        let outs = base.push(TxOutV { value: service_total, spk: sspk });
        assert(outs.drop_last() =~= base);
    }
}

/// The fan-out middle sums to the need of the later positions.
proof fn lemma_mid_sum(fees: Seq<u64>, spksv: Seq<Seq<u8>>, postage: u64, k: nat)
    requires
        k + 1 <= fees.len(),
        spksv.len() == fees.len(),
        forall|j: int| 0 <= j < fees.len() ==> (#[trigger] fees[j]) <= 200_000_000_000_000,
        postage <= 1_000_000_000,
    ensures
        sum_values(Seq::new(k, |j: int| TxOutV {
            value: (fees[j + 1] + postage) as u64,
            spk: spksv[j + 1],
        })) == spec_need_range(fees, postage, 1, (k + 1) as int),
    decreases k,
{
    let mid = Seq::new(k, |j: int| TxOutV {
        value: (fees[j + 1] + postage) as u64,
        spk: spksv[j + 1],
    });
    if k == 0 {
        assert(mid =~= Seq::<TxOutV>::empty());
    } else {
        lemma_mid_sum(fees, spksv, postage, (k - 1) as nat);
        assert(mid.drop_last() =~= Seq::new((k - 1) as nat, |j: int| TxOutV {
            value: (fees[j + 1] + postage) as u64,
            spk: spksv[j + 1],
        }));
        assert(mid.last() == mid[k - 1]);
        assert(mid[k - 1] == TxOutV { value: (fees[k as int] + postage) as u64,
            spk: spksv[k as int] });
        lemma_need_range_extend(fees, postage, 1, k as int);
    }
}

/// Builds the fan-out outputs of the first batch reveal.
fn batch_outs0(postage: u64, fees: &Vec<u64>, spks: &Vec<Vec<u8>>, service_total: u64,
    dspk: &Vec<u8>, sspk: &Vec<u8>) -> (r: Vec<TxOut>)
    requires
        1 <= fees@.len() <= 1_000,
        spks@.len() == fees@.len(),
        forall|j: int| 0 <= j < fees@.len() ==> (#[trigger] fees@[j]) <= 200_000_000_000_000,
        postage <= 1_000_000_000,
        forall|j: int| 0 <= j < spks@.len() ==> (#[trigger] spks@[j])@.len() <= 10_000,
        dspk@.len() <= 10_000,
        sspk@.len() <= 10_000,
    ensures
        seq_views(r@) == spec_batch_outs0(postage, fees@, seq_views(spks@), service_total,
            dspk@, sspk@),
        r@.len() <= 1_001,
        forall|j: int| 0 <= j < r@.len() ==> (#[trigger] r@[j]).wf(),
{
    let ghost spksv = seq_views(spks@);
    let n = fees.len();
    let mut r: Vec<TxOut> = Vec::new();
    r.push(TxOut { value: postage, spk: dup(dspk) });
    let mut j: usize = 1;
    while j < n
        invariant
            1 <= j <= n,
            n == fees@.len(),
            spks@.len() == n,
            spksv == seq_views(spks@),
            forall|q: int| 0 <= q < n ==> (#[trigger] fees@[q]) <= 200_000_000_000_000,
            postage <= 1_000_000_000,
            forall|q: int| 0 <= q < n ==> (#[trigger] spks@[q])@.len() <= 10_000,
            dspk@.len() <= 10_000,
            r@.len() == j,
            seq_views(r@) =~= seq![TxOutV { value: postage, spk: dspk@ }]
                + Seq::new((j - 1) as nat, |q: int| TxOutV {
                    value: (fees@[q + 1] + postage) as u64,
                    spk: spksv[q + 1],
                }),
            forall|q: int| 0 <= q < r@.len() ==> (#[trigger] r@[q]).wf(),
        decreases n - j,
    {
        let ghost pre = seq_views(r@);
        proof {
            assert(spksv[j as int] == spks@[j as int]@);
        }
        r.push(TxOut { value: fees[j] + postage, spk: dup(&spks[j]) });
        proof {
            assert(seq_views(r@).drop_last() =~= pre);
            assert(seq_views(r@).last() == (TxOutV { value: (fees@[j as int] + postage) as u64,
                spk: spksv[j as int] }));
            let now = seq![TxOutV { value: postage, spk: dspk@ }]
                + Seq::new(j as nat, |q: int| TxOutV {
                    value: (fees@[q + 1] + postage) as u64,
                    spk: spksv[q + 1],
                });
            assert(now.drop_last() =~= pre);
            assert(now.last() == (TxOutV { value: (fees@[j as int] + postage) as u64,
                spk: spksv[j as int] }));
            assert(seq_views(r@) =~= seq_views(r@).drop_last().push(seq_views(r@).last()));
            assert(now =~= now.drop_last().push(now.last()));
            assert(seq_views(r@) =~= now);
        }
        j += 1;
    }
    if service_total > 0 {
        r.push(TxOut { value: service_total, spk: dup(sspk) });
    }
    proof {
        assert(seq_views(r@) =~= spec_batch_outs0(postage, fees@, spksv, service_total, dspk@,
            sspk@));
    }
    r
}


/// Builds and signs one batch reveal: the fan-out first one, or a later
/// single-output one.
#[verifier::rlimit(100)]
fn make_batch_reveal(
    bi: u64,
    n: u64,
    postage: u64,
    fees: &Vec<u64>,
    spks: &Vec<Vec<u8>>,
    service_total: u64,
    key: &RevealKey,
    script: &Vec<u8>,
    cb: &Vec<u8>,
    dspk: &Vec<u8>,
    sspk: &Vec<u8>,
    prev_txid: &Vec<u8>,
    funding: u64,
    rate: FeeRate,
    no_limit: bool,
) -> (r: Result<Tx, PlanError>)
    requires
        bi < n,
        1 <= n <= 1_000,
        fees@.len() == n,
        spks@.len() == n,
        forall|j: int| 0 <= j < n ==> (#[trigger] fees@[j]) <= 200_000_000_000_000,
        forall|j: int| 0 <= j < n ==> (#[trigger] spks@[j])@.len() == 34
            && spks@[j]@[0] == 0x51u8 && spks@[j]@[1] == 0x20u8,
        script@.len() <= 4_000_000,
        cb@.len() == 33,
        dspk@.len() <= 10_000,
        sspk@.len() <= 10_000,
        prev_txid@.len() == 32,
        rate.wf(),
        330 <= postage <= 1_000_000_000,
        postage >= spec_dust_threshold(dspk@),
        service_total > 0 ==> service_total >= spec_dust_threshold(sspk@),
        fees@[bi as int] == spec_fee(spec_reveal_vsize(script@.len(),
            if bi == 0 {
                spec_batch_outs0(postage, fees@, seq_views(spks@), service_total, dspk@, sspk@)
            } else {
                spec_batch_outs_later(postage, dspk@)
            }), rate),
    ensures
        r matches Ok(tx) ==> {
            let outs = if bi == 0 {
                spec_batch_outs0(postage, fees@, seq_views(spks@), service_total, dspk@, sspk@)
            } else {
                spec_batch_outs_later(postage, dspk@)
            };
            &&& tx.wf()
            &&& tx@.outputs == outs
            &&& tx@.inputs.len() == 1
            &&& tx@.inputs[0].witness.len() == 3
            &&& tx@.inputs[0].witness[1] == script@
            &&& tx@.inputs[0].witness[2] == cb@
            &&& tx@.inputs[0].prevout == (OutPointV { txid: prev_txid@,
                    vout: if bi == 0 { 0u32 } else { bi as u32 } })
            &&& fees@[bi as int] == spec_fee(spec_vsize(tx@), rate)
            &&& (!no_limit ==> spec_weight(tx@) <= MAX_STANDARD_TX_WEIGHT)
            &&& forall|q: int| 0 <= q < tx@.outputs.len() ==> (#[trigger] tx@.outputs[q]).value
                    >= spec_dust_threshold(tx@.outputs[q].spk)
            &&& sum_values(tx@.outputs) == postage
                    + (if bi == 0 { spec_need_range(fees@, postage, 1, n as int) } else { 0 })
                    + (if bi == 0 && service_total > 0 { service_total as int } else { 0 })
        },
        r matches Err(e) ==> e == PlanError::WeightExceeded && !no_limit,
{
    let outs = if bi == 0 {
        batch_outs0(postage, fees, spks, service_total, dspk, sspk)
    } else {
        let mut o: Vec<TxOut> = Vec::new();
        o.push(TxOut { value: postage, spk: dup(dspk) });
        proof {
            assert(seq_views(o@) =~= spec_batch_outs_later(postage, dspk@));
        }
        o
    };
    let vout: u32 = if bi == 0 { 0 } else { bi as u32 };
    let input = OutPoint { txid: Txid::new(dup(prev_txid)), vout };
    let unsigned = build_reveal_tx(input, outs);
    let prevout = TxOut { value: funding, spk: dup(&spks[bi as usize]) };
    let signed = attach_reveal_witness(unsigned, key, &prevout, script, cb);
    let w = weight(&signed);
    if !no_limit && w > MAX_STANDARD_TX_WEIGHT {
        return Err(PlanError::WeightExceeded);
    }
    proof {
        reveal_with_fuel(sum_values, 3);
        if bi == 0 {
            lemma_batch_outs0_facts(postage, fees@, seq_views(spks@), service_total, dspk@,
                sspk@);
            lemma_need_range_nonneg(fees@, postage, 1, n as int);
            assert(forall|q: int| 1 <= q < n
                ==> signed@.outputs[q].value >= postage) by {
                assert forall|q: int| 1 <= q < n
                    implies signed@.outputs[q].value >= postage by {
                    lemma_need_range_nonneg(fees@, postage, q, n as int);
                }
            }
            assert(forall|q: int| 1 <= q < n
                ==> spec_dust_threshold(#[trigger] signed@.outputs[q].spk) == 330);
        } else {
            assert(spec_batch_outs_later(postage, dspk@).drop_last() =~= Seq::<TxOutV>::empty());
        }
        assert(forall|q: int| 0 <= q < signed@.outputs.len()
            ==> (#[trigger] signed@.outputs[q]).value
                >= spec_dust_threshold(signed@.outputs[q].spk));
    }
    Ok(signed)
}

/// Appending a correctly built batch reveal keeps the batch laws.
#[verifier::rlimit(100)]
proof fn lemma_batch_step(pre: Seq<Tx>, signed: Tx, n: u64, commit: TxV, fees: Seq<u64>,
    scripts: Seq<Vec<u8>>, spks: Seq<Vec<u8>>, cbs: Seq<Vec<u8>>, postage: u64,
    service_total: u64, dspk: Seq<u8>, sspk: Seq<u8>, rate: FeeRate, no_limit: bool,
    prev_txid: Seq<u8>)
    requires
        spec_batch_prefix_ok(pre, n, commit, fees, scripts, spks, cbs, postage, service_total,
            dspk, sspk, rate, no_limit),
        pre.len() < n,
        1 <= n,
        fees.len() == n,
        spks.len() == n,
        forall|j: int| 0 <= j < n ==> (#[trigger] fees[j]) <= 200_000_000_000_000,
        postage <= 1_000_000_000,
        commit.outputs.len() >= 1,
        commit.outputs[0].value == (fees[0] + postage + spec_need_range(fees, postage, 1, n as int)
            + service_total) as u64,
        fees[0] + postage + spec_need_range(fees, postage, 1, n as int) + service_total
            <= 1_000_000_000_000_000_000,
        ({
            let j = pre.len() as int;
            &&& signed.wf()
            &&& signed@.outputs == (if j == 0 {
                    spec_batch_outs0(postage, fees, seq_views(spks), service_total, dspk, sspk)
                } else {
                    spec_batch_outs_later(postage, dspk)
                })
            &&& signed@.inputs.len() == 1
            &&& signed@.inputs[0].witness.len() == 3
            &&& signed@.inputs[0].witness[1] == scripts[j]@
            &&& signed@.inputs[0].witness[2] == cbs[j]@
            &&& signed@.inputs[0].prevout == (OutPointV { txid: prev_txid,
                    vout: if j == 0 { 0u32 } else { j as u32 } })
            &&& prev_txid == if j == 0 { txid_of(commit) } else { txid_of(pre[0]@) }
            &&& fees[j] == spec_fee(spec_vsize(signed@), rate)
            &&& (!no_limit ==> spec_weight(signed@) <= MAX_STANDARD_TX_WEIGHT)
            &&& forall|q: int| 0 <= q < signed@.outputs.len()
                    ==> (#[trigger] signed@.outputs[q]).value
                        >= spec_dust_threshold(signed@.outputs[q].spk)
            &&& sum_values(signed@.outputs) == postage
                    + (if j == 0 { spec_need_range(fees, postage, 1, n as int) } else { 0 })
                    + (if j == 0 && service_total > 0 { service_total as int } else { 0 })
        }),
    ensures
        spec_batch_prefix_ok(pre.push(signed), n, commit, fees, scripts, spks, cbs, postage,
            service_total, dspk, sspk, rate, no_limit),
{
    let j = pre.len() as int;
    let rs = pre.push(signed);
    assert(rs.drop_last() =~= pre);
    assert(rs[j] == signed);
    if j == 0 {
        lemma_need_range_nonneg(fees, postage, 1, n as int);
        assert(commit.outputs[0].value - sum_values(signed@.outputs) == fees[0]);
    } else {
        assert(rs[0] == pre[0]);
        lemma_batch_index(pre, n, commit, fees, scripts, spks, cbs, postage, service_total,
            dspk, sspk, rate, no_limit, 0);
        lemma_batch_outs0_facts(postage, fees, seq_views(spks), service_total, dspk, sspk);
        assert(pre[0]@.outputs[j].value == (fees[j] + postage) as u64);
        assert(rs[0]@.outputs[j].value - sum_values(signed@.outputs) == fees[j]);
    }
    assert(spec_batch_elem_ok(rs, j, commit, fees, scripts, spks, cbs, postage, service_total,
        dspk, sspk, rate, no_limit));
}


/// Builds the commit and the signed reveals for a batch mint.
#[verifier::rlimit(100)]
pub fn create_inscription_transactions(
    inscriptions: &Vec<Inscription>,
    index: &Vec<IndexEntry>,
    utxos: &Vec<UtxoEntry>,
    change_spk: &Vec<u8>,
    destination: &AddressInfo,
    commit_fee_rate: FeeRate,
    reveal_fee_rate: FeeRate,
    no_limit: bool,
    service_address: &AddressInfo,
    service_fee: u64,
    target_postage: u64,
    source_kind: AddrKind,
) -> (r: Result<MintsPlan, PlanError>)
    requires
        1 <= inscriptions@.len() <= 1_000,
        forall|i: int| 0 <= i < inscriptions@.len() ==> (#[trigger] inscriptions@[i]).wf(),
        utxos@.len() <= 100_000,
        forall|i: int| 0 <= i < utxos@.len() ==> (#[trigger] utxos@[i]).wf(),
        spec_utxo_sum(seq_views(utxos@)) <= 2_100_000_000_000_000,
        spec_distinct_outpoints(seq_views(utxos@)),
        index@.len() <= 100_000,
        change_spk@.len() <= 10_000,
        destination.wf(),
        service_address.wf(),
        commit_fee_rate.wf(),
        reveal_fee_rate.wf(),
        service_fee <= 1_000_000_000,
        330 <= target_postage <= 1_000_000_000,
    ensures
        r matches Ok(plan) ==> spec_mints_plan_ok(plan, inscriptions@.len() as u64, utxos@,
            index@, change_spk@, *destination, *service_address, commit_fee_rate,
            reveal_fee_rate, no_limit, target_postage, service_fee, spec_wlen(source_kind)),
        r matches Ok(plan) ==> forall|i: int| 0 <= i < inscriptions@.len()
            ==> (#[trigger] plan.reveal_scripts@[i])@ == spec_reveal_script(plan.key@,
                inscriptions@[i].content_type@, inscriptions@[i].body@),
        r matches Err(e) ==> (e == PlanError::NoCardinalUtxos || e == PlanError::DustOutput
            || e == PlanError::StaleTransferAnchor || e == PlanError::Insufficient
            || e == PlanError::WeightExceeded),
        r == Err::<MintsPlan, PlanError>(PlanError::NoCardinalUtxos)
            <==> (forall|k: int| 0 <= k < utxos@.len()
                ==> spec_outpoint_inscribed(seq_views(index@), (#[trigger] seq_views(utxos@)[k]).outpoint)),
        r == Err::<MintsPlan, PlanError>(PlanError::DustOutput)
            <==> (spec_has_cardinal(utxos@, index@)
                && crate::mint::spec_mint_dust_bad(target_postage, service_fee,
                    inscriptions@.len() as u64, destination.spk@, service_address.spk@)),
        // The anchor comes out of the wallet view itself, so it cannot be
        // missing from it.
        r != Err::<MintsPlan, PlanError>(PlanError::StaleTransferAnchor),
        r == Err::<MintsPlan, PlanError>(PlanError::Insufficient)
            ==> exists|a: SatPointV, cspks: Seq<Vec<u8>>, fees: Seq<u64>|
                #[trigger] spec_mints_shortfall(a, cspks, fees, inscriptions@, utxos@, index@,
                    change_spk@, *destination, *service_address, commit_fee_rate,
                    reveal_fee_rate, target_postage, service_fee, spec_wlen(source_kind)),
        r == Err::<MintsPlan, PlanError>(PlanError::WeightExceeded) ==> !no_limit,
{
    let n = inscriptions.len();
    let n64 = n as u64;

    // The anchor: the first cardinal wallet entry.
    let anchor: SatPoint = match first_cardinal_satpoint(utxos, index) {
        Some(s) => s,
        None => {
            return Err(PlanError::NoCardinalUtxos);
        },
    };

    // One key for the whole batch; one script, commitment and control
    // block per inscription.
    proof {
        assert(spec_has_cardinal(utxos@, index@));
    }
    let key = key_new();
    let mut scripts: Vec<Vec<u8>> = Vec::new();
    let mut spks: Vec<Vec<u8>> = Vec::new();
    let mut cbs: Vec<Vec<u8>> = Vec::new();
    let mut ci: usize = 0;
    while ci < n
        invariant
            ci <= n,
            spec_has_cardinal(utxos@, index@),
            n == inscriptions@.len(),
            1 <= n <= 1_000,
            forall|i: int| 0 <= i < n ==> (#[trigger] inscriptions@[i]).wf(),
            key@.len() == 32,
            scripts@.len() == ci,
            spks@.len() == ci,
            cbs@.len() == ci,
            forall|i: int| 0 <= i < ci ==> (#[trigger] scripts@[i])@ == spec_reveal_script(key@,
                inscriptions@[i].content_type@, inscriptions@[i].body@),
            forall|i: int| 0 <= i < ci ==> (#[trigger] scripts@[i])@.len() <= 3_825_000,
            forall|i: int| 0 <= i < ci ==> (#[trigger] spks@[i])@
                == commit_spk_of(key@, scripts@[i]@),
            forall|i: int| 0 <= i < ci ==> (#[trigger] spks@[i])@.len() == 34
                && spks@[i]@[0] == 0x51u8 && spks@[i]@[1] == 0x20u8,
            forall|i: int| 0 <= i < ci ==> (#[trigger] cbs@[i])@
                == control_block_of(key@, scripts@[i]@),
            forall|i: int| 0 <= i < ci ==> (#[trigger] cbs@[i])@.len() == 33,
        decreases n - ci,
    {
        proof {
            assert(inscriptions@[ci as int].wf());
        }
        let script = build_reveal_script(key.pubkey(), &inscriptions[ci]);
        let (spk, cb) = taproot_commit(&key, &script);
        // Recompute each commitment independently from the tweak path; a
        // mismatch would mean the derivation itself went wrong.
        let recheck = crate::crypto::recompute_commit_spk(&key, &script);
        if !crate::bytes::bytes_eq(&recheck, &spk) {
            return Err(PlanError::BadRequest);
        }
        scripts.push(script);
        spks.push(spk);
        cbs.push(cb);
        ci += 1;
    }

    // The service total, floored at 600 satoshis when present.
    proof {
        assert(service_fee * n64 <= 1_000_000_000 * 1_000) by (nonlinear_arith)
            requires
                service_fee <= 1_000_000_000,
                n64 <= 1_000,
        ;
    }
    let service_total0 = service_fee * n64;
    let service_total: u64 = if service_total0 == 0 {
        0
    } else if service_total0 < 600 {
        600
    } else {
        service_total0
    };

    // Dust screening.
    proof {
        assert(service_total == crate::mint::spec_service_total(service_fee, n64));
    }
    let dust_dest = dust_threshold(&destination.spk);
    if target_postage < dust_dest {
        proof {
            reveal(crate::mint::spec_mint_dust_bad);
        }
        return Err(PlanError::DustOutput);
    }
    let dust_svc = dust_threshold(&service_address.spk);
    if service_total > 0 && service_total < dust_svc {
        proof {
            reveal(crate::mint::spec_mint_dust_bad);
        }
        return Err(PlanError::DustOutput);
    }
    proof {
        assert(!crate::mint::spec_mint_dust_bad(target_postage, service_fee, n64,
            destination.spk@, service_address.spk@)) by {
            reveal(crate::mint::spec_mint_dust_bad);
        }
    }

    // Sizing pass: later reveals first, then the fan-out first reveal.
    let mut fees: Vec<u64> = Vec::new();
    let mut z: usize = 0;
    while z < n
        invariant
            z <= n,
            spec_has_cardinal(utxos@, index@),
            fees@.len() == z,
            forall|j: int| 0 <= j < z ==> (#[trigger] fees@[j]) == 0,
        decreases n - z,
    {
        fees.push(0);
        z += 1;
    }
    let mut later_outs: Vec<TxOut> = Vec::new();
    later_outs.push(TxOut { value: target_postage, spk: dup(&destination.spk) });
    proof {
        assert(seq_views(later_outs@) =~= spec_batch_outs_later(target_postage,
            destination.spk@));
    }
    let mut si: usize = 1;
    while si < n
        invariant
            1 <= si <= n || n == 1,
            si <= n,
            spec_has_cardinal(utxos@, index@),
            n == inscriptions@.len(),
            1 <= n <= 1_000,
            fees@.len() == n,
            scripts@.len() == n,
            reveal_fee_rate.wf(),
            destination.spk@.len() <= 10_000,
            seq_views(later_outs@) == spec_batch_outs_later(target_postage, destination.spk@),
            later_outs@.len() == 1,
            forall|j: int| 0 <= j < later_outs@.len()
                ==> (#[trigger] later_outs@[j]).spk@.len() <= 10_000,
            forall|i: int| 0 <= i < n ==> (#[trigger] scripts@[i])@.len() <= 3_825_000,
            forall|j: int| 1 <= j < si ==> (#[trigger] fees@[j]) == spec_fee(spec_reveal_vsize(
                scripts@[j]@.len(), spec_batch_outs_later(target_postage, destination.spk@)),
                reveal_fee_rate),
            forall|j: int| 0 <= j < n ==> (#[trigger] fees@[j]) <= 200_000_000_000_000,
        decreases n - si,
    {
        let f = reveal_fee(scripts[si].len() as u64, &later_outs, reveal_fee_rate);
        fees.set(si, f);
        si += 1;
    }
    let ghost fees_pre = fees@;
    let est0 = batch_outs0(target_postage, &fees, &spks, service_total, &destination.spk,
        &service_address.spk);
    let f0 = reveal_fee(scripts[0].len() as u64, &est0, reveal_fee_rate);
    fees.set(0, f0);
    proof {
        // The fan-out shape never reads the first fee, so setting it
        // changes nothing about the shape.
        assert(spec_batch_outs0(target_postage, fees_pre, seq_views(spks@), service_total,
            destination.spk@, service_address.spk@)
            =~= spec_batch_outs0(target_postage, fees@, seq_views(spks@), service_total,
                destination.spk@, service_address.spk@));
        assert(forall|j: int| 1 <= j < n ==> (#[trigger] fees@[j]) == fees_pre[j]);
    }

    // The commit target: every reveal's fee and postage, plus the service
    // total.
    let mut need: u64 = 0;
    let mut q: usize = 1;
    proof {
        assert(spec_need_range(fees@, target_postage, 1, 1) == 0);
    }
    while q < n
        invariant
            1 <= q <= n || n == 1,
            q <= n,
            spec_has_cardinal(utxos@, index@),
            fees@.len() == n,
            1 <= n <= 1_000,
            target_postage <= 1_000_000_000,
            forall|j: int| 0 <= j < n ==> (#[trigger] fees@[j]) <= 200_000_000_000_000,
            need == spec_need_range(fees@, target_postage, 1, q as int),
            need <= (q - 1) * 200_001_000_000_000,
        decreases n - q,
    {
        proof {
            lemma_need_range_extend(fees@, target_postage, 1, q as int);
        }
        need = need + fees[q] + target_postage;
        q += 1;
    }
    let target = f0 + target_postage + need + service_total;

    // Fund the commit.
    let wlen = wlen_for(source_kind);
    let mut anchors_vec: Vec<SatPoint> = Vec::new();
    anchors_vec.push(anchor);
    let opret: Option<Vec<u8>> = None;
    proof {
        assert(seq_views(anchors_vec@) =~= seq![anchors_vec@[0]@]);
        crate::select::lemma_find_exists(seq_views(utxos@), anchors_vec@[0]@.outpoint);
    }
    let sel = match select_funds(&anchors_vec, utxos, index, &spks[0], target, change_spk,
        commit_fee_rate, wlen, &opret) {
        Ok(s) => s,
        Err(e) => {
            proof {
                if e == PlanError::Insufficient {
                    assert forall|i: int| 0 <= i < n implies
                        (#[trigger] scripts@[i])@.len()
                            == crate::script::spec_script_len(
                                inscriptions@[i].content_type@.len(),
                                inscriptions@[i].body@.len()) by {
                        crate::script::lemma_reveal_script_len(key@,
                            inscriptions@[i].content_type@, inscriptions@[i].body@);
                    }
                    assert(spec_mints_shortfall(anchors_vec@[0]@, spks@, fees@,
                        inscriptions@, utxos@, index@, change_spk@, *destination,
                        *service_address, commit_fee_rate, reveal_fee_rate, target_postage,
                        service_fee, spec_wlen(source_kind))) by {
                        reveal(spec_mints_shortfall);
                    }
                }
            }
            return Err(e);
        },
    };

    // Build pass: the fan-out first reveal, then one reveal per later
    // inscription, each spending the fan-out's matching output.
    let commit_txid = tx_txid(&sel.tx);
    let ghost dspk = destination.spk@;
    let ghost sspk = service_address.spk@;
    let mut reveals: Vec<Tx> = Vec::new();
    let mut r0_txid: Vec<u8> = commit_txid;
    proof {
        assert(spec_batch_prefix_ok(reveals@, n64, sel.tx@, fees@, scripts@, spks@, cbs@,
            target_postage, service_total, dspk, sspk, reveal_fee_rate, no_limit));
    }
    let mut bi: u64 = 0;
    while bi < n64
        invariant
            bi <= n64,
            spec_has_cardinal(utxos@, index@),
            !crate::mint::spec_mint_dust_bad(target_postage, service_fee, n64,
                destination.spk@, service_address.spk@),
            reveals@.len() == bi,
            n64 == n,
            n == inscriptions@.len(),
            1 <= n <= 1_000,
            330 <= target_postage <= 1_000_000_000,
            target_postage >= spec_dust_threshold(dspk),
            service_total > 0 ==> service_total >= spec_dust_threshold(sspk),
            reveal_fee_rate.wf(),
            dspk == destination.spk@,
            sspk == service_address.spk@,
            destination.spk@.len() <= 10_000,
            service_address.spk@.len() <= 10_000,
            key@.len() == 32,
            fees@.len() == n,
            scripts@.len() == n,
            spks@.len() == n,
            cbs@.len() == n,
            forall|i: int| 0 <= i < n ==> (#[trigger] scripts@[i])@.len() <= 3_825_000,
            forall|i: int| 0 <= i < n ==> (#[trigger] spks@[i])@.len() == 34
                && spks@[i]@[0] == 0x51u8 && spks@[i]@[1] == 0x20u8,
            forall|i: int| 0 <= i < n ==> (#[trigger] cbs@[i])@.len() == 33,
            forall|j: int| 0 <= j < n ==> (#[trigger] fees@[j]) <= 200_000_000_000_000,
            fees@[0] == spec_fee(spec_reveal_vsize(scripts@[0]@.len(),
                spec_batch_outs0(target_postage, fees@, seq_views(spks@), service_total, dspk,
                    sspk)), reveal_fee_rate),
            forall|j: int| 1 <= j < n ==> (#[trigger] fees@[j]) == spec_fee(spec_reveal_vsize(
                scripts@[j]@.len(), spec_batch_outs_later(target_postage, dspk)),
                reveal_fee_rate),
            sel.tx.wf(),
            sel.tx@.outputs.len() >= 1,
            sel.tx@.outputs[0] == (TxOutV { value: target, spk: spks@[0]@ }),
            target == fees@[0] + target_postage
                + spec_need_range(fees@, target_postage, 1, n as int) + service_total,
            target <= 1_000_000_000_000_000_000,
            r0_txid@.len() == 32,
            bi == 0 ==> r0_txid@ == txid_of(sel.tx@),
            bi > 0 ==> r0_txid@ == txid_of(reveals@[0]@),
            spec_batch_prefix_ok(reveals@, n64, sel.tx@, fees@, scripts@, spks@, cbs@,
                target_postage, service_total, dspk, sspk, reveal_fee_rate, no_limit),
        decreases n64 - bi,
    {
        let ghost pre_reveals = reveals@;
        let ghost old_r0_txid = r0_txid@;
        let funding = if bi == 0 { target } else { fees[bi as usize] + target_postage };
        proof {
            if bi == 0 {
                lemma_batch_outs0_facts(target_postage, fees@, seq_views(spks@), service_total,
                    dspk, sspk);
            }
            assert(spks@[bi as int]@.len() == 34);
        }
        let signed = match make_batch_reveal(bi, n64, target_postage, &fees, &spks,
            service_total, &key, &scripts[bi as usize], &cbs[bi as usize], &destination.spk,
            &service_address.spk, &r0_txid, funding, reveal_fee_rate, no_limit) {
            Ok(tx) => tx,
            Err(e) => {
                return Err(e);
            },
        };
        if bi == 0 {
            r0_txid = tx_txid(&signed);
        }
        reveals.push(signed);
        proof {
            lemma_batch_step(pre_reveals, signed, n64, sel.tx@, fees@, scripts@, spks@, cbs@,
                target_postage, service_total, dspk, sspk, reveal_fee_rate, no_limit,
                old_r0_txid);
            assert(reveals@ =~= pre_reveals.push(signed));
            if bi == 0 {
                assert(reveals@[0] == signed);
            }
        }
        bi += 1;
    }

    let ghost anchor_v = anchors_vec@[0]@;
    proof {
        assert(seq_views(anchors_vec@) =~= seq![anchor_v]);
    }
    let plan = MintsPlan {
        commit: sel,
        reveals,
        reveal_fees: fees,
        key,
        reveal_scripts: scripts,
        commit_spks: spks,
        control_blocks: cbs,
        service_total,
        postage: target_postage,
    };
    proof {
        assert(crate::mint::spec_sel_anchored(plan.commit, anchor_v, utxos@, index@,
            change_spk@, commit_fee_rate, spec_wlen(source_kind), target,
            plan.commit_spks@[0]@));
        assert(spec_mints_plan_ok(plan, n64, utxos@, index@, change_spk@, *destination,
            *service_address, commit_fee_rate, reveal_fee_rate, no_limit, target_postage,
            service_fee, spec_wlen(source_kind)));
    }
    Ok(plan)
}


/// The destination a batch request pays: the given one, or the source.
pub open spec fn spec_batch_dest(m: Mint) -> AddressInfo {
    match m.destination {
        Some(d) => d,
        None => m.source,
    }
}

/// The service address a batch request pays: the given one, or the source.
pub open spec fn spec_batch_service(m: Mint, service_address: Option<AddressInfo>) -> AddressInfo {
    match service_address {
        Some(a) => a,
        None => m.source,
    }
}

/// Whether the batch request's addresses fit the network and the
/// supported types.
pub open spec fn spec_batch_addr_ok(m: Mint, net: Net) -> bool {
    let dest = spec_batch_dest(m);
    &&& m.source.net == net
    &&& dest.net == net
    &&& (m.source.kind == AddrKind::P2tr || m.source.kind == AddrKind::P2wpkh)
    &&& (dest.kind == AddrKind::P2tr || dest.kind == AddrKind::P2wpkh)
}

/// The extension the media type is taken from: the given one, or `.txt`.
pub open spec fn spec_batch_ext(m: Mint) -> Seq<u8> {
    match m.extension {
        Some(e) => e@,
        None => seq![0x2eu8, 0x74u8, 0x78u8, 0x74u8],
    }
}

/// The per-mint service fee a batch pays: nothing for a whitelisted
/// source, the given or default fee otherwise.
pub open spec fn spec_batch_sfee(service_fee: Option<u64>, is_whitelist: bool) -> u64 {
    if is_whitelist {
        0u64
    } else {
        match service_fee {
            Some(f) => f,
            None => SERVICE_FEE,
        }
    }
}

/// The envelope of a batch mint.
pub struct Output {
    pub inscription: Vec<Vec<u8>>,
    pub commit: Vec<u8>,
    pub commit_custom: Vec<Vec<u8>>,
    pub reveal: Vec<Vec<u8>>,
    pub service_fee: u64,
    pub satpoint_fee: u64,
    pub network_fee: u64,
}

/// A batch-mint request: one content per inscription.
pub struct Mint {
    pub fee_rate: FeeRate,
    pub destination: Option<AddressInfo>,
    pub source: AddressInfo,
    pub extension: Option<Vec<u8>>,
    pub content: Vec<Vec<u8>>,
}

impl Mint {
    /// What every batch request must satisfy.
    pub open spec fn wf(&self) -> bool {
        &&& self.fee_rate.wf()
        &&& self.source.wf()
        &&& (self.destination matches Some(d) ==> d.wf())
        &&& 1 <= self.content@.len() <= 1_000
        &&& forall|i: int| 0 <= i < self.content@.len()
                ==> (#[trigger] self.content@[i])@.len() <= 3_800_000
        &&& (self.extension matches Some(e) ==> e@.len() <= 100)
    }

    /// Plans the batch and wraps it into the caller envelope. A
    /// whitelisted source pays no service fee.
    pub fn build(self, net: Net, utxos: &Vec<UtxoEntry>, index: &Vec<IndexEntry>,
        service_address: Option<AddressInfo>, service_fee: Option<u64>, is_whitelist: bool,
        target_postage: u64, no_limit: bool) -> (r: Result<Output, PlanError>)
        requires
            self.wf(),
            utxos@.len() <= 100_000,
            forall|i: int| 0 <= i < utxos@.len() ==> (#[trigger] utxos@[i]).wf(),
            spec_utxo_sum(seq_views(utxos@)) <= 2_100_000_000_000_000,
            spec_distinct_outpoints(seq_views(utxos@)),
            index@.len() <= 100_000,
            service_address matches Some(a) ==> (a.wf()
                && (a.kind == AddrKind::P2tr || a.kind == AddrKind::P2wpkh)),
            service_fee matches Some(f) ==> f <= 1_000_000_000,
            330 <= target_postage <= 1_000_000_000,
        ensures
            r matches Err(e) ==> (e == PlanError::InvalidAddress || e == PlanError::BadRequest
                || e == PlanError::NoCardinalUtxos || e == PlanError::DustOutput
                || e == PlanError::Insufficient || e == PlanError::WeightExceeded),
            r == Err::<Output, PlanError>(PlanError::InvalidAddress)
                <==> !spec_batch_addr_ok(self, net),
            r == Err::<Output, PlanError>(PlanError::BadRequest)
                <==> (spec_batch_addr_ok(self, net)
                    && crate::script::spec_media(crate::script::spec_after_last_dot(
                        spec_batch_ext(self))) is None),
            r == Err::<Output, PlanError>(PlanError::NoCardinalUtxos)
                <==> (spec_batch_addr_ok(self, net)
                    && crate::script::spec_media(crate::script::spec_after_last_dot(
                        spec_batch_ext(self))) is Some
                    && (forall|k: int| 0 <= k < utxos@.len()
                        ==> spec_outpoint_inscribed(seq_views(index@),
                            (#[trigger] seq_views(utxos@)[k]).outpoint))),
            r == Err::<Output, PlanError>(PlanError::DustOutput)
                <==> (spec_batch_addr_ok(self, net)
                    && crate::script::spec_media(crate::script::spec_after_last_dot(
                        spec_batch_ext(self))) is Some
                    && !(forall|k: int| 0 <= k < utxos@.len()
                        ==> spec_outpoint_inscribed(seq_views(index@),
                            (#[trigger] seq_views(utxos@)[k]).outpoint))
                    && crate::mint::spec_mint_dust_bad(target_postage,
                        spec_batch_sfee(service_fee, is_whitelist), self.content@.len() as u64,
                        spec_batch_dest(self).spk@,
                        spec_batch_service(self, service_address).spk@)),
            // A successful envelope is the byte-exact rendering of a
            // lawful plan.
            r matches Ok(o) ==> exists|plan: MintsPlan|
                #[trigger] spec_mints_plan_ok(plan, self.content@.len() as u64, utxos@, index@,
                    self.source.spk@, spec_batch_dest(self),
                    spec_batch_service(self, service_address), self.fee_rate, self.fee_rate,
                    no_limit, target_postage, spec_batch_sfee(service_fee, is_whitelist),
                    spec_wlen(self.source.kind))
                && o.commit@ == crate::bytes::spec_hex(crate::ser::spec_psbt(
                    crate::crypto::tx_ser_of(plan.commit.tx@),
                    crate::select::spec_wu_of(crate::select::spec_prevouts(
                    plan.commit.tx@.inputs), seq_views(utxos@), self.source.spk@),
                    plan.commit.tx@.outputs.len()))
                && o.commit_custom@.len() == 1 + 2 * plan.commit.tx@.inputs.len()
                && o.reveal@.len() == self.content@.len()
                && (forall|i: int| 0 <= i < o.reveal@.len() ==> (#[trigger] o.reveal@[i])@
                    == crate::bytes::spec_hex(crate::crypto::tx_ser_of(plan.reveals@[i]@)))
                && o.inscription@.len() == self.content@.len()
                && (forall|i: int| 0 <= i < o.inscription@.len()
                    ==> (#[trigger] o.inscription@[i])@
                        == crate::ser::spec_inscription_id_display(
                            crate::crypto::txid_of(plan.reveals@[i]@), 0))
                && o.network_fee == plan.commit.fee_paid
                    + crate::mint::spec_fee_total(plan.reveal_fees@)
                && o.service_fee == plan.service_total
                && o.satpoint_fee == target_postage * self.content@.len()
                && (is_whitelist ==> o.service_fee == 0),
    {
        let source = self.source;
        let destination = match self.destination {
            Some(d) => d,
            None => source.clone(),
        };
        if !(source.net == net && destination.net == net
            && (source.kind == AddrKind::P2tr || source.kind == AddrKind::P2wpkh)
            && (destination.kind == AddrKind::P2tr || destination.kind == AddrKind::P2wpkh)) {
            return Err(PlanError::InvalidAddress);
        }
        let extension = match self.extension {
            Some(e) => e,
            None => vec![0x2e, 0x74, 0x78, 0x74],
        };
        // The media type is a function of the extension alone, so screen
        // it once up front.
        let probe = crate::script::after_last_dot(&extension);
        if crate::script::media_lookup(&probe).is_none() {
            return Err(PlanError::BadRequest);
        }
        let n = self.content.len();
        let mut inscriptions: Vec<Inscription> = Vec::new();
        let mut content = self.content;
        let mut ci: usize = 0;
        let ghost contv = content@;
        while ci < n
            invariant
                ci <= n,
                n == contv.len(),
                1 <= n <= 1_000,
                content@ == contv.skip(ci as int),
                crate::script::spec_media(crate::script::spec_after_last_dot(extension@))
                    is Some,
                forall|i: int| 0 <= i < contv.len() ==> (#[trigger] contv[i])@.len() <= 3_800_000,
                inscriptions@.len() == ci,
                forall|i: int| 0 <= i < ci ==> (#[trigger] inscriptions@[i]).wf(),
            decreases n - ci,
        {
            let body = content.remove(0);
            proof {
                assert(body == contv[ci as int]);
                assert(content@ =~= contv.skip(ci + 1));
            }
            match Inscription::from_content(&extension, body) {
                Ok(i) => {
                    inscriptions.push(i);
                },
                Err(e) => {
                    return Err(e);
                },
            }
            ci += 1;
        }
        let service_addr = match service_address {
            Some(a) => a,
            None => source.clone(),
        };
        let sfee = if is_whitelist {
            0
        } else {
            match service_fee {
                Some(f) => f,
                None => SERVICE_FEE,
            }
        };
        let plan = match create_inscription_transactions(&inscriptions, index, utxos,
            &source.spk, &destination, self.fee_rate, self.fee_rate, no_limit, &service_addr,
            sfee, target_postage, source.kind) {
            Ok(p) => p,
            Err(e) => {
                return Err(e);
            },
        };
        proof {
            assert(target_postage * (n as u64) <= 1_000_000_000 * 1_000) by (nonlinear_arith)
                requires
                    target_postage <= 1_000_000_000,
                    n <= 1_000,
            ;
        }
        let satpoint_fee = target_postage * (n as u64);
        let mut network_fee = plan.commit.fee_paid;
        proof {
            assert(plan.reveal_fees@.subrange(0, 0) =~= Seq::<u64>::empty());
        }
        let mut i: usize = 0;
        while i < plan.reveal_fees.len()
            invariant
                i <= plan.reveal_fees@.len(),
                plan.reveal_fees@.len() <= 1_000,
                forall|j: int| 0 <= j < plan.reveal_fees@.len()
                    ==> (#[trigger] plan.reveal_fees@[j]) <= 200_000_000_000_000,
                network_fee == plan.commit.fee_paid
                    + crate::mint::spec_fee_total(plan.reveal_fees@.subrange(0, i as int)),
                network_fee <= 200_000_000_100_000 + i * 200_000_000_000_000,
            decreases plan.reveal_fees.len() - i,
        {
            network_fee = network_fee + plan.reveal_fees[i];
            proof {
                let now = plan.reveal_fees@.subrange(0, i + 1);
                assert(now.drop_last() =~= plan.reveal_fees@.subrange(0, i as int));
                assert(now.last() == plan.reveal_fees@[i as int]);
            }
            i += 1;
        }
        proof {
            assert(plan.reveal_fees@.subrange(0, plan.reveal_fees@.len() as int)
                =~= plan.reveal_fees@);
        }
        let wus = crate::ser::build_witness_utxos(&plan.commit.tx, utxos, &source.spk);
        let psbt = psbt_ser(&plan.commit.tx, &wus);
        let commit = hex_encode(&psbt);
        let commit_custom = companion_list(&plan.commit.tx, &wus);
        proof {
            assert(crate::ser::spec_outs_view(wus@) =~= crate::select::spec_wu_of(
                crate::select::spec_prevouts(plan.commit.tx@.inputs), seq_views(utxos@),
                source.spk@));
        }
        proof {
            assert forall|j: int| 0 <= j < plan.reveals@.len()
                implies (#[trigger] plan.reveals@[j]).wf() by {
                lemma_batch_index(plan.reveals@, n as u64, plan.commit.tx@, plan.reveal_fees@,
                    plan.reveal_scripts@, plan.commit_spks@, plan.control_blocks@,
                    target_postage, plan.service_total, destination.spk@, service_addr.spk@,
                    self.fee_rate, no_limit, j);
            }
        }
        let mut reveal_hex: Vec<Vec<u8>> = Vec::new();
        let mut inscription_ids: Vec<Vec<u8>> = Vec::new();
        let mut t: usize = 0;
        while t < plan.reveals.len()
            invariant
                t <= plan.reveals@.len(),
                reveal_hex@.len() == t,
                inscription_ids@.len() == t,
                forall|j: int| 0 <= j < plan.reveals@.len() ==> (#[trigger] plan.reveals@[j]).wf(),
                forall|j: int| 0 <= j < t ==> (#[trigger] reveal_hex@[j])@
                    == crate::bytes::spec_hex(crate::crypto::tx_ser_of(plan.reveals@[j]@)),
                forall|j: int| 0 <= j < t ==> (#[trigger] inscription_ids@[j])@
                    == crate::ser::spec_inscription_id_display(
                        crate::crypto::txid_of(plan.reveals@[j]@), 0),
            decreases plan.reveals.len() - t,
        {
            let ser = tx_ser(&plan.reveals[t]);
            reveal_hex.push(hex_encode(&ser));
            let txid = tx_txid(&plan.reveals[t]);
            inscription_ids.push(inscription_id_display(&txid, 0));
            t += 1;
        }
        proof {
            assert(spec_mints_plan_ok(plan, self.content@.len() as u64, utxos@, index@,
                self.source.spk@, spec_batch_dest(self),
                spec_batch_service(self, service_address), self.fee_rate, self.fee_rate,
                no_limit, target_postage, spec_batch_sfee(service_fee, is_whitelist),
                spec_wlen(self.source.kind)));
        }
        Ok(Output {
            inscription: inscription_ids,
            commit,
            commit_custom,
            reveal: reveal_hex,
            service_fee: plan.service_total,
            satpoint_fee,
            network_fee,
        })
    }

    /// The network fee a spend pays: what its inputs draw from the wallet
    /// minus what its outputs carry.
    pub fn calculate_fee(tx: &Tx, utxos: &Vec<UtxoEntry>) -> (r: Result<u64, PlanError>)
        requires
            tx@.inputs.len() <= 8_000,
            spec_utxo_sum(seq_views(utxos@)) <= 2_100_000_000_000_000,
            0 <= sum_values(tx@.outputs) <= 2_100_000_000_000_000,
        ensures
            r matches Ok(v) ==> v == crate::select::spec_in_sum(tx@.inputs, seq_views(utxos@))
                - sum_values(tx@.outputs),
            r is Ok <==> ((forall|i: int| 0 <= i < tx@.inputs.len()
                ==> crate::select::spec_find_utxo(seq_views(utxos@),
                    (#[trigger] tx@.inputs[i]).prevout) is Some)
                && crate::select::spec_in_sum(tx@.inputs, seq_views(utxos@))
                    >= sum_values(tx@.outputs)),
            r matches Err(e) ==> (e == PlanError::StaleTransferAnchor
                || e == PlanError::Insufficient),
    {
        crate::mint::Mint::calculate_fee(tx, utxos)
    }

    /// The batch mint as the command runs it.
    pub fn run(self, net: Net, utxos: &Vec<UtxoEntry>, index: &Vec<IndexEntry>)
        -> (r: Result<Output, PlanError>)
        requires
            self.wf(),
            utxos@.len() <= 100_000,
            forall|i: int| 0 <= i < utxos@.len() ==> (#[trigger] utxos@[i]).wf(),
            spec_utxo_sum(seq_views(utxos@)) <= 2_100_000_000_000_000,
            spec_distinct_outpoints(seq_views(utxos@)),
            index@.len() <= 100_000,
        ensures
            r == Err::<Output, PlanError>(PlanError::InvalidAddress)
                <==> !spec_batch_addr_ok(self, net),
            r == Err::<Output, PlanError>(PlanError::BadRequest)
                <==> (spec_batch_addr_ok(self, net)
                    && crate::script::spec_media(crate::script::spec_after_last_dot(
                        spec_batch_ext(self))) is None),
            r == Err::<Output, PlanError>(PlanError::NoCardinalUtxos)
                <==> (spec_batch_addr_ok(self, net)
                    && crate::script::spec_media(crate::script::spec_after_last_dot(
                        spec_batch_ext(self))) is Some
                    && (forall|k: int| 0 <= k < utxos@.len()
                        ==> spec_outpoint_inscribed(seq_views(index@),
                            (#[trigger] seq_views(utxos@)[k]).outpoint))),
            r matches Err(e) ==> (e == PlanError::InvalidAddress || e == PlanError::BadRequest
                || e == PlanError::NoCardinalUtxos || e == PlanError::DustOutput
                || e == PlanError::Insufficient || e == PlanError::WeightExceeded),
            r matches Ok(o) ==> exists|plan: MintsPlan|
                #[trigger] spec_mints_plan_ok(plan, self.content@.len() as u64, utxos@, index@,
                    self.source.spk@, spec_batch_dest(self), spec_batch_service(self, None),
                    self.fee_rate, self.fee_rate, false, TARGET_POSTAGE, SERVICE_FEE,
                    spec_wlen(self.source.kind))
                && o.reveal@.len() == self.content@.len()
                && o.inscription@.len() == self.content@.len()
                && o.network_fee == plan.commit.fee_paid
                    + crate::mint::spec_fee_total(plan.reveal_fees@)
                && o.service_fee == plan.service_total
                && o.satpoint_fee == TARGET_POSTAGE * self.content@.len(),
    {
        self.build(net, utxos, index, None, Some(SERVICE_FEE), false, TARGET_POSTAGE, false)
    }
}

} // verus!
verus! {

/// Postage preservation for a batch: the first output of every reveal
/// pays exactly the postage to the destination.
pub proof fn lemma_batch_postage_preserved(plan: MintsPlan, n: u64, utxos: Seq<UtxoEntry>,
    index: Seq<IndexEntry>, change_spk: Seq<u8>, dest: AddressInfo, service: AddressInfo,
    commit_rate: FeeRate, reveal_rate: FeeRate, no_limit: bool, postage: u64,
    service_fee: u64, wlen: nat, i: int)
    requires
        spec_mints_plan_ok(plan, n, utxos, index, change_spk, dest, service, commit_rate,
            reveal_rate, no_limit, postage, service_fee, wlen),
        0 <= i < n,
        postage <= 1_000_000_000,
    ensures
        plan.reveals@[i]@.outputs[0] == (TxOutV { value: postage, spk: dest.spk@ }),
{
    lemma_batch_index(plan.reveals@, n, plan.commit.tx@, plan.reveal_fees@,
        plan.reveal_scripts@, plan.commit_spks@, plan.control_blocks@, postage,
        plan.service_total, dest.spk@, service.spk@, reveal_rate, no_limit, i);
    if i == 0 {
        lemma_batch_outs0_facts(postage, plan.reveal_fees@, seq_views(plan.commit_spks@),
            plan.service_total, dest.spk@, service.spk@);
    }
}

/// Chain linkage for a batch: the first reveal spends the commit's first
/// output; every later one spends the fan-out's output at its own index.
pub proof fn lemma_batch_linkage(plan: MintsPlan, n: u64, utxos: Seq<UtxoEntry>,
    index: Seq<IndexEntry>, change_spk: Seq<u8>, dest: AddressInfo, service: AddressInfo,
    commit_rate: FeeRate, reveal_rate: FeeRate, no_limit: bool, postage: u64,
    service_fee: u64, wlen: nat, i: int)
    requires
        spec_mints_plan_ok(plan, n, utxos, index, change_spk, dest, service, commit_rate,
            reveal_rate, no_limit, postage, service_fee, wlen),
        0 <= i < n,
    ensures
        i == 0 ==> plan.reveals@[0]@.inputs[0].prevout
            == (OutPointV { txid: txid_of(plan.commit.tx@), vout: 0u32 }),
        i > 0 ==> plan.reveals@[i]@.inputs[0].prevout
            == (OutPointV { txid: txid_of(plan.reveals@[0]@), vout: i as u32 }),
{
    lemma_batch_index(plan.reveals@, n, plan.commit.tx@, plan.reveal_fees@,
        plan.reveal_scripts@, plan.commit_spks@, plan.control_blocks@, postage,
        plan.service_total, dest.spk@, service.spk@, reveal_rate, no_limit, i);
}

} // verus!
