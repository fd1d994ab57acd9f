//! The transfer planner: move one or more inscribed satpoints (or a plain
//! amount) to a destination, with an optional data rider and an optional
//! flat addition to the destination value.

use vstd::prelude::*;
use crate::types::{
    OutPoint, OutPointV, SatPoint, SatPointV, InscriptionId, UtxoEntry, IndexEntry,
    AddressInfo, AddrKind, Net, FeeRate, PlanError, seq_views, spec_utxo_sum,
};
use crate::select::{
    Selection, select_funds, spec_selection_ok, spec_opt_bytes, spec_find_utxo,
    spec_outpoint_inscribed, spec_satpoint_known, spec_distinct_outpoints,
    satpoint_known, spec_sel_fee, spec_anchor_sum, spec_cardinal_sum, spec_cardinal_count,
};
use crate::fees::spec_dust_threshold;
use crate::mint::{TARGET_POSTAGE, first_cardinal_satpoint, wlen_for, spec_wlen};
use crate::bytes::{spec_hex, spec_dec};
use crate::ser::{
    psbt_ser, companion_list, build_witness_utxos, spec_psbt, spec_companion, spec_outs_view,
    spec_txid_display,
};
use crate::select::{spec_wu_of, spec_prevouts};
use crate::crypto::tx_ser_of;

verus! {

/// What a transfer moves: a satpoint, an inscription by id, or a plain
/// amount of satoshis.
pub enum Outgoing {
    SatPoint(SatPoint),
    InscriptionId(InscriptionId),
    Amount(u64),
}

/// A transfer request.
pub struct Transfer {
    pub destination: AddressInfo,
    pub source: AddressInfo,
    pub outgoing: Outgoing,
    pub fee_rate: FeeRate,
    pub op_return: Option<Vec<u8>>,
    pub brc20_transfer: Option<bool>,
    pub addition_outgoing: Vec<Outgoing>,
    pub addition_fee: u64,
}

/// What a transfer hands back: the partial envelope, the companion list,
/// and the network fee.
pub struct Output {
    pub transaction: Vec<u8>,
    pub commit_custom: Vec<Vec<u8>>,
    pub network_fee: u64,
}

/// The anchor a token transfer synthesizes for an inscription id: the
/// first output of the transaction that created it, at offset zero,
/// without consulting the id-to-satpoint map.
pub open spec fn spec_brc20_anchor(id: InscriptionId) -> SatPointV {
    SatPointV { outpoint: OutPointV { txid: id@.txid, vout: 0u32 }, offset: 0u64 }
}

/// How the chosen anchors relate to the request: the primary first, then
/// one per additional outgoing, each resolved by the mode of the primary.
pub open spec fn spec_anchors_match(anchors: Seq<SatPointV>, outgoing: Outgoing,
    additions: Seq<Outgoing>, resolved: Seq<Option<SatPoint>>, brc20: bool,
    utxos: Seq<UtxoEntry>, index: Seq<IndexEntry>) -> bool
{
    &&& anchors.len() == 1 + additions.len()
    &&& match outgoing {
        Outgoing::SatPoint(s) => {
            &&& anchors[0] == s@
            &&& (forall|k: int| 0 <= k < additions.len() ==> ((#[trigger] additions[k]) matches
                    Outgoing::SatPoint(a) && anchors[k + 1] == a@))
            &&& (forall|k: int| 0 <= k < anchors.len()
                    ==> !spec_satpoint_known(seq_views(index), #[trigger] anchors[k]))
        },
        Outgoing::InscriptionId(id) => {
            if brc20 {
                &&& anchors[0] == spec_brc20_anchor(id)
                &&& (forall|k: int| 0 <= k < additions.len() ==> ((#[trigger] additions[k]) matches
                        Outgoing::InscriptionId(a) && anchors[k + 1] == spec_brc20_anchor(a)))
            } else {
                &&& resolved.len() == 1 + additions.len()
                &&& (resolved[0] matches Some(s) && anchors[0] == s@)
                &&& (forall|k: int| 0 <= k < additions.len() ==> (#[trigger] additions[k]) matches
                        Outgoing::InscriptionId(a))
                &&& (forall|k: int| 0 <= k < additions.len() ==> ((#[trigger] resolved[k + 1])
                        matches Some(s) && anchors[k + 1] == s@))
            }
        },
        Outgoing::Amount(_) => {
            &&& additions.len() == 0
            &&& anchors[0].offset == 0
            &&& crate::mint::spec_is_first_cardinal(anchors[0].outpoint, utxos, index)
            &&& spec_find_utxo(seq_views(utxos), anchors[0].outpoint) is Some
        },
    }
}

/// Whether the request's addresses fit the network and the supported
/// address types.
pub open spec fn spec_addr_ok(t: Transfer, net: Net) -> bool {
    &&& t.destination.net == net
    &&& t.source.net == net
    &&& (t.source.kind == AddrKind::P2tr || t.source.kind == AddrKind::P2wpkh)
    &&& (t.destination.kind == AddrKind::P2tr || t.destination.kind == AddrKind::P2wpkh)
}

/// The destination value of the transfer.
pub open spec fn spec_transfer_target(outgoing: Outgoing, n_additions: nat, addition_fee: u64) -> int {
    match outgoing {
        Outgoing::Amount(a) => a + addition_fee,
        _ => TARGET_POSTAGE * (1 + n_additions) + addition_fee,
    }
}

/// A request whose mode-specific screens all pass: addresses fit, the
/// additional outgoings share the primary's kind, satpoints are not known
/// inscription entries, id resolutions are present, and amount mode has an
/// uninscribed entry to anchor on.
pub open spec fn spec_transfer_clean(t: Transfer, net: Net, resolved: Seq<Option<SatPoint>>,
    utxos: Seq<UtxoEntry>, index: Seq<IndexEntry>) -> bool
{
    let adds = t.addition_outgoing@;
    &&& spec_addr_ok(t, net)
    &&& match t.outgoing {
        Outgoing::SatPoint(s) => {
            &&& (forall|k: int| 0 <= k < adds.len()
                    ==> (#[trigger] adds[k]) matches Outgoing::SatPoint(_))
            &&& !spec_satpoint_known(seq_views(index), s@)
            &&& (forall|k: int| 0 <= k < adds.len()
                    ==> ((#[trigger] adds[k]) matches Outgoing::SatPoint(a)
                        ==> !spec_satpoint_known(seq_views(index), a@)))
        },
        Outgoing::InscriptionId(_) => {
            if t.brc20_transfer matches Some(true) {
                forall|k: int| 0 <= k < adds.len()
                    ==> (#[trigger] adds[k]) matches Outgoing::InscriptionId(_)
            } else {
                &&& resolved.len() == 1 + adds.len()
                &&& (forall|k: int| 0 <= k < adds.len()
                        ==> (#[trigger] adds[k]) matches Outgoing::InscriptionId(_))
                &&& (forall|k: int| 0 <= k < resolved.len() ==> (#[trigger] resolved[k]) is Some)
            }
        },
        Outgoing::Amount(_) => {
            &&& adds.len() == 0
            &&& !(forall|k: int| 0 <= k < utxos.len()
                    ==> spec_outpoint_inscribed(seq_views(index),
                        (#[trigger] seq_views(utxos)[k]).outpoint))
        },
    }
}

/// The outpoints the chosen anchors will spend, by the primary's mode;
/// meaningful on clean requests. Amount mode draws its anchor from the
/// wallet itself, so nothing is required of the view beyond a cardinal.
pub open spec fn spec_required_outpoints(outgoing: Outgoing, additions: Seq<Outgoing>,
    resolved: Seq<Option<SatPoint>>, brc20: bool) -> Seq<OutPointV>
{
    match outgoing {
        Outgoing::SatPoint(s) => seq![s@.outpoint] + Seq::new(additions.len(), |k: int|
            match additions[k] {
                Outgoing::SatPoint(a) => a@.outpoint,
                _ => s@.outpoint,
            }),
        Outgoing::InscriptionId(id) => if brc20 {
            seq![spec_brc20_anchor(id).outpoint] + Seq::new(additions.len(), |k: int|
                match additions[k] {
                    Outgoing::InscriptionId(a) => spec_brc20_anchor(a).outpoint,
                    _ => spec_brc20_anchor(id).outpoint,
                })
        } else {
            Seq::new(resolved.len(), |k: int| match resolved[k] {
                Some(sp) => sp@.outpoint,
                None => spec_brc20_anchor(id).outpoint,
            })
        },
        Outgoing::Amount(_) => Seq::empty(),
    }
}

/// How the chosen anchors relate to a request, by its own mode flag.
pub open spec fn spec_transfer_anchors_match(av: Seq<SatPointV>, t: Transfer,
    resolved: Seq<Option<SatPoint>>, utxos: Seq<UtxoEntry>, index: Seq<IndexEntry>) -> bool
{
    spec_anchors_match(av, t.outgoing, t.addition_outgoing@, resolved,
        t.brc20_transfer matches Some(true), utxos, index)
}

/// The required outpoints of a request, by its own mode flag.
pub open spec fn spec_transfer_required(t: Transfer, resolved: Seq<Option<SatPoint>>) -> Seq<OutPointV> {
    spec_required_outpoints(t.outgoing, t.addition_outgoing@, resolved,
        t.brc20_transfer matches Some(true))
}

/// On a clean request the chosen anchors spend exactly the required
/// outpoints, in order.
proof fn lemma_required_outpoints_match(av: Seq<SatPointV>, t: Transfer, net: Net,
    resolved: Seq<Option<SatPoint>>, utxos: Seq<UtxoEntry>, index: Seq<IndexEntry>)
    requires
        spec_anchors_match(av, t.outgoing, t.addition_outgoing@, resolved,
            t.brc20_transfer matches Some(true), utxos, index),
        spec_transfer_clean(t, net, resolved, utxos, index),
        !(t.outgoing matches Outgoing::Amount(_)),
    ensures
        ({
            let req = spec_required_outpoints(t.outgoing, t.addition_outgoing@, resolved,
                t.brc20_transfer matches Some(true));
            req.len() == av.len()
                && (forall|k: int| 0 <= k < req.len() ==> req[k] == (#[trigger] av[k]).outpoint)
        }),
{
    let adds = t.addition_outgoing@;
    let req = spec_required_outpoints(t.outgoing, adds, resolved,
        t.brc20_transfer matches Some(true));
    assert(req.len() == av.len());
    assert forall|k: int| 0 <= k < req.len() implies req[k] == (#[trigger] av[k]).outpoint by {
        match t.outgoing {
            Outgoing::SatPoint(s) => {
                if k > 0 {
                    assert(adds[k - 1] matches Outgoing::SatPoint(_));
                }
            },
            Outgoing::InscriptionId(id) => {
                if t.brc20_transfer matches Some(true) {
                    if k > 0 {
                        assert(adds[k - 1] matches Outgoing::InscriptionId(_));
                    }
                } else {
                    assert(resolved[k] is Some);
                    if k > 0 {
                        let q = k - 1;
                        assert(0 <= q < adds.len());
                        assert((resolved[q + 1] matches Some(sp) && av[q + 1] == sp@));
                    }
                }
            },
            Outgoing::Amount(_) => {},
        }
    }
}

impl Transfer {
    /// The outpoints the wallet view must be queried with even when it
    /// would otherwise filter them: the synthesized anchors of a token
    /// transfer by inscription id.
    pub fn requested_outpoints(&self) -> (r: Vec<OutPoint>)
        requires
            self.wf(),
        ensures
            self.outgoing matches Outgoing::InscriptionId(id)
                ==> (self.brc20_transfer matches Some(true)
                    ==> (r@.len() == 1 + self.addition_outgoing@.len()
                        && r@[0]@ == spec_brc20_anchor(id).outpoint)),
            !(self.brc20_transfer matches Some(true)
                && self.outgoing matches Outgoing::InscriptionId(_))
                ==> r@.len() == 0,
    {
        let mut r: Vec<OutPoint> = Vec::new();
        let brc20 = match self.brc20_transfer {
            Some(b) => b,
            None => false,
        };
        match &self.outgoing {
            Outgoing::InscriptionId(id) => {
                if brc20 {
                    r.push(OutPoint { txid: id.txid.clone(), vout: 0 });
                    let ghost first = r@[0]@;
                    let mut k: usize = 0;
                    while k < self.addition_outgoing.len()
                        invariant
                            k <= self.addition_outgoing@.len(),
                            r@.len() == 1 + k,
                            self.wf(),
                            r@[0]@ == first,
                        decreases self.addition_outgoing.len() - k,
                    {
                        match &self.addition_outgoing[k] {
                            Outgoing::InscriptionId(a) => {
                                r.push(OutPoint { txid: a.txid.clone(), vout: 0 });
                            },
                            _ => {
                                r.push(OutPoint { txid: id.txid.clone(), vout: 0 });
                            },
                        }
                        k += 1;
                    }
                }
            },
            _ => {},
        }
        r
    }

    /// What every transfer request must satisfy: well-formed addresses and
    /// ids, bounded counts and values.
    pub open spec fn wf(&self) -> bool {
        &&& self.destination.wf()
        &&& self.source.wf()
        &&& self.fee_rate.wf()
        &&& self.addition_outgoing@.len() <= 999
        &&& self.addition_fee <= 1_000_000_000_000
        &&& (self.outgoing matches Outgoing::SatPoint(s) ==> s.wf())
        &&& (self.outgoing matches Outgoing::InscriptionId(id) ==> id.wf())
        &&& (self.outgoing matches Outgoing::Amount(a) ==> a <= 2_100_000_000_000_000)
        &&& forall|k: int| 0 <= k < self.addition_outgoing@.len() ==> match #[trigger] self.addition_outgoing@[k] {
                Outgoing::SatPoint(s) => s.wf(),
                Outgoing::InscriptionId(id) => id.wf(),
                Outgoing::Amount(a) => a <= 2_100_000_000_000_000,
            }
        &&& (self.op_return matches Some(o) ==> o@.len() <= 10_000)
    }

    /// Plans the transfer: resolves the anchors by the primary outgoing's
    /// mode, funds the destination target, and returns the selection.
    pub fn plan(&self, net: Net, utxos: &Vec<UtxoEntry>, index: &Vec<IndexEntry>,
        resolved: &Vec<Option<SatPoint>>) -> (r: Result<Selection, PlanError>)
        requires
            self.wf(),
            utxos@.len() <= 100_000,
            forall|i: int| 0 <= i < utxos@.len() ==> (#[trigger] utxos@[i]).wf(),
            spec_utxo_sum(seq_views(utxos@)) <= 2_100_000_000_000_000,
            spec_distinct_outpoints(seq_views(utxos@)),
            forall|i: int| 0 <= i < resolved@.len() ==> ((#[trigger] resolved@[i]) matches Some(s)
                ==> s.wf()),
        ensures
            r == Err::<Selection, PlanError>(PlanError::InvalidAddress)
                <==> !spec_addr_ok(*self, net),
            r matches Err(e) ==> (e == PlanError::InvalidAddress || e == PlanError::BadOutgoing
                || e == PlanError::AlreadyInscribed || e == PlanError::InscriptionNotFound
                || e == PlanError::NoCardinalUtxos || e == PlanError::DustOutput
                || e == PlanError::StaleTransferAnchor || e == PlanError::Insufficient),
            r == Err::<Selection, PlanError>(PlanError::AlreadyInscribed)
                ==> self.outgoing matches Outgoing::SatPoint(_),
            // A satpoint that is itself a known inscription entry is
            // rejected: it must be moved by inscription id.
            self.outgoing matches Outgoing::SatPoint(s) ==> ((spec_addr_ok(*self, net)
                && (forall|k: int| 0 <= k < self.addition_outgoing@.len()
                    ==> (#[trigger] self.addition_outgoing@[k]) matches Outgoing::SatPoint(_)))
                ==> (r == Err::<Selection, PlanError>(PlanError::AlreadyInscribed)
                    <==> (spec_satpoint_known(seq_views(index@), s@)
                        || exists|k: int| 0 <= k < self.addition_outgoing@.len()
                            && ((#[trigger] self.addition_outgoing@[k]) matches
                                Outgoing::SatPoint(a)
                                && spec_satpoint_known(seq_views(index@), a@))))),
            r == Err::<Selection, PlanError>(PlanError::BadOutgoing)
                ==> (match self.outgoing {
                    Outgoing::SatPoint(_) => exists|k: int|
                        0 <= k < self.addition_outgoing@.len()
                        && !((#[trigger] self.addition_outgoing@[k]) matches
                            Outgoing::SatPoint(_)),
                    Outgoing::InscriptionId(_) => exists|k: int|
                        0 <= k < self.addition_outgoing@.len()
                        && !((#[trigger] self.addition_outgoing@[k]) matches
                            Outgoing::InscriptionId(_)),
                    Outgoing::Amount(_) => self.addition_outgoing@.len() > 0,
                }),
            r == Err::<Selection, PlanError>(PlanError::InscriptionNotFound)
                ==> (self.outgoing matches Outgoing::InscriptionId(_)
                    && !(self.brc20_transfer matches Some(true))
                    && (resolved@.len() != 1 + self.addition_outgoing@.len()
                        || exists|k: int| 0 <= k < resolved@.len()
                            && (#[trigger] resolved@[k]) is None)),
            r == Err::<Selection, PlanError>(PlanError::NoCardinalUtxos)
                <==> (spec_addr_ok(*self, net)
                    && (self.outgoing matches Outgoing::Amount(_))
                    && self.addition_outgoing@.len() == 0
                    && (forall|k: int| 0 <= k < utxos@.len()
                        ==> spec_outpoint_inscribed(seq_views(index@),
                            (#[trigger] seq_views(utxos@)[k]).outpoint))),
            // On a clean request only funding can fail, and each funding
            // error is pinned to its cause.
            spec_transfer_clean(*self, net, resolved@, utxos@, index@)
                ==> (r == Err::<Selection, PlanError>(PlanError::DustOutput)
                    <==> spec_transfer_target(self.outgoing, self.addition_outgoing@.len(),
                        self.addition_fee)
                        < spec_dust_threshold(self.destination.spk@)),
            spec_transfer_clean(*self, net, resolved@, utxos@, index@)
                ==> (r == Err::<Selection, PlanError>(PlanError::StaleTransferAnchor)
                    <==> (spec_transfer_target(self.outgoing, self.addition_outgoing@.len(),
                            self.addition_fee)
                            >= spec_dust_threshold(self.destination.spk@)
                        && exists|k: int| 0 <= k < spec_transfer_required(*self, resolved@).len()
                            && spec_find_utxo(seq_views(utxos@),
                                #[trigger] spec_transfer_required(*self, resolved@)[k])
                                is None)),
            r == Err::<Selection, PlanError>(PlanError::Insufficient)
                ==> exists|av: Seq<SatPointV>|
                    #[trigger] spec_transfer_anchors_match(av, *self, resolved@, utxos@, index@)
                    && spec_anchor_sum(av, seq_views(utxos@))
                        + spec_cardinal_sum(seq_views(utxos@), seq_views(index@), av)
                        < spec_transfer_target(self.outgoing, self.addition_outgoing@.len(),
                            self.addition_fee)
                        + spec_sel_fee(av.len() + spec_cardinal_count(seq_views(utxos@),
                            seq_views(index@), av), spec_wlen(self.source.kind),
                            (spec_transfer_target(self.outgoing,
                                self.addition_outgoing@.len(), self.addition_fee)) as u64,
                            self.destination.spk@, self.source.spk@,
                            spec_opt_bytes(self.op_return), self.fee_rate),
            r matches Ok(sel) ==> exists|anchors: Seq<SatPointV>|
                #[trigger] spec_selection_ok(sel, anchors, seq_views(utxos@), seq_views(index@),
                    (spec_transfer_target(self.outgoing, self.addition_outgoing@.len(),
                        self.addition_fee)) as u64,
                    self.destination.spk@, self.source.spk@, self.fee_rate,
                    spec_wlen(self.source.kind), spec_opt_bytes(self.op_return))
                && spec_anchors_match(anchors, self.outgoing, self.addition_outgoing@,
                    resolved@, self.brc20_transfer matches Some(true), utxos@, index@),
    {
        if !(self.destination.net == net && self.source.net == net
            && (self.source.kind == AddrKind::P2tr || self.source.kind == AddrKind::P2wpkh)
            && (self.destination.kind == AddrKind::P2tr
                || self.destination.kind == AddrKind::P2wpkh)) {
            return Err(PlanError::InvalidAddress);
        }
        let brc20 = match self.brc20_transfer {
            Some(b) => b,
            None => false,
        };
        proof {
            assert(brc20 == (self.brc20_transfer matches Some(true)));
        }
        let ghost addsv = self.addition_outgoing@;
        let n_add = self.addition_outgoing.len();

        let mut anchors: Vec<SatPoint> = Vec::new();
        let target: u64;
        match &self.outgoing {
            Outgoing::SatPoint(s) => {
                // A satpoint that is itself a known inscription entry must
                // be moved by inscription id instead.
                if satpoint_known(index, s) {
                    return Err(PlanError::AlreadyInscribed);
                }
                anchors.push(s.clone());
                proof {
                    assert(seq_views(anchors@)[0] == s@);
                }
                let mut k: usize = 0;
                while k < n_add
                    invariant
                        k <= n_add,
                        n_add == addsv.len(),
                        addsv == self.addition_outgoing@,
                        self.wf(),
                        spec_addr_ok(*self, net),
                        self.outgoing matches Outgoing::SatPoint(s0),
                        anchors@.len() == 1 + k,
                        (self.outgoing matches Outgoing::SatPoint(s0)
                            ==> seq_views(anchors@)[0] == s0@),
                        forall|q: int| 0 <= q < k ==> ((#[trigger] addsv[q]) matches
                            Outgoing::SatPoint(a) && seq_views(anchors@)[q + 1] == a@),
                        forall|q: int| 0 <= q < anchors@.len() ==> (#[trigger] anchors@[q]).wf(),
                        forall|q: int| 0 <= q < anchors@.len() ==> !spec_satpoint_known(
                            seq_views(index@), (#[trigger] seq_views(anchors@)[q])),
                    decreases n_add - k,
                {
                    let ghost pre = seq_views(anchors@);
                    match &self.addition_outgoing[k] {
                        Outgoing::SatPoint(a) => {
                            if satpoint_known(index, a) {
                                proof {
                                    assert(addsv[k as int]
                                        == self.addition_outgoing@[k as int]);
                                    assert((#[trigger] addsv[k as int]) matches
                                        Outgoing::SatPoint(a2)
                                        && spec_satpoint_known(seq_views(index@), a2@));
                                }
                                return Err(PlanError::AlreadyInscribed);
                            }
                            anchors.push(a.clone());
                            proof {
                                assert(seq_views(anchors@).drop_last() =~= pre);
                                assert(addsv[k as int] == self.addition_outgoing@[k as int]);
                                assert(seq_views(anchors@)[k + 1] == a@);
                                assert(!spec_satpoint_known(seq_views(index@), a@));
                                assert forall|q: int| 0 <= q < anchors@.len() implies
                                    !spec_satpoint_known(seq_views(index@),
                                        (#[trigger] seq_views(anchors@)[q])) by {
                                    if q < k + 1 {
                                        assert(seq_views(anchors@)[q] == pre[q]);
                                    } else {
                                        assert(seq_views(anchors@)[q] == a@);
                                    }
                                }
                            }
                        },
                        _ => {
                            proof {
                                assert(addsv[k as int] == self.addition_outgoing@[k as int]);
                                assert(!((#[trigger] addsv[k as int]) matches
                                    Outgoing::SatPoint(_)));
                            }
                            return Err(PlanError::BadOutgoing);
                        },
                    }
                    k += 1;
                }
                target = TARGET_POSTAGE * (1 + n_add as u64) + self.addition_fee;
            },
            Outgoing::InscriptionId(id) => {
                if brc20 {
                    anchors.push(SatPoint {
                        outpoint: OutPoint { txid: id.txid.clone(), vout: 0 },
                        offset: 0,
                    });
                    proof {
                        assert(seq_views(anchors@)[0] =~= spec_brc20_anchor(*id));
                    }
                    let mut k: usize = 0;
                    while k < n_add
                        invariant
                            k <= n_add,
                            n_add == addsv.len(),
                            addsv == self.addition_outgoing@,
                            self.wf(),
                        spec_addr_ok(*self, net),
                            self.outgoing matches Outgoing::InscriptionId(id0),
                            anchors@.len() == 1 + k,
                            (self.outgoing matches Outgoing::InscriptionId(id0)
                                ==> seq_views(anchors@)[0] == spec_brc20_anchor(id0)),
                            forall|q: int| 0 <= q < k ==> ((#[trigger] addsv[q]) matches
                                Outgoing::InscriptionId(a)
                                && seq_views(anchors@)[q + 1] == spec_brc20_anchor(a)),
                            forall|q: int| 0 <= q < anchors@.len()
                                ==> (#[trigger] anchors@[q]).wf(),
                        decreases n_add - k,
                    {
                        let ghost pre = seq_views(anchors@);
                        match &self.addition_outgoing[k] {
                            Outgoing::InscriptionId(a) => {
                                anchors.push(SatPoint {
                                    outpoint: OutPoint { txid: a.txid.clone(), vout: 0 },
                                    offset: 0,
                                });
                                proof {
                                    assert(seq_views(anchors@).drop_last() =~= pre);
                                    assert(addsv[k as int] == self.addition_outgoing@[k as int]);
                                    assert(seq_views(anchors@)[k + 1] =~= spec_brc20_anchor(*a));
                                }
                            },
                            _ => {
                                proof {
                                    assert(addsv[k as int]
                                        == self.addition_outgoing@[k as int]);
                                    assert(!((#[trigger] addsv[k as int]) matches
                                        Outgoing::InscriptionId(_)));
                                }
                                return Err(PlanError::BadOutgoing);
                            },
                        }
                        k += 1;
                    }
                } else {
                    if resolved.len() != 1 + n_add {
                        return Err(PlanError::InscriptionNotFound);
                    }
                    match &resolved[0] {
                        Some(s) => {
                            anchors.push(s.clone());
                        },
                        None => {
                            proof {
                                assert((#[trigger] resolved@[0]) is None);
                            }
                            return Err(PlanError::InscriptionNotFound);
                        },
                    }
                    let mut k: usize = 0;
                    while k < n_add
                        invariant
                            k <= n_add,
                            n_add == addsv.len(),
                            addsv == self.addition_outgoing@,
                            self.wf(),
                        spec_addr_ok(*self, net),
                            resolved@.len() == 1 + n_add,
                            self.outgoing matches Outgoing::InscriptionId(_),
                            !(self.brc20_transfer matches Some(true)),
                            forall|i: int| 0 <= i < resolved@.len()
                                ==> ((#[trigger] resolved@[i]) matches Some(s) ==> s.wf()),
                            anchors@.len() == 1 + k,
                            resolved@[0] matches Some(s)
                                && seq_views(anchors@)[0] == s@,
                            forall|q: int| 0 <= q < k ==> (#[trigger] addsv[q]) matches
                                Outgoing::InscriptionId(a),
                            forall|q: int| 0 <= q < k ==> ((#[trigger] resolved@[q + 1])
                                matches Some(s) && seq_views(anchors@)[q + 1] == s@),
                            forall|q: int| 0 <= q < anchors@.len()
                                ==> (#[trigger] anchors@[q]).wf(),
                        decreases n_add - k,
                    {
                        let ghost pre = seq_views(anchors@);
                        match &self.addition_outgoing[k] {
                            Outgoing::InscriptionId(_) => {
                                match &resolved[k + 1] {
                                    Some(s) => {
                                        anchors.push(s.clone());
                                        proof {
                                            assert(seq_views(anchors@).drop_last() =~= pre);
                                            assert(addsv[k as int]
                                                == self.addition_outgoing@[k as int]);
                                        }
                                    },
                                    None => {
                                        proof {
                                            assert((#[trigger] resolved@[k + 1]) is None);
                                        }
                                        return Err(PlanError::InscriptionNotFound);
                                    },
                                }
                            },
                            _ => {
                                proof {
                                    assert(addsv[k as int]
                                        == self.addition_outgoing@[k as int]);
                                    assert(!((#[trigger] addsv[k as int]) matches
                                        Outgoing::InscriptionId(_)));
                                }
                                return Err(PlanError::BadOutgoing);
                            },
                        }
                        k += 1;
                    }
                }
                target = TARGET_POSTAGE * (1 + n_add as u64) + self.addition_fee;
            },
            Outgoing::Amount(a) => {
                if self.addition_outgoing.len() > 0 {
                    return Err(PlanError::BadOutgoing);
                }
                match first_cardinal_satpoint(utxos, index) {
                    Some(s) => {
                        proof {
                            crate::select::lemma_find_exists(seq_views(utxos@), s@.outpoint);
                        }
                        anchors.push(s);
                    },
                    None => {
                        return Err(PlanError::NoCardinalUtxos);
                    },
                }
                target = *a + self.addition_fee;
            },
        }

        let ghost av = seq_views(anchors@);
        let ghost cm = spec_transfer_clean(*self, net, resolved@, utxos@, index@);
        let ghost req = spec_transfer_required(*self, resolved@);
        proof {
            assert(brc20 == (self.brc20_transfer matches Some(true)));
            assert(spec_anchors_match(av, self.outgoing, addsv, resolved@, brc20, utxos@,
                index@));
            assert(target == (spec_transfer_target(self.outgoing, self.addition_outgoing@.len(),
                self.addition_fee)) as u64);
            match &self.outgoing {
                Outgoing::SatPoint(s0) => {
                    assert(seq_views(anchors@)[0] == s0@);
                    assert(!spec_satpoint_known(seq_views(index@), s0@));
                    assert forall|k2: int| 0 <= k2 < addsv.len() implies
                        ((#[trigger] addsv[k2]) matches Outgoing::SatPoint(a2)
                            ==> !spec_satpoint_known(seq_views(index@), a2@)) by {
                        match addsv[k2] {
                            Outgoing::SatPoint(a2) => {
                                assert(seq_views(anchors@)[k2 + 1] == a2@);
                                assert(!spec_satpoint_known(seq_views(index@),
                                    seq_views(anchors@)[k2 + 1]));
                            },
                            _ => {},
                        }
                    }
                },
                _ => {},
            }
            if cm && !(self.outgoing matches Outgoing::Amount(_)) {
                lemma_required_outpoints_match(av, *self, net, resolved@, utxos@, index@);
            }
        }
        let wlen = wlen_for(self.source.kind);
        match select_funds(&anchors, utxos, index, &self.destination.spk, target,
            &self.source.spk, self.fee_rate, wlen, &self.op_return) {
            Ok(sel) => {
                proof {
                    assert(spec_selection_ok(sel, av, seq_views(utxos@), seq_views(index@),
                        (spec_transfer_target(self.outgoing, self.addition_outgoing@.len(),
                            self.addition_fee)) as u64,
                        self.destination.spk@, self.source.spk@, self.fee_rate,
                        spec_wlen(self.source.kind), spec_opt_bytes(self.op_return)));
                    if cm && !(self.outgoing matches Outgoing::Amount(_)) {
                        assert forall|k: int| 0 <= k < req.len() implies
                            !(spec_find_utxo(seq_views(utxos@), #[trigger] req[k]) is None) by {
                            assert(req[k] == av[k].outpoint);
                        }
                    }
                }
                Ok(sel)
            },
            Err(e) => {
                proof {
                    if e == PlanError::StaleTransferAnchor {
                        if self.outgoing matches Outgoing::Amount(_) {
                            // The amount-mode anchor was drawn from the
                            // wallet itself, so it cannot be missing.
                            assert(spec_find_utxo(seq_views(utxos@), av[0].outpoint) is Some);
                        } else if cm {
                            let kw = choose|k: int| 0 <= k < anchors@.len()
                                && spec_find_utxo(seq_views(utxos@),
                                    (#[trigger] seq_views(anchors@)[k]).outpoint) is None;
                            assert(req[kw] == av[kw].outpoint);
                            assert(spec_find_utxo(seq_views(utxos@), req[kw]) is None);
                        }
                    } else if cm && !(self.outgoing matches Outgoing::Amount(_))
                        && e != PlanError::DustOutput {
                        assert forall|k: int| 0 <= k < req.len() implies
                            !(spec_find_utxo(seq_views(utxos@), #[trigger] req[k]) is None) by {
                            assert(req[k] == av[k].outpoint);
                        }
                    }
                    if e == PlanError::Insufficient {
                        assert(spec_transfer_anchors_match(av, *self, resolved@, utxos@,
                            index@));
                    }
                }
                Err(e)
            },
        }
    }

    /// The network fee a spend pays: what its inputs draw from the wallet
    /// minus what its outputs carry.
    pub fn calculate_fee(tx: &crate::types::Tx, utxos: &Vec<UtxoEntry>)
        -> (r: Result<u64, PlanError>)
        requires
            tx@.inputs.len() <= 8_000,
            spec_utxo_sum(seq_views(utxos@)) <= 2_100_000_000_000_000,
            0 <= crate::types::sum_values(tx@.outputs) <= 2_100_000_000_000_000,
        ensures
            r matches Ok(v) ==> v == crate::select::spec_in_sum(tx@.inputs, seq_views(utxos@))
                - crate::types::sum_values(tx@.outputs),
            r is Ok <==> ((forall|i: int| 0 <= i < tx@.inputs.len()
                ==> crate::select::spec_find_utxo(seq_views(utxos@),
                    (#[trigger] tx@.inputs[i]).prevout) is Some)
                && crate::select::spec_in_sum(tx@.inputs, seq_views(utxos@))
                    >= crate::types::sum_values(tx@.outputs)),
            r matches Err(e) ==> (e == PlanError::StaleTransferAnchor
                || e == PlanError::Insufficient),
    {
        crate::mint::Mint::calculate_fee(tx, utxos)
    }

    /// Plans the transfer and wraps it in the signing envelope. The
    /// envelope is pinned byte for byte: the partial transaction over the
    /// selection, the companion blob, and per-input txids and indices.
    pub fn run(self, net: Net, utxos: &Vec<UtxoEntry>, index: &Vec<IndexEntry>,
        resolved: &Vec<Option<SatPoint>>) -> (r: Result<Output, PlanError>)
        requires
            self.wf(),
            utxos@.len() <= 100_000,
            forall|i: int| 0 <= i < utxos@.len() ==> (#[trigger] utxos@[i]).wf(),
            spec_utxo_sum(seq_views(utxos@)) <= 2_100_000_000_000_000,
            spec_distinct_outpoints(seq_views(utxos@)),
            forall|i: int| 0 <= i < resolved@.len() ==> ((#[trigger] resolved@[i]) matches Some(s)
                ==> s.wf()),
        ensures
            r == Err::<Output, PlanError>(PlanError::InvalidAddress)
                <==> !spec_addr_ok(self, net),
            r matches Err(e) ==> (e == PlanError::InvalidAddress || e == PlanError::BadOutgoing
                || e == PlanError::AlreadyInscribed || e == PlanError::InscriptionNotFound
                || e == PlanError::NoCardinalUtxos || e == PlanError::DustOutput
                || e == PlanError::StaleTransferAnchor || e == PlanError::Insufficient),
            self.outgoing matches Outgoing::SatPoint(s) ==> ((spec_addr_ok(self, net)
                && (forall|k: int| 0 <= k < self.addition_outgoing@.len()
                    ==> (#[trigger] self.addition_outgoing@[k]) matches Outgoing::SatPoint(_)))
                ==> (r == Err::<Output, PlanError>(PlanError::AlreadyInscribed)
                    <==> (spec_satpoint_known(seq_views(index@), s@)
                        || exists|k: int| 0 <= k < self.addition_outgoing@.len()
                            && ((#[trigger] self.addition_outgoing@[k]) matches
                                Outgoing::SatPoint(a)
                                && spec_satpoint_known(seq_views(index@), a@))))),
            r == Err::<Output, PlanError>(PlanError::NoCardinalUtxos)
                <==> (spec_addr_ok(self, net)
                    && (self.outgoing matches Outgoing::Amount(_))
                    && self.addition_outgoing@.len() == 0
                    && (forall|k: int| 0 <= k < utxos@.len()
                        ==> spec_outpoint_inscribed(seq_views(index@),
                            (#[trigger] seq_views(utxos@)[k]).outpoint))),
            spec_transfer_clean(self, net, resolved@, utxos@, index@)
                ==> (r == Err::<Output, PlanError>(PlanError::DustOutput)
                    <==> spec_transfer_target(self.outgoing, self.addition_outgoing@.len(),
                        self.addition_fee)
                        < spec_dust_threshold(self.destination.spk@)),
            spec_transfer_clean(self, net, resolved@, utxos@, index@)
                ==> (r == Err::<Output, PlanError>(PlanError::StaleTransferAnchor)
                    <==> (spec_transfer_target(self.outgoing, self.addition_outgoing@.len(),
                            self.addition_fee)
                            >= spec_dust_threshold(self.destination.spk@)
                        && exists|k: int| 0 <= k < spec_transfer_required(self, resolved@).len()
                            && spec_find_utxo(seq_views(utxos@),
                                #[trigger] spec_transfer_required(self, resolved@)[k])
                                is None)),
            r matches Ok(o) ==> exists|sel: Selection, anchors: Seq<SatPointV>|
                #[trigger] spec_selection_ok(sel, anchors, seq_views(utxos@), seq_views(index@),
                    (spec_transfer_target(self.outgoing, self.addition_outgoing@.len(),
                        self.addition_fee)) as u64,
                    self.destination.spk@, self.source.spk@, self.fee_rate,
                    spec_wlen(self.source.kind), spec_opt_bytes(self.op_return))
                && spec_transfer_anchors_match(anchors, self, resolved@, utxos@, index@)
                && o.network_fee == sel.fee_paid
                && o.transaction@ == spec_hex(spec_psbt(tx_ser_of(sel.tx@),
                    spec_wu_of(spec_prevouts(sel.tx@.inputs), seq_views(utxos@),
                        self.source.spk@), sel.tx@.outputs.len()))
                && o.commit_custom@.len() == 1 + 2 * sel.tx@.inputs.len()
                && o.commit_custom@[0]@ == spec_hex(spec_companion(
                    spec_wu_of(spec_prevouts(sel.tx@.inputs), seq_views(utxos@),
                        self.source.spk@), tx_ser_of(sel.tx@)))
                && (forall|i: int| 0 <= i < sel.tx@.inputs.len()
                    ==> (#[trigger] o.commit_custom@[1 + 2 * i])@
                        == spec_txid_display(sel.tx@.inputs[i].prevout.txid))
                && (forall|i: int| 0 <= i < sel.tx@.inputs.len()
                    ==> (#[trigger] o.commit_custom@[2 + 2 * i])@
                        == spec_dec(sel.tx@.inputs[i].prevout.vout as nat)),
    {
        let sel = match self.plan(net, utxos, index, resolved) {
            Ok(s) => s,
            Err(e) => {
                return Err(e);
            },
        };
        proof {
            let av0 = choose|anchors: Seq<SatPointV>|
                #[trigger] spec_selection_ok(sel, anchors, seq_views(utxos@), seq_views(index@),
                    (spec_transfer_target(self.outgoing, self.addition_outgoing@.len(),
                        self.addition_fee)) as u64,
                    self.destination.spk@, self.source.spk@, self.fee_rate,
                    spec_wlen(self.source.kind), spec_opt_bytes(self.op_return))
                && spec_anchors_match(anchors, self.outgoing, self.addition_outgoing@,
                    resolved@, self.brc20_transfer matches Some(true), utxos@, index@);
            assert(spec_selection_ok(sel, av0, seq_views(utxos@), seq_views(index@),
                (spec_transfer_target(self.outgoing, self.addition_outgoing@.len(),
                    self.addition_fee)) as u64,
                self.destination.spk@, self.source.spk@, self.fee_rate,
                spec_wlen(self.source.kind), spec_opt_bytes(self.op_return)));
        }
        let wus = build_witness_utxos(&sel.tx, utxos, &self.source.spk);
        let psbt = psbt_ser(&sel.tx, &wus);
        let transaction = crate::bytes::hex_encode(&psbt);
        let commit_custom = companion_list(&sel.tx, &wus);
        proof {
            assert(spec_outs_view(wus@) =~= spec_wu_of(spec_prevouts(sel.tx@.inputs),
                seq_views(utxos@), self.source.spk@));
        }
        Ok(Output { transaction, commit_custom, network_fee: sel.fee_paid })
    }
}

} // verus!
