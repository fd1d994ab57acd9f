//! Plain-value model of the chain data the planner works on: transaction
//! ids, outpoints, satpoints, addresses, fee rates and the transactions the
//! planner builds.

use vstd::prelude::*;

verus! {

/// A transaction id: 32 bytes in the internal (consensus) byte order, as they
/// appear inside a serialized outpoint.
pub struct Txid {
    pub bytes: Vec<u8>,
}

impl View for Txid {
    type V = Seq<u8>;

    open spec fn view(&self) -> Seq<u8> {
        self.bytes@
    }
}

impl Txid {
    pub open spec fn wf(&self) -> bool {
        self.bytes@.len() == 32
    }

    pub fn new(bytes: Vec<u8>) -> (r: Txid)
        requires
            bytes@.len() == 32,
        ensures
            r@ == bytes@,
            r.wf(),
    {
        Txid { bytes }
    }

    pub fn clone(&self) -> (r: Txid)
        ensures
            r@ == self@,
            r.wf() == self.wf(),
    {
        let mut b: Vec<u8> = Vec::new();
        let mut i: usize = 0;
        while i < self.bytes.len()
            invariant
                i <= self.bytes.len(),
                b@ == self.bytes@.subrange(0, i as int),
            decreases self.bytes.len() - i,
        {
            b.push(self.bytes[i]);
            i += 1;
        }
        proof {
            assert(b@ =~= self.bytes@);
        }
        Txid { bytes: b }
    }
}

/// A reference to one output of a prior transaction.
pub struct OutPoint {
    pub txid: Txid,
    pub vout: u32,
}

/// Ghost image of an [`OutPoint`].
#[verifier::ext_equal]
pub ghost struct OutPointV {
    pub txid: Seq<u8>,
    pub vout: u32,
}

impl View for OutPoint {
    type V = OutPointV;

    open spec fn view(&self) -> OutPointV {
        OutPointV { txid: self.txid@, vout: self.vout }
    }
}

impl OutPoint {
    pub open spec fn wf(&self) -> bool {
        self.txid.wf()
    }

    pub fn clone(&self) -> (r: OutPoint)
        ensures
            r@ == self@,
            r.wf() == self.wf(),
    {
        let r = OutPoint { txid: self.txid.clone(), vout: self.vout };
        proof {
            assert(r@ =~= self@);
        }
        r
    }
}

/// A satpoint: one satoshi inside an output, given as outpoint plus offset.
pub struct SatPoint {
    pub outpoint: OutPoint,
    pub offset: u64,
}

/// Ghost image of a [`SatPoint`].
#[verifier::ext_equal]
pub ghost struct SatPointV {
    pub outpoint: OutPointV,
    pub offset: u64,
}

impl View for SatPoint {
    type V = SatPointV;

    open spec fn view(&self) -> SatPointV {
        SatPointV { outpoint: self.outpoint@, offset: self.offset }
    }
}

impl SatPoint {
    pub open spec fn wf(&self) -> bool {
        self.outpoint.wf()
    }

    pub fn clone(&self) -> (r: SatPoint)
        ensures
            r@ == self@,
            r.wf() == self.wf(),
    {
        let r = SatPoint { outpoint: self.outpoint.clone(), offset: self.offset };
        proof {
            assert(r@ =~= self@);
        }
        r
    }
}

/// An inscription id: the txid of the reveal transaction plus the index of
/// the inscription within it.
pub struct InscriptionId {
    pub txid: Txid,
    pub index: u32,
}

/// Ghost image of an [`InscriptionId`].
#[verifier::ext_equal]
pub ghost struct InscriptionIdV {
    pub txid: Seq<u8>,
    pub index: u32,
}

impl View for InscriptionId {
    type V = InscriptionIdV;

    open spec fn view(&self) -> InscriptionIdV {
        InscriptionIdV { txid: self.txid@, index: self.index }
    }
}

impl InscriptionId {
    pub open spec fn wf(&self) -> bool {
        self.txid.wf()
    }
}

/// The address type tags the planner distinguishes. Anything that is not
/// pay-to-taproot or pay-to-witness-pubkey-hash is rejected.
#[derive(Clone, Copy, PartialEq, Eq, Structural, Debug)]
pub enum AddrKind {
    P2tr,
    P2wpkh,
    Other,
}

/// Network tag of an address or of a planner request.
#[derive(Clone, Copy, PartialEq, Eq, Structural, Debug)]
pub enum Net {
    Mainnet,
    Testnet,
    Signet,
    Regtest,
}

/// A wallet address, reduced to what the planner reads: its type tag, its
/// network, and its script pubkey bytes.
pub struct AddressInfo {
    pub kind: AddrKind,
    pub net: Net,
    pub spk: Vec<u8>,
}

/// Ghost image of an [`AddressInfo`].
#[verifier::ext_equal]
pub ghost struct AddressInfoV {
    pub kind: AddrKind,
    pub net: Net,
    pub spk: Seq<u8>,
}

impl View for AddressInfo {
    type V = AddressInfoV;

    open spec fn view(&self) -> AddressInfoV {
        AddressInfoV { kind: self.kind, net: self.net, spk: self.spk@ }
    }
}

impl AddressInfo {
    /// A pay-to-taproot script is `OP_PUSHNUM_1 OP_PUSHBYTES_32 <32 bytes>`;
    /// a pay-to-witness-pubkey-hash script is `OP_0 OP_PUSHBYTES_20 <20 bytes>`.
    pub open spec fn wf(&self) -> bool {
        &&& self.kind == AddrKind::P2tr ==> {
            &&& self.spk@.len() == 34
            &&& self.spk@[0] == 0x51u8
            &&& self.spk@[1] == 0x20u8
        }
        &&& self.kind == AddrKind::P2wpkh ==> {
            &&& self.spk@.len() == 22
            &&& self.spk@[0] == 0x00u8
            &&& self.spk@[1] == 0x14u8
        }
        &&& self.spk@.len() <= 10_000
    }

    pub fn clone(&self) -> (r: AddressInfo)
        ensures
            r@ == self@,
            r.wf() == self.wf(),
    {
        let mut b: Vec<u8> = Vec::new();
        let mut i: usize = 0;
        while i < self.spk.len()
            invariant
                i <= self.spk.len(),
                b@ == self.spk@.subrange(0, i as int),
            decreases self.spk.len() - i,
        {
            b.push(self.spk[i]);
            i += 1;
        }
        proof {
            assert(b@ =~= self.spk@);
        }
        let r = AddressInfo { kind: self.kind, net: self.net, spk: b };
        proof {
            assert(r@ =~= self@);
        }
        r
    }
}

/// Fee rate in millisatoshis per virtual byte. A rate of `r` sat/vB is stored
/// as `r * 1000`, so fractional rates down to a thousandth are exact.
#[derive(Clone, Copy)]
pub struct FeeRate {
    pub msat_per_vb: u64,
}

impl FeeRate {
    /// Rates beyond a million satoshis per virtual byte are rejected so that
    /// every fee computed by the planner fits in 64 bits.
    pub open spec fn wf(&self) -> bool {
        self.msat_per_vb <= 1_000_000_000
    }

    pub fn from_sat_per_vb(sats: u64) -> (r: FeeRate)
        requires
            sats <= 1_000_000,
        ensures
            r.msat_per_vb == sats * 1000,
            r.wf(),
    {
        FeeRate { msat_per_vb: sats * 1000 }
    }
}

/// One input of a planned transaction. The planner always leaves the script
/// sig empty and uses the replace-by-fee sequence number, so only the
/// previous output and the witness stack vary.
pub struct TxIn {
    pub prevout: OutPoint,
    pub witness: Vec<Vec<u8>>,
}

/// Ghost image of a [`TxIn`].
#[verifier::ext_equal]
pub ghost struct TxInV {
    pub prevout: OutPointV,
    pub witness: Seq<Seq<u8>>,
}

impl View for TxIn {
    type V = TxInV;

    open spec fn view(&self) -> TxInV {
        TxInV { prevout: self.prevout@, witness: Seq::new(self.witness@.len(), |i: int| self.witness@[i]@) }
    }
}

impl TxIn {
    pub open spec fn wf(&self) -> bool {
        &&& self.prevout.wf()
        &&& self.witness@.len() <= 16
        &&& forall|i: int| 0 <= i < self.witness@.len() ==> #[trigger] self.witness@[i]@.len() <= 4_000_000
    }
}

/// One output of a planned transaction.
pub struct TxOut {
    pub value: u64,
    pub spk: Vec<u8>,
}

/// Ghost image of a [`TxOut`].
#[verifier::ext_equal]
pub ghost struct TxOutV {
    pub value: u64,
    pub spk: Seq<u8>,
}

impl View for TxOut {
    type V = TxOutV;

    open spec fn view(&self) -> TxOutV {
        TxOutV { value: self.value, spk: self.spk@ }
    }
}

impl TxOut {
    pub open spec fn wf(&self) -> bool {
        self.spk@.len() <= 10_000
    }

    pub fn clone(&self) -> (r: TxOut)
        ensures
            r@ == self@,
            r.wf() == self.wf(),
    {
        let mut b: Vec<u8> = Vec::new();
        let mut i: usize = 0;
        while i < self.spk.len()
            invariant
                i <= self.spk.len(),
                b@ == self.spk@.subrange(0, i as int),
            decreases self.spk.len() - i,
        {
            b.push(self.spk[i]);
            i += 1;
        }
        proof {
            assert(b@ =~= self.spk@);
        }
        let r = TxOut { value: self.value, spk: b };
        proof {
            assert(r@ =~= self@);
        }
        r
    }
}

/// A planned transaction. The planner only ever builds version-1
/// transactions with lock time zero and the replace-by-fee sequence number
/// on every input, so those fields are fixed rather than stored.
pub struct Tx {
    pub inputs: Vec<TxIn>,
    pub outputs: Vec<TxOut>,
}

/// Ghost image of a [`Tx`].
#[verifier::ext_equal]
pub ghost struct TxV {
    pub inputs: Seq<TxInV>,
    pub outputs: Seq<TxOutV>,
}

impl View for Tx {
    type V = TxV;

    open spec fn view(&self) -> TxV {
        TxV {
            inputs: Seq::new(self.inputs@.len(), |i: int| self.inputs@[i]@),
            outputs: Seq::new(self.outputs@.len(), |i: int| self.outputs@[i]@),
        }
    }
}

impl Tx {
    pub open spec fn wf(&self) -> bool {
        &&& self.inputs@.len() <= 200_000
        &&& self.outputs@.len() <= 10_000
        &&& forall|i: int| 0 <= i < self.inputs@.len() ==> #[trigger] self.inputs@[i].wf()
        &&& forall|i: int| 0 <= i < self.outputs@.len() ==> #[trigger] self.outputs@[i].wf()
    }
}

/// Sum of the values of a sequence of outputs.
pub open spec fn sum_values(outs: Seq<TxOutV>) -> int
    decreases outs.len(),
{
    if outs.len() == 0 {
        0
    } else {
        sum_values(outs.drop_last()) + outs.last().value
    }
}

/// The ghost images of a sequence of values, element by element.
pub open spec fn seq_views<T: View>(s: Seq<T>) -> Seq<T::V> {
    Seq::new(s.len(), |i: int| s[i]@)
}

/// One unspent output of the wallet view: its outpoint and its value in
/// satoshis.
pub struct UtxoEntry {
    pub outpoint: OutPoint,
    pub value: u64,
}

/// Ghost image of a [`UtxoEntry`].
#[verifier::ext_equal]
pub ghost struct UtxoEntryV {
    pub outpoint: OutPointV,
    pub value: u64,
}

impl View for UtxoEntry {
    type V = UtxoEntryV;

    open spec fn view(&self) -> UtxoEntryV {
        UtxoEntryV { outpoint: self.outpoint@, value: self.value }
    }
}

impl UtxoEntry {
    pub open spec fn wf(&self) -> bool {
        self.outpoint.wf()
    }
}

/// One entry of the inscription index: an inscribed satpoint and the id of
/// the inscription sitting on it.
pub struct IndexEntry {
    pub satpoint: SatPoint,
    pub id: InscriptionId,
}

/// Ghost image of an [`IndexEntry`].
#[verifier::ext_equal]
pub ghost struct IndexEntryV {
    pub satpoint: SatPointV,
    pub id: InscriptionIdV,
}

impl View for IndexEntry {
    type V = IndexEntryV;

    open spec fn view(&self) -> IndexEntryV {
        IndexEntryV { satpoint: self.satpoint@, id: self.id@ }
    }
}

impl IndexEntry {
    pub open spec fn wf(&self) -> bool {
        self.satpoint.wf() && self.id.wf()
    }
}

/// Sum of the values of a sequence of wallet entries.
pub open spec fn spec_utxo_sum(s: Seq<UtxoEntryV>) -> int
    decreases s.len(),
{
    if s.len() == 0 {
        0
    } else {
        spec_utxo_sum(s.drop_last()) + s.last().value
    }
}

/// Everything that can go wrong while planning.
#[derive(Clone, Copy, PartialEq, Eq, Structural, Debug)]
pub enum PlanError {
    /// Address invalid for the network, or its type is not P2TR / P2WPKH.
    InvalidAddress,
    /// The wallet view holds no uninscribed output to draw from.
    NoCardinalUtxos,
    /// The wallet cannot cover the target value plus the network fee.
    Insufficient,
    /// A planned output would fall below the dust threshold of its script.
    DustOutput,
    /// A reveal transaction would exceed the standard weight limit.
    WeightExceeded,
    /// The anchor satpoint or its outpoint already carries an inscription.
    AlreadyInscribed,
    /// Additional outgoings mix kinds with the primary outgoing.
    BadOutgoing,
    /// An inscription id could not be resolved to a satpoint.
    InscriptionNotFound,
    /// An anchor outpoint is not present in the wallet view.
    StaleTransferAnchor,
    /// The request itself is malformed (empty content list, zero repeat).
    BadRequest,
}

impl PlanError {
    /// A short human-readable tag for the error, for the shim to print.
    pub fn describe(&self) -> (r: &'static str) {
        match self {
            PlanError::InvalidAddress => "address type is not valid, only support p2tr and p2wpkh",
            PlanError::NoCardinalUtxos => "wallet contains no cardinal utxos",
            PlanError::Insufficient => "insufficient funds for target and fee",
            PlanError::DustOutput => "transaction output would be dust",
            PlanError::WeightExceeded => "reveal transaction weight greater than limit",
            PlanError::AlreadyInscribed => "sat already inscribed",
            PlanError::BadOutgoing => "addition outgoing must match the primary outgoing",
            PlanError::InscriptionNotFound => "inscription not found",
            PlanError::StaleTransferAnchor => "transfer anchor outpoint is not in the wallet view",
            PlanError::BadRequest => "bad request",
        }
    }
}

} // verus!
