//! The boundary to the bitcoin crate: key generation, taproot derivation,
//! signing, and consensus serialization. Every function here is trusted;
//! its contract states what the bitcoin crate's source shows.

use vstd::prelude::*;
use bitcoin::schnorr::TapTweak;
use crate::types::{Tx, TxV, TxOut};

verus! {

#[verifier::external_type_specification]
#[verifier::external_body]
pub struct ExKeyPair(bitcoin::secp256k1::KeyPair);

#[verifier::external_type_specification]
#[verifier::external_body]
pub struct ExTransaction(bitcoin::Transaction);

/// The script pubkey of the taproot output committing to the single-leaf
/// tree over `script` with internal key `pk`; what finalizing a
/// `TaprootBuilder` and rendering the tweaked key as a v1 witness program
/// returns.
pub uninterp spec fn commit_spk_of(pk: Seq<u8>, script: Seq<u8>) -> Seq<u8>;

/// The serialized control block of that tree's one leaf.
pub uninterp spec fn control_block_of(pk: Seq<u8>, script: Seq<u8>) -> Seq<u8>;

/// The consensus serialization of the modelled transaction.
pub uninterp spec fn tx_ser_of(t: TxV) -> Seq<u8>;

/// The transaction id of the modelled transaction, in internal byte order.
pub uninterp spec fn txid_of(t: TxV) -> Seq<u8>;

/// The one-shot key that controls a reveal. The secret half never leaves
/// this structure; the view is the 32-byte x-only public key.
pub struct RevealKey {
    kp: bitcoin::secp256k1::KeyPair,
    pk: Vec<u8>,
}

impl View for RevealKey {
    type V = Seq<u8>;

    closed spec fn view(&self) -> Seq<u8> {
        self.pk@
    }
}

impl RevealKey {
    /// The serialized x-only public key.
    pub fn pubkey(&self) -> (r: &Vec<u8>)
        ensures
            r@ == self@,
    {
        &self.pk
    }
}

/// Relies on secp256k1's `KeyPair::new` and `XOnlyPublicKey::from_keypair`:
/// a fresh random keypair; the x-only public key serializes to 32 bytes.
#[verifier::external_body]
pub fn key_new() -> (r: RevealKey)
    ensures
        r@.len() == 32,
{
    let secp = bitcoin::secp256k1::Secp256k1::new();
    let kp = bitcoin::secp256k1::KeyPair::new(&secp, &mut bitcoin::secp256k1::rand::thread_rng());
    let (xpk, _parity) = bitcoin::secp256k1::XOnlyPublicKey::from_keypair(&kp);
    RevealKey { kp, pk: xpk.serialize().to_vec() }
}

/// Relies on `TaprootBuilder`: adding the one leaf and finalizing yields the
/// tweaked output key, rendered as a 34-byte v1 witness program, and a
/// 33-byte control block for the leaf.
#[verifier::external_body]
pub fn taproot_commit(key: &RevealKey, script: &Vec<u8>) -> (r: (Vec<u8>, Vec<u8>))
    ensures
        r.0@ == commit_spk_of(key@, script@),
        r.0@.len() == 34,
        r.0@[0] == 0x51u8,
        r.0@[1] == 0x20u8,
        r.1@ == control_block_of(key@, script@),
        r.1@.len() == 33,
{
    let secp = bitcoin::secp256k1::Secp256k1::new();
    let (xpk, _parity) = bitcoin::secp256k1::XOnlyPublicKey::from_keypair(&key.kp);
    let s = bitcoin::Script::from(script.clone());
    let info = bitcoin::util::taproot::TaprootBuilder::new()
        .add_leaf(0, s.clone()).expect("a single leaf fits")
        .finalize(&secp, xpk).expect("a single leaf is a complete tree");
    let cb = info.control_block(&(s, bitcoin::util::taproot::LeafVersion::TapScript))
        .expect("the one leaf is present");
    (bitcoin::Script::new_v1_p2tr_tweaked(info.output_key()).to_bytes(), cb.serialize())
}

/// Relies on `tap_tweak`: tweaking the reveal key with the single-leaf
/// merkle root (the leaf hash itself) reproduces the committed output key.
/// This is the independent recomputation behind the commit-key closure
/// check.
#[verifier::external_body]
pub fn recompute_commit_spk(key: &RevealKey, script: &Vec<u8>) -> (r: Vec<u8>)
    ensures
        r@ == commit_spk_of(key@, script@),
{
    let secp = bitcoin::secp256k1::Secp256k1::new();
    let s = bitcoin::Script::from(script.clone());
    let leaf = bitcoin::util::taproot::TapLeafHash::from_script(&s, bitcoin::util::taproot::LeafVersion::TapScript);
    let root = <bitcoin::util::taproot::TapBranchHash as bitcoin::hashes::Hash>::from_inner(
        <bitcoin::util::taproot::TapLeafHash as bitcoin::hashes::Hash>::into_inner(leaf));
    let tweaked = key.kp.tap_tweak(&secp, Some(root));
    let (xonly, _parity) = tweaked.to_inner().x_only_public_key();
    let out = bitcoin::util::schnorr::TweakedPublicKey::dangerous_assume_tweaked(xonly);
    bitcoin::Script::new_v1_p2tr_tweaked(out).to_bytes()
}

/// Builds the bitcoin crate's transaction from the model: version one, lock
/// time zero, empty script sigs, the replace-by-fee sequence number.
#[verifier::external_body]
fn to_btc(tx: &Tx) -> bitcoin::Transaction {
    let input = tx.inputs.iter().map(|i| bitcoin::TxIn {
        previous_output: bitcoin::OutPoint {
            txid: <bitcoin::Txid as bitcoin::hashes::Hash>::from_slice(&i.prevout.txid.bytes).expect("txids are 32 bytes"),
            vout: i.prevout.vout,
        },
        script_sig: bitcoin::Script::new(),
        sequence: bitcoin::Sequence::ENABLE_RBF_NO_LOCKTIME,
        witness: bitcoin::Witness::from_vec(i.witness.clone()),
    }).collect();
    let output = tx.outputs.iter().map(|o| bitcoin::TxOut { value: o.value, script_pubkey: bitcoin::Script::from(o.spk.clone()) }).collect();
    bitcoin::Transaction { version: 1, lock_time: bitcoin::PackedLockTime::ZERO, input, output }
}

/// Relies on bitcoin's consensus serialization of the converted transaction.
#[verifier::external_body]
pub fn tx_ser(tx: &Tx) -> (r: Vec<u8>)
    requires
        tx.wf(),
    ensures
        r@ == tx_ser_of(tx@),
{
    bitcoin::consensus::encode::serialize(&to_btc(tx))
}

/// Relies on `Transaction::txid`: the id of the converted transaction, in
/// internal byte order.
#[verifier::external_body]
pub fn tx_txid(tx: &Tx) -> (r: Vec<u8>)
    requires
        tx.wf(),
    ensures
        r@ == txid_of(tx@),
        r@.len() == 32,
{
    <bitcoin::Txid as bitcoin::hashes::Hash>::into_inner(to_btc(tx).txid()).to_vec()
}

/// Relies on `SighashCache::taproot_script_spend_signature_hash` and
/// `sign_schnorr`: a 64-byte Schnorr signature over the script-path spend
/// of the transaction's single input.
#[verifier::external_body]
pub fn sign_reveal(key: &RevealKey, tx: &Tx, prevout: &TxOut, script: &Vec<u8>) -> (r: Vec<u8>)
    requires
        tx.wf(),
        tx@.inputs.len() == 1,
    ensures
        r@.len() == 64,
{
    let btx = to_btc(tx);
    let mut cache = bitcoin::util::sighash::SighashCache::new(&btx);
    let s = bitcoin::Script::from(script.clone());
    let pv = bitcoin::TxOut { value: prevout.value, script_pubkey: bitcoin::Script::from(prevout.spk.clone()) };
    let sighash = cache.taproot_script_spend_signature_hash(
        0,
        &bitcoin::util::sighash::Prevouts::All(&[pv]),
        bitcoin::util::taproot::TapLeafHash::from_script(&s, bitcoin::util::taproot::LeafVersion::TapScript),
        bitcoin::SchnorrSighashType::Default,
    ).expect("one input with one prevout");
    let secp = bitcoin::secp256k1::Secp256k1::new();
    let msg = bitcoin::secp256k1::Message::from_slice(&<_ as bitcoin::hashes::Hash>::into_inner(sighash)).expect("a 32-byte hash");
    secp.sign_schnorr(&msg, &key.kp).as_ref().to_vec()
}

} // verus!
