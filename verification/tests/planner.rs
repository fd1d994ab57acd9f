use ordplan::types::{
    AddressInfo, AddrKind, FeeRate, IndexEntry, InscriptionId, Net, OutPoint, SatPoint, Tx,
    TxOut, Txid, UtxoEntry, PlanError,
};
use ordplan::script::Inscription;
use ordplan::mint::{Mint, TARGET_POSTAGE, create_inscription_transactions};
use ordplan::mints;
use ordplan::transfer::{Outgoing, Transfer};
use ordplan::cancel::Cancel;
use ordplan::burt::Burt;
use ordplan::crypto::recompute_commit_spk;

fn p2tr_addr(tag: u8) -> AddressInfo {
    let mut spk = vec![0x51, 0x20];
    spk.extend(std::iter::repeat(tag).take(32));
    AddressInfo { kind: AddrKind::P2tr, net: Net::Regtest, spk }
}

fn p2wpkh_addr(tag: u8) -> AddressInfo {
    let mut spk = vec![0x00, 0x14];
    spk.extend(std::iter::repeat(tag).take(20));
    AddressInfo { kind: AddrKind::P2wpkh, net: Net::Regtest, spk }
}

fn other_addr(tag: u8) -> AddressInfo {
    // A pay-to-script-hash script: not one of the supported kinds.
    let mut spk = vec![0xa9, 0x14];
    spk.extend(std::iter::repeat(tag).take(20));
    spk.push(0x87);
    AddressInfo { kind: AddrKind::Other, net: Net::Regtest, spk }
}

fn txid_n(tag: u8) -> Txid {
    Txid::new(vec![tag; 32])
}

fn utxo(tag: u8, vout: u32, value: u64) -> UtxoEntry {
    UtxoEntry { outpoint: OutPoint { txid: txid_n(tag), vout }, value }
}

fn rate(sats: u64) -> FeeRate {
    FeeRate::from_sat_per_vb(sats)
}

fn hex_to_bytes(ascii: &[u8]) -> Vec<u8> {
    fn nib(c: u8) -> u8 {
        if c.is_ascii_digit() { c - b'0' } else { c - b'a' + 10 }
    }
    ascii.chunks(2).map(|p| nib(p[0]) * 16 + nib(p[1])).collect()
}

fn sum_outputs(tx: &Tx) -> u64 {
    tx.outputs.iter().map(|o| o.value).sum()
}

#[test]
fn single_mint_shapes_and_fees() {
    let source = p2tr_addr(0xaa);
    let utxos = vec![utxo(1, 0, 1_000_000)];
    let index: Vec<IndexEntry> = vec![];
    let ins = Inscription::from_content(&b".txt".to_vec(), b"hi".to_vec()).unwrap();
    let plan = create_inscription_transactions(
        None, &ins, &index, &utxos, &source.spk.clone(), &source, rate(1), rate(1), false,
        &source, 1, 0, 10_000, AddrKind::P2tr,
    )
    .unwrap();
    assert_eq!(plan.reveals.len(), 1);
    // The reveal pays exactly the postage to the destination.
    assert_eq!(plan.reveals[0].outputs[0].value, 10_000);
    assert_eq!(plan.reveals[0].outputs.len(), 1);
    // The commit spends the single wallet output.
    assert_eq!(plan.commit.tx.inputs.len(), 1);
    assert_eq!(plan.commit.tx.inputs[0].prevout.txid.bytes, vec![1u8; 32]);
    // Its first output carries the commit script and at least postage plus
    // the reveal fee.
    assert_eq!(plan.commit.tx.outputs[0].spk, plan.commit_spk);
    assert!(plan.commit.tx.outputs[0].value >= 10_000 + plan.reveal_fees[0]);
    // The second output is change back to the source.
    assert_eq!(plan.commit.tx.outputs.len(), 2);
    assert_eq!(plan.commit.tx.outputs[1].spk, source.spk);
    // Fee accounting: inputs minus outputs is the fee paid.
    assert_eq!(plan.commit.input_total - sum_outputs(&plan.commit.tx), plan.commit.fee_paid);
    assert_eq!(plan.commit.input_total, 1_000_000);
}

#[test]
fn single_mint_commit_key_closure() {
    let source = p2tr_addr(0xaa);
    let utxos = vec![utxo(1, 0, 1_000_000)];
    let index: Vec<IndexEntry> = vec![];
    let ins = Inscription::from_content(&b".txt".to_vec(), b"hi".to_vec()).unwrap();
    let plan = create_inscription_transactions(
        None, &ins, &index, &utxos, &source.spk.clone(), &source, rate(1), rate(1), false,
        &source, 1, 0, 10_000, AddrKind::P2tr,
    )
    .unwrap();
    // Recomputing the commit script from the ephemeral key and the leaf
    // script yields the script actually committed to.
    let recomputed = recompute_commit_spk(&plan.key, &plan.reveal_script);
    assert_eq!(recomputed, plan.commit_spk);
    assert_eq!(plan.commit.tx.outputs[0].spk, recomputed);
}

#[test]
fn single_mint_reveal_matches_bitcoin_sizes() {
    let source = p2tr_addr(0xaa);
    let utxos = vec![utxo(1, 0, 1_000_000)];
    let index: Vec<IndexEntry> = vec![];
    let mint = Mint {
        fee_rate: rate(2),
        destination: None,
        source: source.clone(),
        extension: None,
        content: b"hi".to_vec(),
        repeat: None,
    };
    let out = mint.build(Net::Regtest, &utxos, &index, None, Some(0), 10_000, false).unwrap();
    assert_eq!(out.reveal.len(), 1);
    // The reveal hex parses as a transaction whose virtual size prices the
    // fee the planner charged: rate two satoshis per virtual byte.
    let raw = hex_to_bytes(&out.reveal[0]);
    let btx: bitcoin::Transaction = bitcoin::consensus::encode::deserialize(&raw).unwrap();
    assert_eq!(out.network_fee >= (btx.vsize() as u64) * 2, true);
    assert_eq!(btx.output[0].value, 10_000);
    assert_eq!(btx.input.len(), 1);
    // The commit hex parses as a partial envelope over the same inputs.
    let praw = hex_to_bytes(&out.commit);
    let psbt: bitcoin::util::psbt::PartiallySignedTransaction =
        bitcoin::consensus::encode::deserialize(&praw).unwrap();
    assert_eq!(psbt.unsigned_tx.input.len(), 1);
    assert_eq!(psbt.inputs.len(), 1);
    assert!(psbt.inputs[0].witness_utxo.is_some());
    assert_eq!(psbt.inputs[0].witness_utxo.as_ref().unwrap().value, 1_000_000);
    // The first reveal spends the commit's first output.
    assert_eq!(btx.input[0].previous_output.txid, psbt.unsigned_tx.txid());
    assert_eq!(btx.input[0].previous_output.vout, 0);
}

#[test]
fn repeat_mint_three_chain() {
    let source = p2tr_addr(0xaa);
    let dest = p2tr_addr(0xbb);
    let service = p2wpkh_addr(0xcc);
    let utxos = vec![utxo(1, 0, 100_000_000)];
    let index: Vec<IndexEntry> = vec![];
    let ins = Inscription::from_content(&b".txt".to_vec(), b"hi".to_vec()).unwrap();
    let plan = create_inscription_transactions(
        None, &ins, &index, &utxos, &source.spk.clone(), &dest, rate(1), rate(1), false,
        &service, 3, 3_000, 10_000, AddrKind::P2tr,
    )
    .unwrap();
    assert_eq!(plan.reveals.len(), 3);
    assert_eq!(plan.service_total, 9_000);
    // First reveal: destination postage, the forwarded carry, the service
    // total.
    let r0 = &plan.reveals[0];
    assert_eq!(r0.outputs.len(), 3);
    assert_eq!(r0.outputs[0].value, 10_000);
    assert_eq!(r0.outputs[0].spk, dest.spk);
    assert_eq!(r0.outputs[1].value, plan.carries[0]);
    assert_eq!(r0.outputs[1].spk, plan.commit_spk);
    assert_eq!(r0.outputs[2].value, 9_000);
    assert_eq!(r0.outputs[2].spk, service.spk);
    // Middle reveal: postage and the next carry.
    let r1 = &plan.reveals[1];
    assert_eq!(r1.outputs.len(), 2);
    assert_eq!(r1.outputs[0].value, 10_000);
    assert_eq!(r1.outputs[1].value, plan.carries[1]);
    // Last reveal: postage only.
    let r2 = &plan.reveals[2];
    assert_eq!(r2.outputs.len(), 1);
    assert_eq!(r2.outputs[0].value, 10_000);
    // The carry recurrence.
    assert_eq!(plan.carries[2], 0);
    assert_eq!(plan.carries[1], plan.reveal_fees[2] + 10_000);
    assert_eq!(plan.carries[0], plan.carries[1] + plan.reveal_fees[1] + 10_000);
    // Chain linkage: each later reveal spends its predecessor's second
    // output, as the bitcoin crate computes the predecessor's txid.
    for i in 1..3 {
        let prev: bitcoin::Transaction = {
            let ser = ordplan::crypto::tx_ser(&plan.reveals[i - 1]);
            bitcoin::consensus::encode::deserialize(&ser).unwrap()
        };
        let cur = &plan.reveals[i];
        let mut want = prev.txid().to_vec();
        want.reverse();
        let mut got = cur.inputs[0].prevout.txid.bytes.clone();
        got.reverse();
        assert_eq!(got, want);
        assert_eq!(cur.inputs[0].prevout.vout, 1);
    }
}

#[test]
fn repeat_mint_sizing_is_fixed_point() {
    let source = p2tr_addr(0xaa);
    let utxos = vec![utxo(1, 0, 100_000_000)];
    let index: Vec<IndexEntry> = vec![];
    let ins = Inscription::from_content(&b".txt".to_vec(), b"hi".to_vec()).unwrap();
    let plan = create_inscription_transactions(
        None, &ins, &index, &utxos, &source.spk.clone(), &source, rate(3), rate(3), false,
        &source, 3, 3_000, 10_000, AddrKind::P2tr,
    )
    .unwrap();
    // Each sized fee equals the fee of the reveal as built: the virtual
    // size of the signed transaction times the rate.
    for i in 0..3 {
        let ser = ordplan::crypto::tx_ser(&plan.reveals[i]);
        let btx: bitcoin::Transaction = bitcoin::consensus::encode::deserialize(&ser).unwrap();
        assert_eq!(plan.reveal_fees[i], (btx.vsize() as u64) * 3);
    }
}

#[test]
fn batch_mint_two_contents() {
    let source = p2tr_addr(0xaa);
    let dest = p2tr_addr(0xbb);
    let utxos = vec![utxo(1, 0, 100_000_000)];
    let index: Vec<IndexEntry> = vec![];
    let a = Inscription::from_content(&b".txt".to_vec(), b"a".to_vec()).unwrap();
    let b = Inscription::from_content(&b".txt".to_vec(), b"b".to_vec()).unwrap();
    let plan = mints::create_inscription_transactions(
        &vec![a, b], &index, &utxos, &source.spk.clone(), &dest, rate(1), rate(1), false,
        &source, 0, 10_000, AddrKind::P2tr,
    )
    .unwrap();
    assert_eq!(plan.reveals.len(), 2);
    // Each content gets its own commitment key script.
    assert_ne!(plan.commit_spks[0], plan.commit_spks[1]);
    // The commit pays the first commitment.
    assert_eq!(plan.commit.tx.outputs[0].spk, plan.commit_spks[0]);
    // The first reveal fans out: postage, then the second inscription's
    // commitment carrying its fee and postage.
    let r0 = &plan.reveals[0];
    assert_eq!(r0.outputs.len(), 2);
    assert_eq!(r0.outputs[0].value, 10_000);
    assert_eq!(r0.outputs[0].spk, dest.spk);
    assert_eq!(r0.outputs[1].value, plan.reveal_fees[1] + 10_000);
    assert_eq!(r0.outputs[1].spk, plan.commit_spks[1]);
    // The second reveal spends the fan-out's matching output.
    let ser = ordplan::crypto::tx_ser(r0);
    let b0: bitcoin::Transaction = bitcoin::consensus::encode::deserialize(&ser).unwrap();
    let r1 = &plan.reveals[1];
    assert_eq!(r1.inputs[0].prevout.txid.bytes, b0.txid().to_vec());
    assert_eq!(r1.inputs[0].prevout.vout, 1);
    assert_eq!(r1.outputs.len(), 1);
    assert_eq!(r1.outputs[0].value, 10_000);
}

#[test]
fn transfer_by_inscription_id() {
    let source = p2tr_addr(0xaa);
    let dest = p2tr_addr(0xbb);
    let anchor_txid = txid_n(7);
    let anchor = SatPoint {
        outpoint: OutPoint { txid: txid_n(7), vout: 0 },
        offset: 0,
    };
    let utxos = vec![
        UtxoEntry { outpoint: OutPoint { txid: txid_n(7), vout: 0 }, value: 8_000 },
        utxo(1, 0, 1_000_000),
    ];
    let index = vec![IndexEntry {
        satpoint: SatPoint { outpoint: OutPoint { txid: txid_n(7), vout: 0 }, offset: 0 },
        id: InscriptionId { txid: txid_n(7), index: 0 },
    }];
    let req = Transfer {
        destination: dest.clone(),
        source: source.clone(),
        outgoing: Outgoing::InscriptionId(InscriptionId { txid: anchor_txid, index: 0 }),
        fee_rate: rate(2),
        op_return: None,
        brc20_transfer: None,
        addition_outgoing: vec![],
        addition_fee: 0,
    };
    let resolved = vec![Some(anchor)];
    let sel = req.plan(Net::Regtest, &utxos, &index, &resolved).unwrap();
    // The inscribed outpoint is the first input.
    assert_eq!(sel.tx.inputs[0].prevout.txid.bytes, vec![7u8; 32]);
    assert_eq!(sel.tx.inputs[0].prevout.vout, 0);
    // The destination gets exactly the postage; the change follows.
    assert_eq!(sel.tx.outputs[0].value, TARGET_POSTAGE);
    assert_eq!(sel.tx.outputs[0].spk, dest.spk);
    assert!(sel.has_change);
    assert_eq!(sel.tx.outputs[1].spk, source.spk);
    // Fee accounting at rate two: twice the virtual size as signed.
    let mut est_outs: Vec<TxOut> = vec![
        TxOut { value: TARGET_POSTAGE, spk: dest.spk.clone() },
        TxOut { value: 0, spk: source.spk.clone() },
    ];
    let vs = ordplan::select::est_vsize(sel.tx.inputs.len() as u64, 64, &mut est_outs);
    assert_eq!(sel.fee_paid, vs * 2);
    assert_eq!(sel.input_total - sum_outputs(&sel.tx), sel.fee_paid);
}

#[test]
fn transfer_brc20_synthesizes_anchor() {
    let source = p2tr_addr(0xaa);
    let dest = p2tr_addr(0xbb);
    let id = InscriptionId { txid: txid_n(9), index: 0 };
    // The wallet view already includes the synthesized outpoint because the
    // caller whitelisted it.
    let utxos = vec![
        UtxoEntry { outpoint: OutPoint { txid: txid_n(9), vout: 0 }, value: 6_000 },
        utxo(1, 0, 1_000_000),
    ];
    let index: Vec<IndexEntry> = vec![];
    let req = Transfer {
        destination: dest,
        source,
        outgoing: Outgoing::InscriptionId(id),
        fee_rate: rate(1),
        op_return: None,
        brc20_transfer: Some(true),
        addition_outgoing: vec![],
        addition_fee: 0,
    };
    // The whitelist the caller must pass to the wallet view.
    let wanted = req.requested_outpoints();
    assert_eq!(wanted.len(), 1);
    assert_eq!(wanted[0].txid.bytes, vec![9u8; 32]);
    assert_eq!(wanted[0].vout, 0);
    // The id-to-satpoint map is never consulted: no resolutions given.
    let resolved: Vec<Option<SatPoint>> = vec![];
    let sel = req.plan(Net::Regtest, &utxos, &index, &resolved).unwrap();
    assert_eq!(sel.tx.inputs[0].prevout.txid.bytes, vec![9u8; 32]);
    assert_eq!(sel.tx.inputs[0].prevout.vout, 0);
}

#[test]
fn transfer_with_op_return_rider() {
    let source = p2tr_addr(0xaa);
    let dest = p2tr_addr(0xbb);
    let utxos = vec![utxo(1, 0, 1_000_000)];
    let index: Vec<IndexEntry> = vec![];
    let req = Transfer {
        destination: dest.clone(),
        source,
        outgoing: Outgoing::Amount(50_000),
        fee_rate: rate(1),
        op_return: Some(b"memo".to_vec().iter().map(|c| *c).collect()),
        brc20_transfer: None,
        addition_outgoing: vec![],
        addition_fee: 0,
    };
    let resolved: Vec<Option<SatPoint>> = vec![];
    let sel = req.plan(Net::Regtest, &utxos, &index, &resolved).unwrap();
    // The destination stays first; the rider is the zero-valued final
    // output starting with the data-carrier opcode.
    assert_eq!(sel.tx.outputs[0].value, 50_000);
    assert_eq!(sel.tx.outputs[0].spk, dest.spk);
    let last = sel.tx.outputs.last().unwrap();
    assert_eq!(last.value, 0);
    assert_eq!(last.spk, b"memo".to_vec());
}

#[test]
fn cancel_two_inputs() {
    let source = p2tr_addr(0xaa);
    let utxos = vec![utxo(2, 1, 50_000), utxo(3, 0, 40_000)];
    let req = Cancel {
        source: source.clone(),
        inputs: vec![
            OutPoint { txid: txid_n(2), vout: 1 },
            OutPoint { txid: txid_n(3), vout: 0 },
        ],
        fee_rate: rate(1),
    };
    let (tx, fee, vs, total) = req.plan(Net::Regtest, &utxos).unwrap();
    assert_eq!(total, 90_000);
    // At one satoshi per virtual byte the fee is the virtual size.
    assert_eq!(fee, vs);
    assert_eq!(tx.outputs.len(), 1);
    assert_eq!(tx.outputs[0].value, 90_000 - fee);
    assert_eq!(tx.outputs[0].spk, source.spk);
    assert_eq!(tx.inputs.len(), 2);
}

#[test]
fn cancel_insufficient_inputs() {
    let source = p2tr_addr(0xaa);
    let utxos = vec![utxo(2, 1, 10)];
    let req = Cancel {
        source,
        inputs: vec![OutPoint { txid: txid_n(2), vout: 1 }],
        fee_rate: rate(1),
    };
    let err = match req.plan(Net::Regtest, &utxos) {
        Err(e) => e,
        Ok(_) => panic!("expected an insufficiency rejection"),
    };
    assert_eq!(err, PlanError::Insufficient);
}

#[test]
fn burt_aggregates_inputs_and_totals() {
    let dest = p2tr_addr(0xdd);
    // Two previously planned transactions, one input each.
    let tx_a = Tx {
        inputs: vec![ordplan::types::TxIn {
            prevout: OutPoint { txid: txid_n(4), vout: 0 },
            witness: vec![],
        }],
        outputs: vec![TxOut { value: 30_000, spk: dest.spk.clone() }],
    };
    let tx_b = Tx {
        inputs: vec![ordplan::types::TxIn {
            prevout: OutPoint { txid: txid_n(5), vout: 2 },
            witness: vec![],
        }],
        outputs: vec![TxOut { value: 12_000, spk: dest.spk.clone() }],
    };
    let utxos = vec![utxo(4, 0, 70_000), UtxoEntry {
        outpoint: OutPoint { txid: txid_n(5), vout: 2 },
        value: 25_000,
    }];
    let req = Burt {
        destination: dest.clone(),
        burt_txs: vec![txid_n(4), txid_n(5)],
        fee_rate: rate(1),
    };
    let (tx, fee, _vs, total, paid_out) = req
        .plan(Net::Regtest, &vec![tx_a, tx_b], &utxos)
        .unwrap();
    assert_eq!(paid_out, 42_000);
    assert_eq!(total, 95_000);
    assert_eq!(tx.inputs.len(), 2);
    assert_eq!(tx.outputs[0].value, 95_000 - fee);
    assert_eq!(tx.outputs[0].spk, dest.spk);
}

#[test]
fn mint_rejects_unsupported_address_type() {
    let source = other_addr(0xaa);
    let utxos = vec![utxo(1, 0, 1_000_000)];
    let index: Vec<IndexEntry> = vec![];
    let mint = Mint {
        fee_rate: rate(1),
        destination: None,
        source,
        extension: None,
        content: b"hi".to_vec(),
        repeat: None,
    };
    let err = match mint.run(Net::Regtest, &utxos, &index) {
        Err(e) => e,
        Ok(_) => panic!("expected an address rejection"),
    };
    assert_eq!(err, PlanError::InvalidAddress);
}

#[test]
fn amount_transfer_needs_a_cardinal() {
    let source = p2tr_addr(0xaa);
    let dest = p2tr_addr(0xbb);
    // Every wallet output carries an inscription.
    let utxos = vec![utxo(1, 0, 1_000_000)];
    let index = vec![IndexEntry {
        satpoint: SatPoint { outpoint: OutPoint { txid: txid_n(1), vout: 0 }, offset: 0 },
        id: InscriptionId { txid: txid_n(1), index: 0 },
    }];
    let req = Transfer {
        destination: dest,
        source,
        outgoing: Outgoing::Amount(10_000),
        fee_rate: rate(1),
        op_return: None,
        brc20_transfer: None,
        addition_outgoing: vec![],
        addition_fee: 0,
    };
    let resolved: Vec<Option<SatPoint>> = vec![];
    let err = match req.plan(Net::Regtest, &utxos, &index, &resolved) {
        Err(e) => e,
        Ok(_) => panic!("expected a cardinal rejection"),
    };
    assert_eq!(err, PlanError::NoCardinalUtxos);
}

#[test]
fn anchored_mint_rejects_inscribed_outpoint() {
    let source = p2tr_addr(0xaa);
    let utxos = vec![utxo(1, 0, 1_000_000), utxo(2, 0, 9_000)];
    let index = vec![IndexEntry {
        satpoint: SatPoint { outpoint: OutPoint { txid: txid_n(2), vout: 0 }, offset: 0 },
        id: InscriptionId { txid: txid_n(2), index: 0 },
    }];
    let ins = Inscription::from_content(&b".txt".to_vec(), b"hi".to_vec()).unwrap();
    let anchor = SatPoint { outpoint: OutPoint { txid: txid_n(2), vout: 0 }, offset: 0 };
    let err = match create_inscription_transactions(
        Some(anchor), &ins, &index, &utxos, &source.spk.clone(), &source, rate(1), rate(1),
        false, &source, 1, 0, 10_000, AddrKind::P2tr,
    ) {
        Err(e) => e,
        Ok(_) => panic!("expected an anchored rejection"),
    };
    assert_eq!(err, PlanError::AlreadyInscribed);
}

#[test]
fn mint_selection_skips_inscribed_outputs() {
    let source = p2tr_addr(0xaa);
    // The first wallet entry is inscribed; the planner must anchor on the
    // second.
    let utxos = vec![utxo(2, 0, 50_000_000), utxo(1, 0, 1_000_000)];
    let index = vec![IndexEntry {
        satpoint: SatPoint { outpoint: OutPoint { txid: txid_n(2), vout: 0 }, offset: 0 },
        id: InscriptionId { txid: txid_n(2), index: 0 },
    }];
    let ins = Inscription::from_content(&b".txt".to_vec(), b"hi".to_vec()).unwrap();
    let plan = create_inscription_transactions(
        None, &ins, &index, &utxos, &source.spk.clone(), &source, rate(1), rate(1), false,
        &source, 1, 0, 10_000, AddrKind::P2tr,
    )
    .unwrap();
    for input in plan.commit.tx.inputs.iter() {
        assert_ne!(input.prevout.txid.bytes, vec![2u8; 32]);
    }
}

#[test]
fn calculate_fee_matches_selection() {
    let source = p2tr_addr(0xaa);
    let utxos = vec![utxo(1, 0, 1_000_000)];
    let index: Vec<IndexEntry> = vec![];
    let ins = Inscription::from_content(&b".txt".to_vec(), b"hi".to_vec()).unwrap();
    let plan = create_inscription_transactions(
        None, &ins, &index, &utxos, &source.spk.clone(), &source, rate(1), rate(1), false,
        &source, 1, 0, 10_000, AddrKind::P2tr,
    )
    .unwrap();
    let fee = Mint::calculate_fee(&plan.commit.tx, &utxos).unwrap();
    assert_eq!(fee, plan.commit.fee_paid);
}

#[test]
fn mint_run_defaults() {
    let source = p2tr_addr(0xaa);
    let utxos = vec![utxo(1, 0, 1_000_000)];
    let index: Vec<IndexEntry> = vec![];
    let mint = Mint {
        fee_rate: rate(1),
        destination: None,
        source,
        extension: None,
        content: b"hi".to_vec(),
        repeat: None,
    };
    let out = mint.run(Net::Regtest, &utxos, &index).unwrap();
    assert_eq!(out.reveal.len(), 1);
    assert_eq!(out.inscription.len(), 1);
    // The default per-mint service fee.
    assert_eq!(out.service_fee, 3_000);
    assert_eq!(out.satpoint_fee, 10_000);
    // The inscription id is the reveal txid followed by the index marker.
    let raw = hex_to_bytes(&out.reveal[0]);
    let btx: bitcoin::Transaction = bitcoin::consensus::encode::deserialize(&raw).unwrap();
    let want = format!("{}i0", btx.txid());
    assert_eq!(String::from_utf8(out.inscription[0].clone()).unwrap(), want);
}

#[test]
fn companion_list_carries_prevouts() {
    let source = p2tr_addr(0xaa);
    let utxos = vec![utxo(1, 0, 1_000_000)];
    let index: Vec<IndexEntry> = vec![];
    let mint = Mint {
        fee_rate: rate(1),
        destination: None,
        source,
        extension: None,
        content: b"hi".to_vec(),
        repeat: None,
    };
    let out = mint.run(Net::Regtest, &utxos, &index).unwrap();
    // One blob entry, then a txid and an output index per commit input.
    assert_eq!(out.commit_custom.len(), 3);
    let shown_txid = String::from_utf8(out.commit_custom[1].clone()).unwrap();
    // The display form reverses the internal byte order.
    let want: String = std::iter::repeat("01").take(32).collect();
    assert_eq!(shown_txid, want);
    assert_eq!(String::from_utf8(out.commit_custom[2].clone()).unwrap(), "0");
    // The blob is the serialized previous outputs followed by the unsigned
    // commit transaction.
    let blob = hex_to_bytes(&out.commit_custom[0]);
    assert_eq!(blob[0], 1);
    let tail = &blob[blob.len() - 4..];
    assert_eq!(tail, [0, 0, 0, 0]);
}

#[test]
fn transfer_rejects_inscribed_satpoint() {
    let source = p2tr_addr(0xaa);
    let dest = p2tr_addr(0xbb);
    let utxos = vec![utxo(7, 0, 8_000), utxo(1, 0, 1_000_000)];
    // The requested satpoint is itself a known inscription entry: it must
    // be moved by inscription id instead.
    let index = vec![IndexEntry {
        satpoint: SatPoint { outpoint: OutPoint { txid: txid_n(7), vout: 0 }, offset: 0 },
        id: InscriptionId { txid: txid_n(7), index: 0 },
    }];
    let req = Transfer {
        destination: dest,
        source,
        outgoing: Outgoing::SatPoint(SatPoint {
            outpoint: OutPoint { txid: txid_n(7), vout: 0 },
            offset: 0,
        }),
        fee_rate: rate(1),
        op_return: None,
        brc20_transfer: None,
        addition_outgoing: vec![],
        addition_fee: 0,
    };
    let resolved: Vec<Option<SatPoint>> = vec![];
    let err = match req.plan(Net::Regtest, &utxos, &index, &resolved) {
        Err(e) => e,
        Ok(_) => panic!("expected a satpoint rejection"),
    };
    assert_eq!(err, PlanError::AlreadyInscribed);
    // The same satpoint at another offset is not the inscribed entry, so
    // it passes the screen.
    let req2 = Transfer {
        destination: p2tr_addr(0xbb),
        source: p2tr_addr(0xaa),
        outgoing: Outgoing::SatPoint(SatPoint {
            outpoint: OutPoint { txid: txid_n(1), vout: 0 },
            offset: 0,
        }),
        fee_rate: rate(1),
        op_return: None,
        brc20_transfer: None,
        addition_outgoing: vec![],
        addition_fee: 0,
    };
    assert!(req2.plan(Net::Regtest, &utxos, &index, &resolved).is_ok());
}
