use ordplan::types::{AddrKind, AddressInfo, Net};
use ordplan::fees::dust_threshold;
use ordplan::script::{build_reveal_script, Inscription};
use ordplan::bytes::{dec_render, hex_encode, push_varint, rev_bytes};
use ordplan::crypto::key_new;
use ordplan::ser::{inscription_id_display, txid_display};
use std::str::FromStr;

fn p2tr_spk(tag: u8) -> Vec<u8> {
    let mut spk = vec![0x51, 0x20];
    spk.extend(std::iter::repeat(tag).take(32));
    spk
}

fn p2wpkh_spk(tag: u8) -> Vec<u8> {
    let mut spk = vec![0x00, 0x14];
    spk.extend(std::iter::repeat(tag).take(20));
    spk
}

#[test]
fn dust_thresholds_match_the_relay_rule() {
    // The values the bitcoin crate computes for the same scripts.
    let taproot = p2tr_spk(0x11);
    let segwit = p2wpkh_spk(0x22);
    assert_eq!(dust_threshold(&taproot), 330);
    assert_eq!(dust_threshold(&segwit), 294);
    assert_eq!(
        dust_threshold(&taproot),
        bitcoin::Script::from(taproot.clone()).dust_value().to_sat()
    );
    assert_eq!(
        dust_threshold(&segwit),
        bitcoin::Script::from(segwit.clone()).dust_value().to_sat()
    );
    // A data carrier has no threshold.
    assert_eq!(dust_threshold(&vec![0x6a, 0x04, 1, 2, 3, 4]), 0);
    // A legacy pay-to-pubkey-hash script.
    let mut legacy = vec![0x76, 0xa9, 0x14];
    legacy.extend(std::iter::repeat(0x33u8).take(20));
    legacy.push(0x88);
    legacy.push(0xac);
    assert_eq!(dust_threshold(&legacy), 546);
    assert_eq!(
        dust_threshold(&legacy),
        bitcoin::Script::from(legacy.clone()).dust_value().to_sat()
    );
}

#[test]
fn reveal_script_envelope_layout() {
    let key = key_new();
    let ins = Inscription::from_content(&b".txt".to_vec(), b"hi".to_vec()).unwrap();
    let script = build_reveal_script(key.pubkey(), &ins);
    let mut want: Vec<u8> = Vec::new();
    want.push(0x20);
    want.extend(key.pubkey().iter());
    want.push(0xac);
    want.push(0x00);
    want.push(0x63);
    want.extend([0x03, b'o', b'r', b'd']);
    want.extend([0x01, 0x01]);
    let ct = b"text/plain;charset=utf-8";
    want.push(ct.len() as u8);
    want.extend(ct.iter());
    want.push(0x00);
    want.extend([0x02, b'h', b'i']);
    want.push(0x68);
    assert_eq!(script, want);
}

#[test]
fn long_content_is_chunked_at_push_limits() {
    let key = key_new();
    let body = vec![0x41u8; 1200];
    let ins = Inscription::from_content(&b".txt".to_vec(), body).unwrap();
    let script = build_reveal_script(key.pubkey(), &ins);
    // Two 520-byte chunks behind two-byte length pushes, then the 160-byte
    // remainder behind a one-byte length push.
    let hay = script.as_slice();
    let mut chunk_markers = 0;
    for w in hay.windows(3) {
        if w == [0x4d, 0x08, 0x02] {
            chunk_markers += 1;
        }
    }
    assert_eq!(chunk_markers, 2);
    let mut tail_markers = 0;
    for w in hay.windows(2) {
        if w == [0x4c, 0xa0] {
            tail_markers += 1;
        }
    }
    assert_eq!(tail_markers, 1);
}

#[test]
fn media_types_resolve_from_extensions() {
    let json = Inscription::from_content(&b"data.json".to_vec(), b"{}".to_vec()).unwrap();
    assert_eq!(json.content_type, b"application/json".to_vec());
    let png = Inscription::from_content(&b".png".to_vec(), vec![1, 2, 3]).unwrap();
    assert_eq!(png.content_type, b"image/png".to_vec());
    let unknown = Inscription::from_content(&b".weird".to_vec(), vec![]);
    assert!(unknown.is_err());
}

#[test]
fn rendering_helpers_round_trip() {
    assert_eq!(dec_render(0), b"0".to_vec());
    assert_eq!(dec_render(90125), b"90125".to_vec());
    assert_eq!(hex_encode(&vec![0x00, 0xff, 0x1a]), b"00ff1a".to_vec());
    assert_eq!(rev_bytes(&vec![1, 2, 3]), vec![3, 2, 1]);
    let mut v: Vec<u8> = Vec::new();
    push_varint(&mut v, 0xfc);
    push_varint(&mut v, 0xfd);
    push_varint(&mut v, 0x10000);
    assert_eq!(v, vec![0xfc, 0xfd, 0xfd, 0x00, 0xfe, 0x00, 0x00, 0x01, 0x00]);
    let txid = vec![0xabu8; 31].into_iter().chain([0x01u8]).collect::<Vec<u8>>();
    let shown = txid_display(&txid);
    assert!(shown.starts_with(b"01"));
    let id = inscription_id_display(&txid, 0);
    assert!(id.ends_with(b"i0"));
}

#[test]
fn address_model_matches_bitcoin_scripts() {
    // A real regtest taproot address parsed by the bitcoin crate carries
    // the same script bytes the model expects.
    let secp = bitcoin::secp256k1::Secp256k1::new();
    let kp = bitcoin::secp256k1::KeyPair::new(&secp, &mut bitcoin::secp256k1::rand::thread_rng());
    let (xpk, _) = bitcoin::secp256k1::XOnlyPublicKey::from_keypair(&kp);
    let addr = bitcoin::Address::p2tr(&secp, xpk, None, bitcoin::Network::Regtest);
    let spk = addr.script_pubkey().to_bytes();
    assert_eq!(spk.len(), 34);
    assert_eq!(spk[0], 0x51);
    assert_eq!(spk[1], 0x20);
    let info = AddressInfo { kind: AddrKind::P2tr, net: Net::Regtest, spk };
    assert_eq!(info.spk.len(), 34);
    let round = bitcoin::Address::from_str(&addr.to_string()).unwrap();
    assert_eq!(round.script_pubkey().to_bytes(), info.spk);
}
