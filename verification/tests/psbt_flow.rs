use bdk::bitcoin::psbt::PartiallySignedTransaction;
use bdk::bitcoin::secp256k1::Secp256k1;
use bdk::bitcoin::util::bip32::{ExtendedPrivKey, ExtendedPubKey};
use bdk::bitcoin::{
    OutPoint, PackedLockTime, Script, Sequence, Transaction, TxIn, TxOut, Witness,
};
use ohm::{OhmError, Servicer};

fn test_xpub(seed: u8) -> String {
    let xprv = ExtendedPrivKey::new_master(bdk::bitcoin::Network::Testnet, &[seed; 32]).unwrap();
    let secp = Secp256k1::new();
    ExtendedPubKey::from_priv(&secp, &xprv).to_string()
}

/// A minimal but well-formed PSBT: one input spending a made-up previous
/// transaction (carried along for the signer), one bare output. `mark`
/// varies the amounts so different marks give different unsigned
/// transactions.
fn test_psbt(mark: u64) -> String {
    let prev = Transaction {
        version: 2,
        lock_time: PackedLockTime::ZERO,
        input: vec![],
        output: vec![TxOut { value: 50_000 + mark, script_pubkey: Script::new() }],
    };
    let tx = Transaction {
        version: 2,
        lock_time: PackedLockTime::ZERO,
        input: vec![TxIn {
            previous_output: OutPoint { txid: prev.txid(), vout: 0 },
            script_sig: Script::new(),
            sequence: Sequence::MAX,
            witness: Witness::new(),
        }],
        output: vec![TxOut { value: 40_000 + mark, script_pubkey: Script::new() }],
    };
    let mut psbt = PartiallySignedTransaction::from_unsigned_tx(tx).unwrap();
    psbt.inputs[0].non_witness_utxo = Some(prev);
    psbt.to_string()
}

const WSH: i32 = 2;
const REGTEST: i32 = 1;

fn wallet(s: &mut Servicer) -> String {
    let a = s.register_cosigner("a@example.com", &test_xpub(1)).unwrap();
    let b = s.register_cosigner("b@example.com", &test_xpub(2)).unwrap();
    s.create_wallet(WSH, REGTEST, 2, vec![a.cosigner_id, b.cosigner_id])
        .unwrap()
        .wallet_id
}

#[test]
fn psbt_import_round_trip() {
    let mut s = Servicer::new();
    let w = wallet(&mut s);
    let p0 = test_psbt(0);
    let p = s.register_psbt(&w, &p0).unwrap();
    assert!(!p.psbt_id.is_empty());
    assert_eq!(p.base64, p0);
    assert_eq!(p.wallet_id, w);

    let got = s.get_psbt(&p.psbt_id).unwrap().unwrap();
    assert_eq!(got.base64, p0);
    assert_eq!(got.wallet_id, w);

    assert_eq!(s.forget_psbt(&p.psbt_id).unwrap(), p.psbt_id);
    assert!(s.get_psbt(&p.psbt_id).unwrap().is_none());
}

#[test]
fn register_psbt_rejects_garbage() {
    let mut s = Servicer::new();
    let w = wallet(&mut s);
    let r = s.register_psbt(&w, "not base64 at all");
    assert_eq!(r.err(), Some(OhmError::InvalidArgument));
    let missing = s.register_psbt("00000000-0000-4000-8000-000000000000", &test_psbt(0));
    assert_eq!(missing.err(), Some(OhmError::NotFound));
}

#[test]
fn signing_uncontrolled_psbt_is_a_noop_success() {
    let mut s = Servicer::new();
    let w = wallet(&mut s);
    let p0 = test_psbt(0);
    let p = s.register_psbt(&w, &p0).unwrap();
    // none of the PSBT's inputs are controlled by the wallet's key
    let signed = s.sign_psbt(&p.psbt_id).unwrap();
    assert_eq!(signed.base64, p0);
}

#[test]
fn signing_twice_reproduces_the_same_base64() {
    let mut s = Servicer::new();
    let w = wallet(&mut s);
    let p = s.register_psbt(&w, &test_psbt(0)).unwrap();
    let once = s.sign_psbt(&p.psbt_id).unwrap();
    let twice = s.sign_psbt(&p.psbt_id).unwrap();
    assert_eq!(once.base64, twice.base64);
    // the persisted record carries exactly the returned base64
    let got = s.get_psbt(&p.psbt_id).unwrap().unwrap();
    assert_eq!(got.base64, twice.base64);
}

#[test]
fn combining_unrelated_psbts_is_incompatible() {
    let mut s = Servicer::new();
    let w = wallet(&mut s);
    let p = s.register_psbt(&w, &test_psbt(0)).unwrap();
    let unrelated = test_psbt(7);
    let r = s.combine_with_other_psbt(&p.psbt_id, &unrelated);
    assert_eq!(r.err(), Some(OhmError::Incompatible));
    // the stored record is untouched by the failed combine
    let got = s.get_psbt(&p.psbt_id).unwrap().unwrap();
    assert_eq!(got.base64, p.base64);
}

#[test]
fn combining_a_psbt_with_itself_round_trips() {
    let mut s = Servicer::new();
    let w = wallet(&mut s);
    let p0 = test_psbt(0);
    let p = s.register_psbt(&w, &p0).unwrap();
    let combined = s.combine_with_other_psbt(&p.psbt_id, &p0).unwrap();
    assert_eq!(combined.base64, p0);
    let got = s.get_psbt(&p.psbt_id).unwrap().unwrap();
    assert_eq!(got.base64, combined.base64);
}

#[test]
fn forgetting_a_wallet_cascades_to_its_psbts() {
    let mut s = Servicer::new();
    let a = s.register_cosigner("a@example.com", &test_xpub(1)).unwrap();
    let b = s.register_cosigner("b@example.com", &test_xpub(2)).unwrap();
    let w = s
        .create_wallet(WSH, REGTEST, 2, vec![a.cosigner_id.clone(), b.cosigner_id.clone()])
        .unwrap();
    let p1 = s.register_psbt(&w.wallet_id, &test_psbt(0)).unwrap();
    let p2 = s.register_psbt(&w.wallet_id, &test_psbt(1)).unwrap();
    assert_eq!(s.find_psbt(&w.wallet_id).unwrap().len(), 2);

    s.forget_wallet(&w.wallet_id).unwrap();
    assert!(s.get_psbt(&p1.psbt_id).unwrap().is_none());
    assert!(s.get_psbt(&p2.psbt_id).unwrap().is_none());
    assert_eq!(s.find_psbt(&w.wallet_id).unwrap().len(), 0);
    // the external cosigners survive; only the wallet's own key is gone
    assert!(s.get_cosigner(&a.cosigner_id).unwrap().is_some());
    assert!(s.get_cosigner(&b.cosigner_id).unwrap().is_some());
    assert_eq!(s.find_cosigner(None, None).unwrap().len(), 2);
}

#[test]
fn find_psbt_lists_only_the_wallets_records() {
    let mut s = Servicer::new();
    let w1 = wallet(&mut s);
    let c = s.register_cosigner("c@example.com", &test_xpub(3)).unwrap();
    let w2 = s.create_wallet(WSH, REGTEST, 1, vec![c.cosigner_id]).unwrap().wallet_id;
    let p1 = s.register_psbt(&w1, &test_psbt(0)).unwrap();
    let _p2 = s.register_psbt(&w2, &test_psbt(1)).unwrap();
    let of_w1 = s.find_psbt(&w1).unwrap();
    assert_eq!(of_w1.len(), 1);
    assert_eq!(of_w1[0].psbt_id, p1.psbt_id);
}

#[test]
fn sign_psbt_reports_missing_records() {
    let mut s = Servicer::new();
    let r = s.sign_psbt("00000000-0000-4000-8000-000000000000");
    assert_eq!(r.err(), Some(OhmError::NotFound));
    let bad = s.sign_psbt("nonsense");
    assert_eq!(bad.err(), Some(OhmError::InvalidArgument));
}
