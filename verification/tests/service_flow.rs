use bdk::bitcoin::secp256k1::Secp256k1;
use bdk::bitcoin::util::bip32::{ExtendedPrivKey, ExtendedPubKey};
use ohm::{AddressType, OhmError, Servicer};

fn test_xpub(seed: u8) -> String {
    let xprv = ExtendedPrivKey::new_master(bdk::bitcoin::Network::Testnet, &[seed; 32]).unwrap();
    let secp = Secp256k1::new();
    ExtendedPubKey::from_priv(&secp, &xprv).to_string()
}

const WSH: i32 = 2;
const REGTEST: i32 = 1;

#[test]
fn empty_catalog_finds_nothing() {
    let s = Servicer::new();
    let cosigners = s.find_cosigner(None, None).unwrap();
    assert_eq!(cosigners.len(), 0);
    let wallets = s.find_wallet(None, None, None).unwrap();
    assert_eq!(wallets.len(), 0);
}

#[test]
fn two_of_two_wallet_registration() {
    let mut s = Servicer::new();
    let a = s.register_cosigner("a@example.com", &test_xpub(1)).unwrap();
    assert_eq!(a.email_address, "a@example.com");
    assert_eq!(a.xpub, test_xpub(1));
    assert!(!a.cosigner_id.is_empty());
    let b = s.register_cosigner("b@example.com", &test_xpub(2)).unwrap();
    assert_ne!(a.cosigner_id, b.cosigner_id);

    let w = s
        .create_wallet(WSH, REGTEST, 2, vec![a.cosigner_id.clone(), b.cosigner_id.clone()])
        .unwrap();
    assert_eq!(w.required_sigs, 2);
    assert_eq!(w.balance, "0");
    assert!(w.descriptor.starts_with("wsh(sortedmulti(2,"));
    assert!(!w.wallet_id.is_empty());

    let got = s.get_wallet(&w.wallet_id).unwrap().unwrap();
    assert_eq!(got.wallet_id, w.wallet_id);
    assert_eq!(got.required_sigs, 2);
    assert_eq!(got.balance, "0");
    assert_eq!(got.descriptor, w.descriptor);
    assert_eq!(got.receive_address, w.receive_address);

    assert_eq!(s.forget_wallet(&w.wallet_id).unwrap(), w.wallet_id);
    assert!(s.get_wallet(&w.wallet_id).unwrap().is_none());
    // the external cosigners survive
    let a_again = s.get_cosigner(&a.cosigner_id).unwrap().unwrap();
    assert_eq!(a_again.xpub, test_xpub(1));
}

#[test]
fn descriptor_determinism_under_permutation() {
    let mut s = Servicer::new();
    let a = s.register_cosigner("a@example.com", &test_xpub(1)).unwrap();
    let b = s.register_cosigner("b@example.com", &test_xpub(2)).unwrap();
    let w1 = s
        .create_wallet(WSH, REGTEST, 2, vec![a.cosigner_id.clone(), b.cosigner_id.clone()])
        .unwrap();
    let w2 = s
        .create_wallet(WSH, REGTEST, 2, vec![b.cosigner_id.clone(), a.cosigner_id.clone()])
        .unwrap();
    // Each wallet owns a freshly generated internal key, so the whole
    // descriptors differ; but both contain both external keys, and in the
    // same relative order, regardless of the order they were supplied in.
    let xpub1 = test_xpub(1);
    let xpub2 = test_xpub(2);
    let order = |d: &str| d.find(&xpub1).unwrap() < d.find(&xpub2).unwrap();
    assert_eq!(order(&w1.descriptor), order(&w2.descriptor));
    // and that order is the lexicographic order of the keys themselves
    assert_eq!(order(&w1.descriptor), xpub1 < xpub2);
}

#[test]
fn create_wallet_rejects_zero_threshold() {
    let mut s = Servicer::new();
    let a = s.register_cosigner("a@example.com", &test_xpub(1)).unwrap();
    let r = s.create_wallet(WSH, REGTEST, 0, vec![a.cosigner_id]);
    assert_eq!(r.err(), Some(OhmError::InvalidArgument));
}

#[test]
fn create_wallet_rejects_threshold_above_key_count() {
    let mut s = Servicer::new();
    let a = s.register_cosigner("a@example.com", &test_xpub(1)).unwrap();
    // one external plus the internal key makes N = 2, so M = 3 is out
    let r = s.create_wallet(WSH, REGTEST, 3, vec![a.cosigner_id]);
    assert_eq!(r.err(), Some(OhmError::InvalidArgument));
}

#[test]
fn create_wallet_rejects_empty_cosigner_list() {
    let mut s = Servicer::new();
    let r = s.create_wallet(WSH, REGTEST, 1, vec![]);
    assert_eq!(r.err(), Some(OhmError::InvalidArgument));
}

#[test]
fn create_wallet_rejects_unknown_tags() {
    let mut s = Servicer::new();
    let a = s.register_cosigner("a@example.com", &test_xpub(1)).unwrap();
    let r = s.create_wallet(9, REGTEST, 1, vec![a.cosigner_id.clone()]);
    assert_eq!(r.err(), Some(OhmError::InvalidArgument));
    let r2 = s.create_wallet(WSH, 9, 1, vec![a.cosigner_id]);
    assert_eq!(r2.err(), Some(OhmError::InvalidArgument));
}

#[test]
fn create_wallet_reports_missing_cosigner() {
    let mut s = Servicer::new();
    let a = s.register_cosigner("a@example.com", &test_xpub(1)).unwrap();
    let ghost_id = "00000000-0000-4000-8000-000000000000".to_string();
    let r = s.create_wallet(WSH, REGTEST, 1, vec![a.cosigner_id, ghost_id]);
    assert_eq!(r.err(), Some(OhmError::NotFound));
}

#[test]
fn cosigner_validation_and_lookup() {
    let mut s = Servicer::new();
    let bad_email = s.register_cosigner("nonsense", &test_xpub(1));
    assert_eq!(bad_email.err(), Some(OhmError::InvalidArgument));
    let bad_xpub = s.register_cosigner("a@example.com", "tpubnonsense");
    assert_eq!(bad_xpub.err(), Some(OhmError::InvalidArgument));

    let bad_uuid = s.get_cosigner("not-a-uuid");
    assert_eq!(bad_uuid.err(), Some(OhmError::InvalidArgument));
    let missing = s.get_cosigner("00000000-0000-4000-8000-000000000000").unwrap();
    assert!(missing.is_none());

    let a = s.register_cosigner("a@example.com", &test_xpub(1)).unwrap();
    let _b = s.register_cosigner("b@example.com", &test_xpub(2)).unwrap();
    let by_email = s.find_cosigner(Some("a@example.com"), None).unwrap();
    assert_eq!(by_email.len(), 1);
    assert_eq!(by_email[0].cosigner_id, a.cosigner_id);
    let xpub1 = test_xpub(1);
    let by_xpub = s.find_cosigner(None, Some(&xpub1)).unwrap();
    assert_eq!(by_xpub.len(), 1);
    let all = s.find_cosigner(None, None).unwrap();
    assert_eq!(all.len(), 2);
}

#[test]
fn forget_cosigner_removes_the_record() {
    let mut s = Servicer::new();
    let a = s.register_cosigner("a@example.com", &test_xpub(1)).unwrap();
    let missing = s.forget_cosigner("00000000-0000-4000-8000-000000000000");
    assert_eq!(missing.err(), Some(OhmError::NotFound));
    assert_eq!(s.forget_cosigner(&a.cosigner_id).unwrap(), a.cosigner_id);
    assert!(s.get_cosigner(&a.cosigner_id).unwrap().is_none());
}

#[test]
fn find_wallet_filters_by_network_and_descriptor() {
    let mut s = Servicer::new();
    let a = s.register_cosigner("a@example.com", &test_xpub(1)).unwrap();
    let w = s.create_wallet(WSH, REGTEST, 1, vec![a.cosigner_id]).unwrap();
    let by_net = s.find_wallet(None, Some(REGTEST), None).unwrap();
    assert_eq!(by_net.len(), 1);
    assert_eq!(by_net[0].wallet_id, w.wallet_id);
    let other_net = s.find_wallet(None, Some(3), None).unwrap();
    assert_eq!(other_net.len(), 0);
    let by_desc = s.find_wallet(None, None, Some(&w.descriptor)).unwrap();
    assert_eq!(by_desc.len(), 1);
}

#[test]
fn new_receive_address_advances_the_index() {
    let mut s = Servicer::new();
    let a = s.register_cosigner("a@example.com", &test_xpub(1)).unwrap();
    let w = s.create_wallet(WSH, REGTEST, 1, vec![a.cosigner_id]).unwrap();
    let first = s.get_new_receive_address(&w.wallet_id).unwrap();
    let second = s.get_new_receive_address(&w.wallet_id).unwrap();
    assert_ne!(first, second);
    assert_ne!(first, w.receive_address);
    // deriving again at the same stored index reproduces the same address
    let now = s.get_wallet(&w.wallet_id).unwrap().unwrap();
    let again = s.get_wallet(&w.wallet_id).unwrap().unwrap();
    assert_eq!(now.receive_address, again.receive_address);
    assert_eq!(now.receive_address, second);
}

#[test]
fn validate_payment_reads_decimal_amounts() {
    let mut s = Servicer::new();
    let a = s.register_cosigner("a@example.com", &test_xpub(1)).unwrap();
    let w = s.create_wallet(WSH, REGTEST, 1, vec![a.cosigner_id]).unwrap();
    let addr = w.receive_address.as_str();
    assert_eq!(ohm::service::validate_payment("2", addr).unwrap(), 2);
    // amounts are truncated towards zero, as the decimal library reads them
    assert_eq!(ohm::service::validate_payment("1.5", addr).unwrap(), 1);
    assert_eq!(
        ohm::service::validate_payment("-1", addr).err(),
        Some(OhmError::InvalidArgument),
    );
    assert_eq!(
        ohm::service::validate_payment("2", "not-an-address").err(),
        Some(OhmError::InvalidArgument),
    );
}

#[test]
fn all_address_schemes_compose_compiling_descriptors() {
    let mut s = Servicer::new();
    let a = s.register_cosigner("a@example.com", &test_xpub(1)).unwrap();
    let sh = s.create_wallet(1, REGTEST, 1, vec![a.cosigner_id.clone()]).unwrap();
    assert!(sh.descriptor.starts_with("sh(sortedmulti(1,"));
    let wsh = s.create_wallet(2, REGTEST, 1, vec![a.cosigner_id.clone()]).unwrap();
    assert!(wsh.descriptor.starts_with("wsh(sortedmulti(1,"));
    let sh_wsh = s.create_wallet(3, REGTEST, 1, vec![a.cosigner_id]).unwrap();
    assert!(sh_wsh.descriptor.starts_with("sh(wsh(sortedmulti(1,"));
}

#[test]
fn signet_is_a_distinct_network() {
    let mut s = Servicer::new();
    let a = s.register_cosigner("a@example.com", &test_xpub(1)).unwrap();
    let w = s.create_wallet(WSH, 4, 1, vec![a.cosigner_id]).unwrap();
    let on_signet = s.find_wallet(None, Some(4), None).unwrap();
    assert_eq!(on_signet.len(), 1);
    assert_eq!(on_signet[0].wallet_id, w.wallet_id);
    let on_regtest = s.find_wallet(None, Some(REGTEST), None).unwrap();
    assert_eq!(on_regtest.len(), 0);
}

#[test]
fn find_cosigner_validates_its_filters() {
    let mut s = Servicer::new();
    let _a = s.register_cosigner("a@example.com", &test_xpub(1)).unwrap();
    let bad_email = s.find_cosigner(Some("not an email"), None);
    assert_eq!(bad_email.err(), Some(OhmError::InvalidArgument));
    let bad_xpub = s.find_cosigner(None, Some("tpubnonsense"));
    assert_eq!(bad_xpub.err(), Some(OhmError::InvalidArgument));
}

#[test]
fn scheme_names_follow_the_cli_encoding() {
    assert_eq!(AddressType::from_name("sh").unwrap(), AddressType::P2sh);
    assert_eq!(AddressType::from_name("wsh").unwrap(), AddressType::P2wsh);
    assert_eq!(AddressType::from_name("sh_wsh").unwrap(), AddressType::P2shwsh);
    assert_eq!(AddressType::from_name("tr").err(), Some(OhmError::InvalidArgument));
    assert_eq!(AddressType::from_name("").err(), Some(OhmError::InvalidArgument));
}

#[test]
fn update_balance_persists_the_observation() {
    let mut s = Servicer::new();
    let a = s.register_cosigner("a@example.com", &test_xpub(1)).unwrap();
    let w = s.create_wallet(WSH, REGTEST, 1, vec![a.cosigner_id]).unwrap();
    assert_eq!(w.network, REGTEST);
    s.update_balance(&w.wallet_id, 250_000).unwrap();
    let got = s.get_wallet(&w.wallet_id).unwrap().unwrap();
    assert_eq!(got.balance, "250000");
    let missing = s.update_balance("00000000-0000-4000-8000-000000000000", 1);
    assert_eq!(missing.err(), Some(OhmError::NotFound));
}
