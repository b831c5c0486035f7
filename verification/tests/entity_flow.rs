use bdk::bitcoin::secp256k1::Secp256k1;
use bdk::bitcoin::util::bip32::{ExtendedPrivKey, ExtendedPubKey};
use ohm::cosigner::Cosigner;
use ohm::store::Store;
use ohm::wallet::Wallet;
use ohm::{AddressType, CosignerType, Network, OhmError};

fn test_xpub(seed: u8) -> String {
    let xprv = ExtendedPrivKey::new_master(bdk::bitcoin::Network::Testnet, &[seed; 32]).unwrap();
    let secp = Secp256k1::new();
    ExtendedPubKey::from_priv(&secp, &xprv).to_string()
}

fn external(store: &mut Store, seed: u8) -> String {
    let mut c = Cosigner::new(
        CosignerType::External,
        Some(format!("seed{}@example.com", seed)),
        Some(test_xpub(seed)),
        None,
    )
    .unwrap();
    c.save(store).unwrap();
    c.uuid().unwrap().to_string()
}

#[test]
fn internal_cosigner_holds_xprv_external_does_not() {
    let internal = Cosigner::new(CosignerType::Internal, None, None, Some(Network::Regtest))
        .unwrap();
    assert_eq!(internal.type_(), CosignerType::Internal);
    assert!(internal.xprv().is_some());
    let xprv = internal.xprv().clone().unwrap();
    let xpub = internal.xpub().clone();
    assert_ne!(xprv, xpub);
    // The generated pair is a real bip32 pair: the xpub is derivable from
    // the xprv.
    let parsed: ExtendedPrivKey = xprv.parse().unwrap();
    let secp = Secp256k1::new();
    assert_eq!(ExtendedPubKey::from_priv(&secp, &parsed).to_string(), xpub);

    let ext = Cosigner::new(
        CosignerType::External,
        Some("a@example.com".to_string()),
        Some(test_xpub(1)),
        None,
    )
    .unwrap();
    assert_eq!(ext.type_(), CosignerType::External);
    assert!(ext.xprv().is_none());
}

#[test]
fn cosigner_constructor_validation() {
    let no_net = Cosigner::new(CosignerType::Internal, None, None, None);
    assert_eq!(no_net.err(), Some(OhmError::InvalidArgument));
    let no_xpub = Cosigner::new(CosignerType::External, None, None, None);
    assert_eq!(no_xpub.err(), Some(OhmError::InvalidArgument));
    let bad_xpub = Cosigner::new(
        CosignerType::External,
        None,
        Some("not-a-key".to_string()),
        None,
    );
    assert_eq!(bad_xpub.err(), Some(OhmError::InvalidArgument));
    let bad_email = Cosigner::new(
        CosignerType::External,
        Some("not an email".to_string()),
        Some(test_xpub(1)),
        None,
    );
    assert_eq!(bad_email.err(), Some(OhmError::InvalidArgument));
}

#[test]
fn set_wallet_is_once_settable() {
    let mut c = Cosigner::new(CosignerType::Internal, None, None, Some(Network::Regtest))
        .unwrap();
    assert!(c.set_wallet("w-1".to_string()).is_ok());
    assert_eq!(c.set_wallet("w-2".to_string()).err(), Some(OhmError::AlreadyBound));
}

#[test]
fn cosigner_remove_is_idempotent() {
    let mut store = Store::new();
    let mut c = Cosigner::new(
        CosignerType::External,
        Some("a@example.com".to_string()),
        Some(test_xpub(1)),
        None,
    )
    .unwrap();
    c.save(&mut store).unwrap();
    c.remove(&mut store).unwrap();
    assert!(c.uuid().is_none());
    c.remove(&mut store).unwrap();
    let found = Cosigner::find(&store, None, None, None, None).unwrap();
    assert_eq!(found.len(), 0);
}

#[test]
fn wallet_save_binds_exactly_one_internal_cosigner() {
    let mut store = Store::new();
    let a = external(&mut store, 1);
    let b = external(&mut store, 2);
    let mut w = Wallet::new(&store, AddressType::P2wsh, Network::Regtest, 2, vec![a, b])
        .unwrap();
    w.save(&mut store).unwrap();
    let wallet_uuid = w.uuid().unwrap().to_string();
    let linked = Cosigner::find(&store, None, None, None, Some(&wallet_uuid)).unwrap();
    assert_eq!(linked.len(), 1);
    assert_eq!(linked[0].type_(), CosignerType::Internal);
    w.remove(&mut store).unwrap();
    let linked_after = Cosigner::find(&store, None, None, None, Some(&wallet_uuid)).unwrap();
    assert_eq!(linked_after.len(), 0);
    // the external cosigners survive the cascade
    let all = Cosigner::find(&store, None, None, None, None).unwrap();
    assert_eq!(all.len(), 2);
}

#[test]
fn bound_internal_cosigner_cannot_be_removed_directly() {
    let mut store = Store::new();
    let a = external(&mut store, 1);
    let mut w = Wallet::new(&store, AddressType::P2wsh, Network::Regtest, 1, vec![a]).unwrap();
    w.save(&mut store).unwrap();
    let wallet_uuid = w.uuid().unwrap().to_string();
    let mut linked = Cosigner::find(&store, None, None, None, Some(&wallet_uuid)).unwrap();
    let internal = &mut linked[0];
    assert_eq!(internal.remove(&mut store).err(), Some(OhmError::InvalidArgument));
}

#[test]
fn watch_only_descriptor_is_textual_substitution() {
    let mut store = Store::new();
    let a = external(&mut store, 1);
    let b = external(&mut store, 2);
    let w = Wallet::new(&store, AddressType::P2wsh, Network::Regtest, 2, vec![a, b]).unwrap();
    let d = w.descriptors();
    let linked_xprv = {
        let full = &d.receive_descriptor;
        // the full descriptor embeds exactly one tprv
        assert_eq!(full.matches("tprv").count(), 1);
        let start = full.find("tprv").unwrap();
        let end = full[start..].find('/').unwrap() + start;
        full[start..end].to_string()
    };
    let parsed: ExtendedPrivKey = linked_xprv.parse().unwrap();
    let secp = Secp256k1::new();
    let xpub = ExtendedPubKey::from_priv(&secp, &parsed).to_string();
    assert_eq!(
        d.receive_descriptor_watch_only,
        d.receive_descriptor.replace(&linked_xprv, &xpub)
    );
    assert_eq!(
        d.change_descriptor_watch_only,
        d.change_descriptor.replace(&linked_xprv, &xpub)
    );
    // the four descriptors compile under the chain library
    for desc in [
        &d.receive_descriptor,
        &d.receive_descriptor_watch_only,
        &d.change_descriptor,
        &d.change_descriptor_watch_only,
    ] {
        bdk::Wallet::new(
            desc.as_str(),
            None,
            bdk::bitcoin::Network::Regtest,
            bdk::database::MemoryDatabase::default(),
        )
        .unwrap();
    }
}

#[test]
fn import_psbt_requires_saved_wallet() {
    let mut store = Store::new();
    let a = external(&mut store, 1);
    let mut w = Wallet::new(&store, AddressType::P2wsh, Network::Regtest, 1, vec![a]).unwrap();
    let err = w.import_psbt(&mut store, "cHNidP8=").err();
    assert_eq!(err, Some(OhmError::NotSaved));
}

#[test]
fn wallet_indices_start_at_zero_and_increment() {
    let mut store = Store::new();
    let a = external(&mut store, 1);
    let mut w = Wallet::new(&store, AddressType::P2wsh, Network::Regtest, 1, vec![a]).unwrap();
    assert_eq!(w.receive_address_index(), 0);
    assert_eq!(w.change_address_index(), 0);
    let first = w.receive_address().unwrap();
    let again = w.receive_address().unwrap();
    assert_eq!(first, again);
    let next = w.new_receive_address().unwrap();
    assert_eq!(w.receive_address_index(), 1);
    assert_ne!(first, next);
}

#[test]
fn balance_round_trips_through_the_catalog() {
    let mut store = Store::new();
    let a = external(&mut store, 1);
    let mut w = Wallet::new(&store, AddressType::P2wsh, Network::Regtest, 1, vec![a]).unwrap();
    w.save(&mut store).unwrap();
    w.set_balance(123_456);
    w.save(&mut store).unwrap();
    let wallet_uuid = w.uuid().unwrap().to_string();
    let reloaded = Wallet::from_db(&store, Some(&wallet_uuid)).unwrap().unwrap();
    assert_eq!(reloaded.balance(), 123_456);
}

#[test]
fn address_indices_never_decrease_across_saves() {
    let mut store = Store::new();
    let a = external(&mut store, 1);
    let mut w = Wallet::new(&store, AddressType::P2wsh, Network::Regtest, 1, vec![a]).unwrap();
    w.save(&mut store).unwrap();
    let wallet_uuid = w.uuid().unwrap().to_string();
    // two in-memory copies of the same wallet
    let mut fresh = Wallet::from_db(&store, Some(&wallet_uuid)).unwrap().unwrap();
    let mut stale = Wallet::from_db(&store, Some(&wallet_uuid)).unwrap().unwrap();
    fresh.new_receive_address().unwrap();
    fresh.save(&mut store).unwrap();
    // saving the stale copy must not roll the persisted index back
    stale.save(&mut store).unwrap();
    let reloaded = Wallet::from_db(&store, Some(&wallet_uuid)).unwrap().unwrap();
    assert_eq!(reloaded.receive_address_index(), 1);
}
