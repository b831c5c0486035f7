use vstd::prelude::*;

use crate::types::Network;

verus! {

/// Whether bip32 extended-public-key parsing
/// (`bitcoin::util::bip32::ExtendedPubKey::from_str`) accepts the string.
pub uninterp spec fn is_valid_xpub(s: Seq<char>) -> bool;

/// Whether bip32 extended-private-key parsing
/// (`bitcoin::util::bip32::ExtendedPrivKey::from_str`) accepts the string.
pub uninterp spec fn is_valid_xprv(s: Seq<char>) -> bool;

/// The base58 rendering of the extended public key that corresponds to the
/// given extended private key: a pure function of the xprv string.
pub uninterp spec fn xpub_of(xprv: Seq<char>) -> Seq<char>;

/// Relies on bip39's `Mnemonic::generate_in_with` (24 English words from the
/// OS RNG) and bdk's `DerivableKey`/`ExtendedKey::into_xprv` to derive a
/// master extended private key for the network. The key is random, so
/// nothing is assumed beyond the base58 round-trip: the rendering of an
/// extended private key parses back.
#[verifier::external_body]
pub(crate) fn generate_xprv(network: Network) -> (r: Option<String>)
    ensures
        r matches Some(k) ==> is_valid_xprv(k@),
{
    let net = match network {
        Network::Regtest => bdk::bitcoin::Network::Regtest,
        Network::Testnet => bdk::bitcoin::Network::Testnet,
        Network::Mainnet => bdk::bitcoin::Network::Bitcoin,
        Network::Signet => bdk::bitcoin::Network::Signet,
    };
    let mnemonic = bdk::keys::bip39::Mnemonic::generate_in_with(
        &mut bip39::rand::thread_rng(),
        bdk::keys::bip39::Language::English,
        24,
    ).ok()?;
    let xkey: bdk::keys::ExtendedKey = bdk::keys::DerivableKey::into_extended_key(mnemonic).ok()?;
    Some(xkey.into_xprv(net)?.to_string())
}

/// Relies on bip32 parsing and `ExtendedPubKey::from_priv`: the extended
/// public key is a pure function of the xprv string, and its base58
/// rendering parses back as an xpub.
#[verifier::external_body]
pub(crate) fn derive_xpub(xprv: &str) -> (r: Option<String>)
    ensures
        r is Some <==> is_valid_xprv(xprv@),
        r matches Some(p) ==> p@ == xpub_of(xprv@) && is_valid_xpub(p@),
{
    let key = xprv.parse::<bdk::bitcoin::util::bip32::ExtendedPrivKey>().ok()?;
    let secp = bdk::bitcoin::secp256k1::Secp256k1::new();
    Some(bdk::bitcoin::util::bip32::ExtendedPubKey::from_priv(&secp, &key).to_string())
}

/// Relies on bip32 `ExtendedPubKey::from_str`: acceptance depends on the
/// characters alone.
#[verifier::external_body]
pub(crate) fn xpub_ok(s: &str) -> (r: bool)
    ensures
        r == is_valid_xpub(s@),
{
    s.parse::<bdk::bitcoin::util::bip32::ExtendedPubKey>().is_ok()
}

} // verus!
