use vstd::prelude::*;

use crate::types::Network;

verus! {

/// Whether PSBT base64 parsing (`PartiallySignedTransaction::from_str` in
/// the bitcoin crate) accepts the string.
pub uninterp spec fn is_valid_psbt(s: Seq<char>) -> bool;

/// The canonical base64 rendering of a PSBT: the result of parsing the
/// string and serializing it again. A pure function of the string.
pub uninterp spec fn psbt_norm(s: Seq<char>) -> Seq<char>;

/// The unsigned transaction a PSBT carries, as an abstract identity: two
/// PSBT strings have equal `psbt_tx` exactly when their parsed unsigned
/// transactions are equal.
pub uninterp spec fn psbt_tx(s: Seq<char>) -> Seq<char>;

/// The base64 rendering of the PSBT after the wallet of the given
/// descriptors contributed its signatures: deterministic ECDSA (RFC 6979)
/// makes it a pure function of the descriptors, network tag and input PSBT.
pub uninterp spec fn signed_psbt(recv: Seq<char>, chg: Seq<char>, net: int, psbt: Seq<char>) -> Seq<
    char,
>;

/// The base64 rendering of the BIP 174 combination of two PSBTs: a pure
/// function of the two strings.
pub uninterp spec fn combined_psbt(a: Seq<char>, b: Seq<char>) -> Seq<char>;

/// Whether the wallet of the given descriptors accepts the PSBT for
/// signing: a pure function of its arguments.
pub uninterp spec fn sign_ok(recv: Seq<char>, chg: Seq<char>, net: int, psbt: Seq<char>) -> bool;

/// Whether the BIP 174 combination of the two PSBT strings succeeds: a
/// pure function of the two strings.
pub uninterp spec fn combine_ok(a: Seq<char>, b: Seq<char>) -> bool;

/// What a decimal amount string denotes as an integer count of satoshis,
/// if it reads as a non-negative 64-bit integer (`Decimal::from_str` then
/// `to_u64`, which truncates towards zero).
pub uninterp spec fn amount_sats(s: Seq<char>) -> Option<u64>;

/// Whether `bitcoin::Address::from_str` accepts the string.
pub uninterp spec fn is_valid_address(s: Seq<char>) -> bool;

/// Relies on bitcoin's PSBT base64 `FromStr` and `Display`: parsing accepts
/// a string by its characters alone, re-serialization is a pure function of
/// it and parses back, and the round-trip keeps the unsigned transaction.
#[verifier::external_body]
pub(crate) fn psbt_normalize(s: &str) -> (r: Option<String>)
    ensures
        r is Some <==> is_valid_psbt(s@),
        r matches Some(t) ==> t@ == psbt_norm(s@) && is_valid_psbt(t@) && psbt_tx(t@) == psbt_tx(
            s@,
        ),
{
    let p = s.parse::<bdk::bitcoin::psbt::PartiallySignedTransaction>().ok()?;
    Some(p.to_string())
}

/// Relies on bdk's `Wallet::new` over a memory database plus `Wallet::sign`
/// with default options: no I/O, deterministic ECDSA, and signing never
/// changes the unsigned transaction. The result parses back. Signing its
/// own output is accepted and changes nothing: the deterministic signers
/// re-produce the very signatures the output already carries.
#[verifier::external_body]
pub(crate) fn psbt_sign(recv: &str, chg: &str, network: Network, s: &str) -> (r: Option<String>)
    ensures
        r is Some <==> sign_ok(recv@, chg@, network.spec_tag(), s@),
        r matches Some(t) ==> t@ == signed_psbt(recv@, chg@, network.spec_tag(), s@)
            && is_valid_psbt(t@) && psbt_tx(t@) == psbt_tx(s@) && sign_ok(
            recv@,
            chg@,
            network.spec_tag(),
            t@,
        ) && signed_psbt(recv@, chg@, network.spec_tag(), t@) == t@,
{
    let net = match network {
        Network::Regtest => bdk::bitcoin::Network::Regtest,
        Network::Testnet => bdk::bitcoin::Network::Testnet,
        Network::Mainnet => bdk::bitcoin::Network::Bitcoin,
        Network::Signet => bdk::bitcoin::Network::Signet,
    };
    let w = bdk::Wallet::new(recv, Some(chg), net, bdk::database::MemoryDatabase::default()).ok()?;
    let mut p = s.parse::<bdk::bitcoin::psbt::PartiallySignedTransaction>().ok()?;
    w.sign(&mut p, bdk::SignOptions::default()).ok()?;
    Some(p.to_string())
}

/// Relies on bitcoin's `Psbt::combine`: it rejects two PSBTs whose unsigned
/// transactions differ, merges deterministically otherwise, and keeps the
/// unsigned transaction of the receiver. The result parses back.
#[verifier::external_body]
pub(crate) fn psbt_combine(a: &str, b: &str) -> (r: Option<String>)
    ensures
        r is Some <==> combine_ok(a@, b@),
        is_valid_psbt(a@) && is_valid_psbt(b@) && psbt_tx(a@) != psbt_tx(b@) ==> r is None,
        r matches Some(t) ==> t@ == combined_psbt(a@, b@) && is_valid_psbt(t@) && psbt_tx(t@)
            == psbt_tx(a@),
{
    let mut pa = a.parse::<bdk::bitcoin::psbt::PartiallySignedTransaction>().ok()?;
    let pb = b.parse::<bdk::bitcoin::psbt::PartiallySignedTransaction>().ok()?;
    pa.combine(pb).ok()?;
    Some(pa.to_string())
}

/// Relies on rust_decimal's `Decimal::from_str` and `ToPrimitive::to_u64`:
/// both pure functions of the string.
#[verifier::external_body]
pub(crate) fn amount_to_sats(s: &str) -> (r: Option<u64>)
    ensures
        r == amount_sats(s@),
{
    let d = s.parse::<rust_decimal::Decimal>().ok()?;
    rust_decimal::prelude::ToPrimitive::to_u64(&d)
}

/// Relies on bitcoin's `Address::from_str`: acceptance depends on the
/// characters alone.
#[verifier::external_body]
pub(crate) fn address_ok(s: &str) -> (r: bool)
    ensures
        r == is_valid_address(s@),
{
    s.parse::<bdk::bitcoin::Address>().is_ok()
}

} // verus!
