use vstd::prelude::*;

use crate::errors::OhmError;
use crate::text::str_eq;

verus! {

/// The script-commitment scheme of a wallet.
///
/// On the wire and in the catalog these are the small-integer tags
/// 1 (`sh`), 2 (`wsh`) and 3 (`sh_wsh`).
#[derive(Clone, Copy, Debug, PartialEq, Eq, Structural)]
pub enum AddressType {
    P2sh,
    P2wsh,
    P2shwsh,
}

impl AddressType {
    /// The tag of this address type in the store schema and on the wire.
    pub open spec fn spec_tag(self) -> int {
        match self {
            AddressType::P2sh => 1,
            AddressType::P2wsh => 2,
            AddressType::P2shwsh => 3,
        }
    }

    pub fn tag(self) -> (r: i32)
        ensures
            r == self.spec_tag(),
    {
        match self {
            AddressType::P2sh => 1,
            AddressType::P2wsh => 2,
            AddressType::P2shwsh => 3,
        }
    }

    /// Which address types a tag denotes; tags outside 1..=3 denote none.
    pub open spec fn spec_from_tag(t: int) -> Option<AddressType> {
        if t == 1 {
            Some(AddressType::P2sh)
        } else if t == 2 {
            Some(AddressType::P2wsh)
        } else if t == 3 {
            Some(AddressType::P2shwsh)
        } else {
            None
        }
    }

    pub fn from_tag(t: i32) -> (r: Option<AddressType>)
        ensures
            r == AddressType::spec_from_tag(t as int),
    {
        if t == 1 {
            Some(AddressType::P2sh)
        } else if t == 2 {
            Some(AddressType::P2wsh)
        } else if t == 3 {
            Some(AddressType::P2shwsh)
        } else {
            None
        }
    }

    /// Which address types the command-line scheme names denote.
    pub open spec fn spec_from_name(s: Seq<char>) -> Option<AddressType> {
        if s == "sh"@ {
            Some(AddressType::P2sh)
        } else if s == "wsh"@ {
            Some(AddressType::P2wsh)
        } else if s == "sh_wsh"@ {
            Some(AddressType::P2shwsh)
        } else {
            None
        }
    }

    /// Reads a command-line scheme name; an unknown name is rejected.
    pub fn from_name(s: &str) -> (r: Result<AddressType, OhmError>)
        ensures
            r is Ok <==> AddressType::spec_from_name(s@) is Some,
            r == Err::<AddressType, OhmError>(OhmError::InvalidArgument) <==> AddressType::spec_from_name(s@) is None,
            r matches Ok(t) ==> AddressType::spec_from_name(s@) == Some(t),
    {
        if str_eq(s, "sh") {
            Ok(AddressType::P2sh)
        } else if str_eq(s, "wsh") {
            Ok(AddressType::P2wsh)
        } else if str_eq(s, "sh_wsh") {
            Ok(AddressType::P2shwsh)
        } else {
            Err(OhmError::InvalidArgument)
        }
    }
}

/// The Bitcoin network a wallet lives on.
///
/// Tags in the store schema and on the wire: Regtest=1, Testnet=2,
/// Mainnet=3, Signet=4.
#[derive(Clone, Copy, Debug, PartialEq, Eq, Structural)]
pub enum Network {
    Regtest,
    Testnet,
    Mainnet,
    Signet,
}

impl Network {
    pub open spec fn spec_tag(self) -> int {
        match self {
            Network::Regtest => 1,
            Network::Testnet => 2,
            Network::Mainnet => 3,
            Network::Signet => 4,
        }
    }

    pub fn tag(self) -> (r: i32)
        ensures
            r == self.spec_tag(),
    {
        match self {
            Network::Regtest => 1,
            Network::Testnet => 2,
            Network::Mainnet => 3,
            Network::Signet => 4,
        }
    }

    pub open spec fn spec_from_tag(t: int) -> Option<Network> {
        if t == 1 {
            Some(Network::Regtest)
        } else if t == 2 {
            Some(Network::Testnet)
        } else if t == 3 {
            Some(Network::Mainnet)
        } else if t == 4 {
            Some(Network::Signet)
        } else {
            None
        }
    }

    pub fn from_tag(t: i32) -> (r: Option<Network>)
        ensures
            r == Network::spec_from_tag(t as int),
    {
        if t == 1 {
            Some(Network::Regtest)
        } else if t == 2 {
            Some(Network::Testnet)
        } else if t == 3 {
            Some(Network::Mainnet)
        } else if t == 4 {
            Some(Network::Signet)
        } else {
            None
        }
    }
}

/// Whether a cosigner's key pair is owned by the service or by a person.
///
/// Tags in the store schema: Internal=1, External=2.
#[derive(Clone, Copy, Debug, PartialEq, Eq, Structural)]
pub enum CosignerType {
    /// Service-owned: the engine generated the key pair and keeps the xprv.
    Internal,
    /// Participant-owned: only the xpub is known to the engine.
    External,
}

impl CosignerType {
    pub open spec fn spec_tag(self) -> int {
        match self {
            CosignerType::Internal => 1,
            CosignerType::External => 2,
        }
    }

    pub fn tag(self) -> (r: i32)
        ensures
            r == self.spec_tag(),
    {
        match self {
            CosignerType::Internal => 1,
            CosignerType::External => 2,
        }
    }
}

} // verus!
