//! Core engine of a collaborative M-of-N Bitcoin wallet coordination
//! service: cosigner registration, deterministic multisig descriptor
//! composition, a relational catalog of cosigners, wallets and PSBTs with
//! referential integrity, and the PSBT sign/combine lifecycle.

pub mod config;
pub mod cosigner;
pub mod descriptor;
pub mod errors;
mod ident;
mod keys;
pub mod psbt;
mod psbt_ops;
pub mod service;
pub mod store;
pub mod text;
pub mod types;
pub mod wallet;

pub use config::Config;
pub use cosigner::Cosigner;
pub use errors::OhmError;
pub use psbt::Psbt;
pub use service::{CosignerInfo, PsbtInfo, Servicer, WalletInfo};
pub use types::{AddressType, CosignerType, Network};
pub use wallet::{Wallet, WalletDescriptors};
