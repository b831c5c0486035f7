use vstd::prelude::*;
use vstd::string::StringExecFns;

use crate::cosigner::{cosigner_of_row, Cosigner};
use crate::errors::OhmError;
use crate::ident::{is_valid_email, is_valid_uuid, uuid_ok};
use crate::psbt::Psbt;
use crate::psbt_ops::{
    amount_sats, amount_to_sats, address_ok, combined_psbt, is_valid_address, is_valid_psbt,
    psbt_norm, psbt_tx, signed_psbt,
};
use crate::keys::is_valid_xpub;
use crate::store::{
    drop_cosigner, drop_psbt, filter_cosigners, filter_psbts, filter_wallets, has_cosigner,
    has_psbt, has_wallet, Store, StoreV, WalletRowV,
};
use crate::text::{dec_str, strs_view, u64_to_string};
use crate::types::{AddressType, CosignerType, Network};
use crate::wallet::{
    materialized_wallet, store_descriptors_substituted, wallet_new_slots, Wallet,
};
use crate::descriptor::{address_at, compose_watch, KeySlotV};

verus! {

/// The cosigner record a handler returns.
pub struct CosignerInfo {
    pub cosigner_id: String,
    pub email_address: String,
    pub xpub: String,
    pub wallet_id: Option<String>,
}

/// The wallet record a handler returns.
pub struct WalletInfo {
    pub wallet_id: String,
    pub required_sigs: u64,
    pub balance: String,
    pub descriptor: String,
    pub receive_address: String,
    pub network: i32,
}

/// The PSBT record a handler returns.
pub struct PsbtInfo {
    pub psbt_id: String,
    pub base64: String,
    pub wallet_id: String,
}

/// Validates the inputs of a payment request: the amount must read as a
/// non-negative count of satoshis and the recipient must be a Bitcoin
/// address. Building the transaction itself needs chain state and happens
/// at the caller.
pub fn validate_payment(amount: &str, recipient: &str) -> (r: Result<u64, OhmError>)
    ensures
        r == Err::<u64, OhmError>(OhmError::InvalidArgument) <==> (amount_sats(amount@) is None
            || !is_valid_address(recipient@)),
        r matches Ok(v) ==> amount_sats(amount@) == Some(v) && is_valid_address(recipient@),
{
    let sats = match amount_to_sats(amount) {
        Some(v) => v,
        None => {
            return Err(OhmError::InvalidArgument);
        },
    };
    if !address_ok(recipient) {
        return Err(OhmError::InvalidArgument);
    }
    Ok(sats)
}

/// The request-handler layer: validates inputs, drives the domain entities
/// against the catalog and shapes typed responses. It holds the catalog.
pub struct Servicer {
    store: Store,
}

impl View for Servicer {
    type V = StoreV;

    closed spec fn view(&self) -> StoreV {
        self.store@
    }
}

/// In a consistent catalog a saved cosigner holds an xprv exactly when it
/// is internal.
pub proof fn lemma_cosigner_key_partition(s: StoreV)
    requires
        s.wf(),
    ensures
        forall|i: int|
            0 <= i < s.cosigners.len() ==> ((#[trigger] s.cosigners[i]).kind
                == CosignerType::Internal <==> s.cosigners[i].xprv is Some),
{
}

/// In a consistent catalog every saved wallet has exactly one internal
/// cosigner bound to it.
pub proof fn lemma_one_internal_per_wallet(s: StoreV)
    requires
        s.wf(),
    ensures
        forall|i: int|
            0 <= i < s.wallets.len() ==> crate::store::exactly_one_internal(
                s.cosigners,
                (#[trigger] s.wallets[i]).uuid,
            ),
{
}

/// Address derivation is a function of the stored descriptors, the network
/// and the index alone: re-deriving at the same index always yields the
/// same address, in any process.
pub proof fn lemma_address_derivation_deterministic(
    w: WalletRowV,
    idx: int,
    a1: Seq<char>,
    a2: Seq<char>,
)
    requires
        a1 == address_at(w.receive_descriptor, w.change_descriptor, w.network.spec_tag(), idx),
        a2 == address_at(w.receive_descriptor, w.change_descriptor, w.network.spec_tag(), idx),
    ensures
        a1 == a2,
{
}

impl Servicer {
    /// A servicer over an empty catalog.
    pub fn new() -> (r: Servicer)
        ensures
            r@.wf(),
            r@.cosigners.len() == 0,
            r@.wallets.len() == 0,
            r@.psbts.len() == 0,
            store_descriptors_substituted(r@),
    {
        Servicer { store: Store::new() }
    }

    /// Registers an external cosigner from an email address and an xpub.
    pub fn register_cosigner(&mut self, email_address: &str, xpub: &str) -> (r: Result<
        CosignerInfo,
        OhmError,
    >)
        requires
            old(self)@.wf(),
        ensures
            final(self)@.wf(),
            final(self)@.wallets == old(self)@.wallets,
            final(self)@.psbts == old(self)@.psbts,
            store_descriptors_substituted(old(self)@) ==> store_descriptors_substituted(
                final(self)@,
            ),
            r == Err::<CosignerInfo, OhmError>(OhmError::InvalidArgument) <==> (!is_valid_email(
                email_address@,
            ) || !is_valid_xpub(xpub@)),
            is_valid_email(email_address@) && is_valid_xpub(xpub@) ==> (r is Ok || r == Err::<
                CosignerInfo,
                OhmError,
            >(OhmError::Internal)),
            r matches Err(_) ==> final(self)@ == old(self)@,
            r matches Ok(info) ==> {
                &&& info.email_address@ == email_address@
                &&& info.xpub@ == xpub@
                &&& info.wallet_id is None
                &&& is_valid_uuid(info.cosigner_id@)
                &&& final(self)@.cosigners == old(self)@.cosigners.push(
                    final(self)@.cosigners.last(),
                )
                &&& final(self)@.cosigners.len() == old(self)@.cosigners.len() + 1
                &&& {
                    let row = final(self)@.cosigners.last();
                    &&& row.uuid == info.cosigner_id@
                    &&& row.kind == CosignerType::External
                    &&& row.email_address == Some(email_address@)
                    &&& row.xpub == xpub@
                    &&& row.xprv is None
                    &&& row.wallet_uuid is None
                }
            },
    {
        let mut cosigner = match Cosigner::new(
            CosignerType::External,
            Some(email_address.to_owned()),
            Some(xpub.to_owned()),
            None,
        ) {
            Ok(c) => c,
            Err(e) => {
                return Err(e);
            },
        };
        match cosigner.save(&mut self.store) {
            Ok(_) => {},
            Err(_) => {
                return Err(OhmError::Internal);
            },
        }
        let cosigner_id = match cosigner.uuid() {
            Some(u) => u.to_owned(),
            None => {
                proof {
                    assert(false);
                }
                return Err(OhmError::Internal);
            },
        };
        Ok(
            CosignerInfo {
                cosigner_id,
                email_address: email_address.to_owned(),
                xpub: xpub.to_owned(),
                wallet_id: None,
            },
        )
    }

    /// The cosigner with the UUID, if any.
    pub fn get_cosigner(&self, cosigner_id: &str) -> (r: Result<Option<CosignerInfo>, OhmError>)
        requires
            self@.wf(),
        ensures
            r == Err::<Option<CosignerInfo>, OhmError>(OhmError::InvalidArgument) <==> !is_valid_uuid(
                cosigner_id@,
            ),
            is_valid_uuid(cosigner_id@) ==> (r matches Ok(o) && (o is Some <==> has_cosigner(
                self@.cosigners,
                cosigner_id@,
            ))),
            r matches Ok(o) ==> (o matches Some(info) ==> exists|i: int|
                {
                    &&& 0 <= i < self@.cosigners.len()
                    &&& (#[trigger] self@.cosigners[i]).uuid == cosigner_id@
                    &&& info.cosigner_id@ == self@.cosigners[i].uuid
                    &&& (match self@.cosigners[i].email_address {
                        Some(e) => info.email_address@ == e,
                        None => info.email_address@.len() == 0,
                    })
                    &&& info.xpub@ == self@.cosigners[i].xpub
                    &&& crate::store::opt_view(info.wallet_id) == self@.cosigners[i].wallet_uuid
                }),
    {
        if !uuid_ok(cosigner_id) {
            return Err(OhmError::InvalidArgument);
        }
        proof {
            crate::store::lemma_cosigner_uuid_filter(self@.cosigners, cosigner_id@);
        }
        let found = match Cosigner::from_db(&self.store, Some(cosigner_id)) {
            Ok(f) => f,
            Err(e) => {
                return Err(e);
            },
        };
        let c = match found {
            Some(c) => c,
            None => {
                return Ok(None);
            },
        };
        proof {
            let rows = filter_cosigners(self@.cosigners, Some(cosigner_id@), None, None, None);
            assert(self@.cosigners.contains(rows[0]));
            let i = choose|i: int|
                0 <= i < self@.cosigners.len() && self@.cosigners[i] == rows[0];
            assert(self@.cosigners[i].uuid == cosigner_id@);
        }
        Ok(Some(cosigner_info_of(&c)))
    }

    /// All cosigners matching the optional email and xpub filters. The
    /// filters themselves must parse.
    pub fn find_cosigner(&self, email_address: Option<&str>, xpub: Option<&str>) -> (r: Result<
        Vec<CosignerInfo>,
        OhmError,
    >)
        requires
            self@.wf(),
        ensures
            r == Err::<Vec<CosignerInfo>, OhmError>(OhmError::InvalidArgument) <==> ((
            crate::store::opt_str_view(email_address) matches Some(e) && !is_valid_email(e)) || (
            crate::store::opt_str_view(xpub) matches Some(x) && !is_valid_xpub(x))),
            r is Ok || r == Err::<Vec<CosignerInfo>, OhmError>(OhmError::InvalidArgument),
            r matches Ok(infos) ==> {
                let rows = filter_cosigners(
                    self@.cosigners,
                    None,
                    crate::store::opt_str_view(email_address),
                    crate::store::opt_str_view(xpub),
                    None,
                );
                &&& infos@.len() == rows.len()
                &&& forall|i: int|
                    0 <= i < rows.len() ==> {
                        &&& (#[trigger] infos@[i]).cosigner_id@ == rows[i].uuid
                        &&& infos@[i].xpub@ == rows[i].xpub
                        &&& crate::store::opt_view(infos@[i].wallet_id) == rows[i].wallet_uuid
                        &&& (match rows[i].email_address {
                            Some(e) => infos@[i].email_address@ == e,
                            None => infos@[i].email_address@.len() == 0,
                        })
                    }
            },
    {
        match email_address {
            Some(e) => {
                if !crate::ident::email_ok(e) {
                    return Err(OhmError::InvalidArgument);
                }
            },
            None => {},
        }
        match xpub {
            Some(x) => {
                if !crate::keys::xpub_ok(x) {
                    return Err(OhmError::InvalidArgument);
                }
            },
            None => {},
        }
        let found = match Cosigner::find(&self.store, None, email_address, xpub, None) {
            Ok(f) => f,
            Err(e) => {
                return Err(e);
            },
        };
        let ghost rows = filter_cosigners(
            self@.cosigners,
            None,
            crate::store::opt_str_view(email_address),
            crate::store::opt_str_view(xpub),
            None,
        );
        let n = found.len();
        let mut out: Vec<CosignerInfo> = Vec::new();
        let mut i: usize = 0;
        proof {
            assert(crate::cosigner::cosigners_view(found@).len() == found@.len());
            assert(crate::cosigner::cosigners_of_rows(rows).len() == rows.len());
        }
        while i < n
            invariant
                n == found@.len(),
                i <= n,
                n == rows.len(),
                crate::cosigner::cosigners_view(found@) == crate::cosigner::cosigners_of_rows(
                    rows,
                ),
                out@.len() == i,
                forall|a: int|
                    0 <= a < i ==> {
                        &&& (#[trigger] out@[a]).cosigner_id@ == rows[a].uuid
                        &&& out@[a].xpub@ == rows[a].xpub
                        &&& crate::store::opt_view(out@[a].wallet_id) == rows[a].wallet_uuid
                        &&& (match rows[a].email_address {
                            Some(e) => out@[a].email_address@ == e,
                            None => out@[a].email_address@.len() == 0,
                        })
                    },
            decreases n - i,
        {
            let c = &found[i];
            proof {
                assert(crate::cosigner::cosigners_view(found@)[i as int] == c@);
                assert(crate::cosigner::cosigners_of_rows(rows)[i as int] == cosigner_of_row(
                    rows[i as int],
                ));
            }
            out.push(cosigner_info_of(c));
            i += 1;
        }
        Ok(out)
    }

    /// Deletes an external cosigner by UUID. The internal key-holder of a
    /// wallet cannot be removed this way; it goes with its wallet.
    pub fn forget_cosigner(&mut self, cosigner_id: &str) -> (r: Result<String, OhmError>)
        requires
            old(self)@.wf(),
        ensures
            final(self)@.wf(),
            final(self)@.wallets == old(self)@.wallets,
            final(self)@.psbts == old(self)@.psbts,
            store_descriptors_substituted(old(self)@) ==> store_descriptors_substituted(
                final(self)@,
            ),
            r == Err::<String, OhmError>(OhmError::InvalidArgument) <==> (!is_valid_uuid(
                cosigner_id@,
            ) || (exists|i: int|
                0 <= i < old(self)@.cosigners.len() && (#[trigger] old(self)@.cosigners[i]).uuid
                    == cosigner_id@ && old(self)@.cosigners[i].wallet_uuid is Some)),
            is_valid_uuid(cosigner_id@) ==> (r == Err::<String, OhmError>(OhmError::NotFound)
                <==> !has_cosigner(old(self)@.cosigners, cosigner_id@)),
            r is Ok <==> (is_valid_uuid(cosigner_id@) && has_cosigner(
                old(self)@.cosigners,
                cosigner_id@,
            ) && (forall|i: int|
                0 <= i < old(self)@.cosigners.len() && (#[trigger] old(self)@.cosigners[i]).uuid
                    == cosigner_id@ ==> old(self)@.cosigners[i].wallet_uuid is None)),
            r matches Ok(u) ==> u@ == cosigner_id@ && final(self)@.cosigners == drop_cosigner(
                old(self)@.cosigners,
                cosigner_id@,
            ),
            r matches Err(_) ==> final(self)@ == old(self)@,
    {
        if !uuid_ok(cosigner_id) {
            return Err(OhmError::InvalidArgument);
        }
        proof {
            crate::store::lemma_cosigner_uuid_filter(self@.cosigners, cosigner_id@);
        }
        let found = match Cosigner::from_db(&self.store, Some(cosigner_id)) {
            Ok(f) => f,
            Err(e) => {
                return Err(e);
            },
        };
        let mut c = match found {
            Some(c) => c,
            None => {
                return Err(OhmError::NotFound);
            },
        };
        proof {
            let rows = filter_cosigners(self@.cosigners, Some(cosigner_id@), None, None, None);
            assert(self@.cosigners.contains(rows[0]));
        }
        match c.remove(&mut self.store) {
            Ok(_) => {},
            Err(e) => {
                return Err(e);
            },
        }
        Ok(cosigner_id.to_owned())
    }
}

/// Shapes a cosigner entity into its response record: absent email becomes
/// the empty string.
fn cosigner_info_of(c: &Cosigner) -> (r: CosignerInfo)
    ensures
        c@.uuid matches Some(u) ==> r.cosigner_id@ == u,
        (match c@.email_address {
            Some(e) => r.email_address@ == e,
            None => r.email_address@.len() == 0,
        }),
        r.xpub@ == c@.xpub,
        crate::store::opt_view(r.wallet_id) == c@.wallet,
{
    let cosigner_id = match c.uuid() {
        Some(u) => u.to_owned(),
        None => String::new(),
    };
    let email_address = match c.email_address() {
        Some(e) => e.clone(),
        None => String::new(),
    };
    CosignerInfo {
        cosigner_id,
        email_address,
        xpub: c.xpub().clone(),
        wallet_id: crate::store::clone_opt_string(c.wallet()),
    }
}

} // verus!

verus! {

/// Whether the address at a wallet row's current receive index can be
/// derived: the index is inside the descriptor library's range and the
/// derivation succeeds.
pub open spec fn row_renderable(row: WalletRowV) -> bool {
    row.receive_address_index < 0x8000_0000 && crate::descriptor::derivable(
        row.receive_descriptor,
        row.change_descriptor,
        row.network.spec_tag(),
        row.receive_address_index as int,
    )
}

/// Whether every wallet row of the list satisfies [`row_renderable`].
pub open spec fn all_rows_renderable(rows: Seq<WalletRowV>) -> bool {
    forall|i: int| 0 <= i < rows.len() ==> row_renderable(#[trigger] rows[i])
}

/// Whether a create-wallet request is rejected outright.
pub open spec fn create_wallet_invalid(
    address_type: int,
    network: int,
    required_sigs: u64,
    cosigner_ids: Seq<Seq<char>>,
) -> bool {
    ||| AddressType::spec_from_tag(address_type) is None
    ||| Network::spec_from_tag(network) is None
    ||| required_sigs < 1
    ||| cosigner_ids.len() == 0
    ||| (exists|i: int| 0 <= i < cosigner_ids.len() && !is_valid_uuid(#[trigger] cosigner_ids[i]))
    ||| required_sigs > cosigner_ids.len() + 1
}

impl Servicer {
    /// Creates and persists an M-of-N wallet over the given external
    /// cosigners, generating its internal key pair and composing its
    /// descriptors over the canonically ordered key set.
    #[verifier::loop_isolation(false)]
    pub fn create_wallet(
        &mut self,
        address_type: i32,
        network: i32,
        required_sigs: u64,
        cosigner_ids: Vec<String>,
    ) -> (r: Result<WalletInfo, OhmError>)
        requires
            old(self)@.wf(),
        ensures
            final(self)@.wf(),
            final(self)@.psbts == old(self)@.psbts,
            store_descriptors_substituted(old(self)@) ==> store_descriptors_substituted(
                final(self)@,
            ),
            r == Err::<WalletInfo, OhmError>(OhmError::InvalidArgument) <==> create_wallet_invalid(
                address_type as int,
                network as int,
                required_sigs,
                strs_view(cosigner_ids@),
            ),
            !create_wallet_invalid(
                address_type as int,
                network as int,
                required_sigs,
                strs_view(cosigner_ids@),
            ) ==> (r == Err::<WalletInfo, OhmError>(OhmError::NotFound) <==> exists|i: int|
                0 <= i < cosigner_ids@.len() && !has_cosigner(
                    old(self)@.cosigners,
                    #[trigger] strs_view(cosigner_ids@)[i],
                )),
            r matches Err(_) ==> final(self)@ == old(self)@,
            r matches Ok(info) ==> {
                &&& final(self)@.wallets == old(self)@.wallets.push(final(self)@.wallets.last())
                &&& final(self)@.wallets.len() == old(self)@.wallets.len() + 1
                &&& final(self)@.cosigners == old(self)@.cosigners.push(
                    final(self)@.cosigners.last(),
                )
                &&& {
                    let row = final(self)@.wallets.last();
                    let internal = final(self)@.cosigners.last();
                    &&& row.uuid == info.wallet_id@
                    &&& is_valid_uuid(row.uuid)
                    &&& !has_wallet(old(self)@.wallets, row.uuid)
                    &&& Some(row.address_type) == AddressType::spec_from_tag(address_type as int)
                    &&& Some(row.network) == Network::spec_from_tag(network as int)
                    &&& row.required_signatures == required_sigs
                    &&& row.balance == 0
                    &&& row.receive_address_index == 0
                    &&& row.change_address_index == 0
                    &&& internal.kind == CosignerType::Internal
                    &&& internal.wallet_uuid == Some(row.uuid)
                    &&& info.required_sigs == required_sigs
                    &&& info.balance@ == dec_str(0)
                    &&& info.descriptor@ == row.receive_descriptor_watch_only
                    &&& info.receive_address@ == address_at(
                        row.receive_descriptor,
                        row.change_descriptor,
                        row.network.spec_tag(),
                        0,
                    )
                    &&& exists|slots: Seq<KeySlotV>, c: crate::cosigner::CosignerV|
                        #![trigger wallet_new_slots(slots, c, strs_view(cosigner_ids@), old(self)@.cosigners)]
                        {
                            &&& wallet_new_slots(
                                slots,
                                c,
                                strs_view(cosigner_ids@),
                                old(self)@.cosigners,
                            )
                            &&& row.receive_descriptor_watch_only == compose_watch(
                                row.address_type,
                                required_sigs as int,
                                slots,
                                false,
                            )
                        }
                }
            },
    {
        let t = match AddressType::from_tag(address_type) {
            Some(t) => t,
            None => {
                return Err(OhmError::InvalidArgument);
            },
        };
        let net = match Network::from_tag(network) {
            Some(n) => n,
            None => {
                return Err(OhmError::InvalidArgument);
            },
        };
        if required_sigs < 1 {
            return Err(OhmError::InvalidArgument);
        }
        let n = cosigner_ids.len();
        let mut i: usize = 0;
        while i < n
            invariant
                n == cosigner_ids@.len(),
                i <= n,
                forall|a: int| 0 <= a < i ==> is_valid_uuid(#[trigger] strs_view(cosigner_ids@)[a]),
            decreases n - i,
        {
            if !uuid_ok(cosigner_ids[i].as_str()) {
                proof {
                    assert(!is_valid_uuid(strs_view(cosigner_ids@)[i as int]));
                }
                return Err(OhmError::InvalidArgument);
            }
            proof {
                assert(is_valid_uuid(strs_view(cosigner_ids@)[i as int]));
            }
            i += 1;
        }
        if n == 0 {
            return Err(OhmError::InvalidArgument);
        }
        if required_sigs - 1 > n as u64 {
            return Err(OhmError::InvalidArgument);
        }
        let mut wallet = match Wallet::new(&self.store, t, net, required_sigs, cosigner_ids) {
            Ok(w) => w,
            Err(e) => {
                return Err(e);
            },
        };
        let receive_address = match wallet.receive_address() {
            Ok(a) => a,
            Err(_) => {
                return Err(OhmError::Internal);
            },
        };
        match wallet.save(&mut self.store) {
            Ok(_) => {},
            Err(_) => {
                return Err(OhmError::Internal);
            },
        }
        let wallet_id = match wallet.uuid() {
            Some(u) => u.to_owned(),
            None => {
                proof {
                    assert(false);
                }
                return Err(OhmError::Internal);
            },
        };
        Ok(
            WalletInfo {
                wallet_id,
                required_sigs,
                balance: u64_to_string(0),
                descriptor: wallet.receive_descriptor().to_owned(),
                receive_address,
                network: wallet.network().tag(),
            },
        )
    }
}

} // verus!

verus! {

impl Servicer {
    /// The wallet with the UUID, if any, with its receive address derived
    /// at the current receive index.
    pub fn get_wallet(&self, wallet_id: &str) -> (r: Result<Option<WalletInfo>, OhmError>)
        requires
            self@.wf(),
        ensures
            r == Err::<Option<WalletInfo>, OhmError>(OhmError::InvalidArgument) <==> !is_valid_uuid(
                wallet_id@,
            ),
            is_valid_uuid(wallet_id@) && !has_wallet(self@.wallets, wallet_id@) ==> r == Ok::<
                Option<WalletInfo>,
                OhmError,
            >(None),
            is_valid_uuid(wallet_id@) && has_wallet(self@.wallets, wallet_id@) ==> ((r matches Ok(
                o,
            ) ==> o is Some) && (r is Ok || r == Err::<Option<WalletInfo>, OhmError>(
                OhmError::Internal,
            )) && exists|i: int|
                {
                    let row = #[trigger] self@.wallets[i];
                    &&& 0 <= i < self@.wallets.len()
                    &&& row.uuid == wallet_id@
                    &&& (r is Ok <==> (row.receive_address_index < 0x8000_0000
                        && crate::descriptor::derivable(
                        row.receive_descriptor,
                        row.change_descriptor,
                        row.network.spec_tag(),
                        row.receive_address_index as int,
                    )))
                }),
            r matches Ok(o) ==> (o matches Some(info) ==> exists|i: int|
                {
                    let row = #[trigger] self@.wallets[i];
                    &&& 0 <= i < self@.wallets.len()
                    &&& row.uuid == wallet_id@
                    &&& info.wallet_id@ == row.uuid
                    &&& info.required_sigs == row.required_signatures
                    &&& info.balance@ == dec_str(row.balance as int)
                    &&& info.descriptor@ == row.receive_descriptor_watch_only
                    &&& info.receive_address@ == address_at(
                        row.receive_descriptor,
                        row.change_descriptor,
                        row.network.spec_tag(),
                        row.receive_address_index as int,
                    )
                }),
    {
        if !uuid_ok(wallet_id) {
            return Err(OhmError::InvalidArgument);
        }
        proof {
            crate::store::lemma_wallet_uuid_filter(self@.wallets, wallet_id@);
        }
        let found = match Wallet::from_db(&self.store, Some(wallet_id)) {
            Ok(f) => f,
            Err(e) => {
                return Err(e);
            },
        };
        let w = match found {
            Some(w) => w,
            None => {
                return Ok(None);
            },
        };
        proof {
            let rows = filter_wallets(self@.wallets, Some(wallet_id@), None, None, None);
            assert(self@.wallets.contains(rows[0]));
            let i = choose|i: int| 0 <= i < self@.wallets.len() && self@.wallets[i] == rows[0];
        }
        match wallet_info_of(&w) {
            Ok(info) => Ok(Some(info)),
            Err(e) => Err(e),
        }
    }

    /// All wallets matching the optional scheme, network and watch-only
    /// receive-descriptor filters.
    #[verifier::loop_isolation(false)]
    #[verifier::rlimit(60)]
    pub fn find_wallet(
        &self,
        address_type: Option<i32>,
        network: Option<i32>,
        descriptor: Option<&str>,
    ) -> (r: Result<Vec<WalletInfo>, OhmError>)
        requires
            self@.wf(),
        ensures
            r == Err::<Vec<WalletInfo>, OhmError>(OhmError::InvalidArgument) <==> ((address_type
                matches Some(t) && AddressType::spec_from_tag(t as int) is None) || (network
                matches Some(t2) && Network::spec_from_tag(t2 as int) is None)),
            r is Ok || r == Err::<Vec<WalletInfo>, OhmError>(OhmError::InvalidArgument) || r
                == Err::<Vec<WalletInfo>, OhmError>(OhmError::Internal),
            !((address_type matches Some(t) && AddressType::spec_from_tag(t as int) is None) || (
            network matches Some(t2) && Network::spec_from_tag(t2 as int) is None)) ==> {
                let rows = filter_wallets(
                    self@.wallets,
                    None,
                    (match address_type {
                        Some(t) => AddressType::spec_from_tag(t as int),
                        None => None,
                    }),
                    (match network {
                        Some(t) => Network::spec_from_tag(t as int),
                        None => None,
                    }),
                    crate::store::opt_str_view(descriptor),
                );
                r is Ok <==> all_rows_renderable(rows)
            },
            r matches Ok(infos) ==> {
                let rows = filter_wallets(
                    self@.wallets,
                    None,
                    (match address_type {
                        Some(t) => AddressType::spec_from_tag(t as int),
                        None => None,
                    }),
                    (match network {
                        Some(t) => Network::spec_from_tag(t as int),
                        None => None,
                    }),
                    crate::store::opt_str_view(descriptor),
                );
                &&& infos@.len() == rows.len()
                &&& forall|i: int|
                    0 <= i < rows.len() ==> {
                        &&& (#[trigger] infos@[i]).wallet_id@ == rows[i].uuid
                        &&& infos@[i].required_sigs == rows[i].required_signatures
                        &&& infos@[i].balance@ == dec_str(rows[i].balance as int)
                        &&& infos@[i].descriptor@ == rows[i].receive_descriptor_watch_only
                    }
            },
    {
        let t_filter = match address_type {
            Some(t) => match AddressType::from_tag(t) {
                Some(t2) => Some(t2),
                None => {
                    return Err(OhmError::InvalidArgument);
                },
            },
            None => None,
        };
        let n_filter = match network {
            Some(t) => match Network::from_tag(t) {
                Some(n2) => Some(n2),
                None => {
                    return Err(OhmError::InvalidArgument);
                },
            },
            None => None,
        };
        let found = match Wallet::find(&self.store, None, t_filter, n_filter, descriptor) {
            Ok(f) => f,
            Err(e) => {
                return Err(e);
            },
        };
        let ghost rows = filter_wallets(
            self@.wallets,
            None,
            t_filter,
            n_filter,
            crate::store::opt_str_view(descriptor),
        );
        let n = found.len();
        let mut out: Vec<WalletInfo> = Vec::new();
        let mut i: usize = 0;
        proof {
            assert(crate::wallet::wallets_view(found@).len() == found@.len());
            assert(crate::wallet::materialize_all(rows, self@).len() == rows.len());
        }
        while i < n
            invariant
                self@.wf(),
                n == found@.len(),
                i <= n,
                n == rows.len(),
                crate::wallet::wallets_view(found@) == crate::wallet::materialize_all(
                    rows,
                    self@,
                ),
                out@.len() == i,
                forall|a: int|
                    0 <= a < i ==> {
                        &&& (#[trigger] out@[a]).wallet_id@ == rows[a].uuid
                        &&& out@[a].required_sigs == rows[a].required_signatures
                        &&& out@[a].balance@ == dec_str(rows[a].balance as int)
                        &&& out@[a].descriptor@ == rows[a].receive_descriptor_watch_only
                    },
                forall|a: int| 0 <= a < i ==> row_renderable(#[trigger] rows[a]),
            decreases n - i,
        {
            let w = &found[i];
            proof {
                assert(crate::wallet::wallets_view(found@)[i as int] == w@);
                assert(crate::wallet::materialize_all(rows, self@)[i as int]
                    == materialized_wallet(rows[i as int], self@));
            }
            let info = match wallet_info_of(w) {
                Ok(info) => info,
                Err(e) => {
                    proof {
                        assert(w@ == materialized_wallet(rows[i as int], self@));
                        assert(!row_renderable(rows[i as int]));
                        assert(!all_rows_renderable(rows));
                    }
                    return Err(e);
                },
            };
            out.push(info);
            i += 1;
        }
        proof {
            assert(all_rows_renderable(rows));
        }
        Ok(out)
    }

    /// Records a freshly observed confirmed balance for a wallet, as the
    /// chain front end reports it, and persists it on the wallet row.
    pub fn update_balance(&mut self, wallet_id: &str, balance: u64) -> (r: Result<(), OhmError>)
        requires
            old(self)@.wf(),
        ensures
            final(self)@.wf(),
            final(self)@.cosigners == old(self)@.cosigners,
            final(self)@.psbts == old(self)@.psbts,
            store_descriptors_substituted(old(self)@) ==> store_descriptors_substituted(
                final(self)@,
            ),
            r == Err::<(), OhmError>(OhmError::InvalidArgument) <==> !is_valid_uuid(wallet_id@),
            is_valid_uuid(wallet_id@) ==> (r == Err::<(), OhmError>(OhmError::NotFound) <==> !has_wallet(
                old(self)@.wallets,
                wallet_id@,
            )),
            r is Ok <==> (is_valid_uuid(wallet_id@) && has_wallet(
                old(self)@.wallets,
                wallet_id@,
            )),
            r matches Err(_) ==> final(self)@ == old(self)@,
            r is Ok ==> exists|i: int|
                {
                    let row = #[trigger] old(self)@.wallets[i];
                    &&& 0 <= i < old(self)@.wallets.len()
                    &&& row.uuid == wallet_id@
                    &&& final(self)@.wallets == old(self)@.wallets.update(
                        i,
                        final(self)@.wallets[i],
                    )
                    &&& final(self)@.wallets[i].balance == balance
                    &&& final(self)@.wallets[i].uuid == row.uuid
                    &&& final(self)@.wallets[i].address_type == row.address_type
                    &&& final(self)@.wallets[i].network == row.network
                    &&& final(self)@.wallets[i].receive_descriptor == row.receive_descriptor
                    &&& final(self)@.wallets[i].receive_descriptor_watch_only
                        == row.receive_descriptor_watch_only
                    &&& final(self)@.wallets[i].change_descriptor == row.change_descriptor
                    &&& final(self)@.wallets[i].change_descriptor_watch_only
                        == row.change_descriptor_watch_only
                    &&& final(self)@.wallets[i].required_signatures == row.required_signatures
                    &&& final(self)@.wallets[i].receive_address_index
                        == row.receive_address_index
                    &&& final(self)@.wallets[i].change_address_index == row.change_address_index
                },
    {
        if !uuid_ok(wallet_id) {
            return Err(OhmError::InvalidArgument);
        }
        proof {
            crate::store::lemma_wallet_uuid_filter(self@.wallets, wallet_id@);
        }
        let found = match Wallet::from_db(&self.store, Some(wallet_id)) {
            Ok(f) => f,
            Err(e) => {
                return Err(e);
            },
        };
        let mut w = match found {
            Some(w) => w,
            None => {
                return Err(OhmError::NotFound);
            },
        };
        proof {
            let rows = filter_wallets(self@.wallets, Some(wallet_id@), None, None, None);
            assert(self@.wallets.contains(rows[0]));
        }
        w.set_balance(balance);
        match w.save(&mut self.store) {
            Ok(_) => {},
            Err(_) => {
                proof {
                    assert(false);
                }
                return Err(OhmError::Internal);
            },
        }
        Ok(())
    }

    /// Deletes a wallet by UUID and cascades to its PSBTs and its internal
    /// cosigner. External cosigners stay. Afterwards nothing in the catalog
    /// references the wallet.
    pub fn forget_wallet(&mut self, wallet_id: &str) -> (r: Result<String, OhmError>)
        requires
            old(self)@.wf(),
        ensures
            final(self)@.wf(),
            store_descriptors_substituted(old(self)@) ==> store_descriptors_substituted(
                final(self)@,
            ),
            !is_valid_uuid(wallet_id@) ==> r == Err::<String, OhmError>(OhmError::InvalidArgument)
                && final(self)@ == old(self)@,
            is_valid_uuid(wallet_id@) ==> (r == Err::<String, OhmError>(OhmError::NotFound) <==> !has_wallet(
                old(self)@.wallets,
                wallet_id@,
            )),
            r is Ok <==> (is_valid_uuid(wallet_id@) && has_wallet(old(self)@.wallets, wallet_id@)),
            r matches Err(_) ==> final(self)@ == old(self)@,
            r matches Ok(u) ==> {
                &&& u@ == wallet_id@
                &&& final(self)@.cosigners == crate::store::drop_wallet_cosigners(
                    old(self)@.cosigners,
                    wallet_id@,
                )
                &&& final(self)@.psbts == crate::store::drop_wallet_psbts(
                    old(self)@.psbts,
                    wallet_id@,
                )
                &&& final(self)@.wallets == crate::store::drop_wallet(
                    old(self)@.wallets,
                    wallet_id@,
                )
                &&& forall|i: int|
                    0 <= i < final(self)@.cosigners.len() ==> (#[trigger] final(self)@.cosigners[i]).wallet_uuid != Some(wallet_id@)
                &&& forall|i: int|
                    0 <= i < final(self)@.psbts.len() ==> (#[trigger] final(self)@.psbts[i]).wallet_uuid != wallet_id@
                &&& forall|i: int|
                    0 <= i < final(self)@.wallets.len() ==> (#[trigger] final(self)@.wallets[i]).uuid != wallet_id@
            },
    {
        if !uuid_ok(wallet_id) {
            return Err(OhmError::InvalidArgument);
        }
        proof {
            crate::store::lemma_wallet_uuid_filter(self@.wallets, wallet_id@);
        }
        let found = match Wallet::from_db(&self.store, Some(wallet_id)) {
            Ok(f) => f,
            Err(e) => {
                return Err(e);
            },
        };
        let mut w = match found {
            Some(w) => w,
            None => {
                return Err(OhmError::NotFound);
            },
        };
        match w.remove(&mut self.store) {
            Ok(_) => {},
            Err(e) => {
                return Err(e);
            },
        }
        Ok(wallet_id.to_owned())
    }

    /// Increments a wallet's receive index, persists it and returns the
    /// address derived at the new index.
    pub fn get_new_receive_address(&mut self, wallet_id: &str) -> (r: Result<String, OhmError>)
        requires
            old(self)@.wf(),
        ensures
            final(self)@.wf(),
            final(self)@.cosigners == old(self)@.cosigners,
            final(self)@.psbts == old(self)@.psbts,
            store_descriptors_substituted(old(self)@) ==> store_descriptors_substituted(
                final(self)@,
            ),
            !is_valid_uuid(wallet_id@) ==> r == Err::<String, OhmError>(OhmError::InvalidArgument)
                && final(self)@ == old(self)@,
            is_valid_uuid(wallet_id@) ==> (r == Err::<String, OhmError>(OhmError::NotFound) <==> !has_wallet(
                old(self)@.wallets,
                wallet_id@,
            )),
            r matches Err(_) ==> final(self)@ == old(self)@,
            is_valid_uuid(wallet_id@) && has_wallet(old(self)@.wallets, wallet_id@) ==> exists|
                i: int,
            |
                {
                    let row = #[trigger] old(self)@.wallets[i];
                    &&& 0 <= i < old(self)@.wallets.len()
                    &&& row.uuid == wallet_id@
                    &&& (r is Ok <==> (row.receive_address_index < 0x7FFF_FFFF
                        && crate::descriptor::derivable(
                        row.receive_descriptor,
                        row.change_descriptor,
                        row.network.spec_tag(),
                        row.receive_address_index + 1,
                    )))
                },
            r matches Ok(a) ==> exists|i: int|
                {
                    let row = #[trigger] old(self)@.wallets[i];
                    &&& 0 <= i < old(self)@.wallets.len()
                    &&& row.uuid == wallet_id@
                    &&& final(self)@.wallets == old(self)@.wallets.update(
                        i,
                        final(self)@.wallets[i],
                    )
                    &&& final(self)@.wallets[i].receive_address_index
                        == row.receive_address_index + 1
                    &&& a@ == address_at(
                        row.receive_descriptor,
                        row.change_descriptor,
                        row.network.spec_tag(),
                        row.receive_address_index + 1,
                    )
                },
    {
        if !uuid_ok(wallet_id) {
            return Err(OhmError::InvalidArgument);
        }
        proof {
            crate::store::lemma_wallet_uuid_filter(self@.wallets, wallet_id@);
        }
        let found = match Wallet::from_db(&self.store, Some(wallet_id)) {
            Ok(f) => f,
            Err(e) => {
                return Err(e);
            },
        };
        let mut w = match found {
            Some(w) => w,
            None => {
                return Err(OhmError::NotFound);
            },
        };
        proof {
            let rows = filter_wallets(self@.wallets, Some(wallet_id@), None, None, None);
            assert(self@.wallets.contains(rows[0]));
        }
        if w.receive_address_index() >= 0x7FFF_FFFFu64 {
            return Err(OhmError::Internal);
        }
        let address = match w.new_receive_address() {
            Ok(a) => a,
            Err(e) => {
                return Err(e);
            },
        };
        match w.save(&mut self.store) {
            Ok(_) => {},
            Err(_) => {
                proof {
                    assert(false);
                }
                return Err(OhmError::Internal);
            },
        }
        Ok(address)
    }
}

/// Shapes a wallet entity into its response record: the stored balance in
/// decimal and the receive address at the current index.
fn wallet_info_of(w: &Wallet) -> (r: Result<WalletInfo, OhmError>)
    ensures
        r matches Err(e) ==> e == OhmError::Internal,
        r is Ok <==> (w@.receive_address_index < 0x8000_0000 && crate::descriptor::derivable(
            w@.descriptors.receive_descriptor,
            w@.descriptors.change_descriptor,
            w@.network.spec_tag(),
            w@.receive_address_index as int,
        )),
        r matches Ok(info) ==> {
            &&& (w@.uuid matches Some(u) ==> info.wallet_id@ == u)
            &&& info.required_sigs == w@.required_signatures
            &&& info.balance@ == dec_str(w@.balance as int)
            &&& info.descriptor@ == w@.descriptors.receive_descriptor_watch_only
            &&& info.network == w@.network.spec_tag()
            &&& info.receive_address@ == address_at(
                w@.descriptors.receive_descriptor,
                w@.descriptors.change_descriptor,
                w@.network.spec_tag(),
                w@.receive_address_index as int,
            )
        },
{
    if w.receive_address_index() >= 0x8000_0000u64 {
        return Err(OhmError::Internal);
    }
    let receive_address = match w.receive_address() {
        Ok(a) => a,
        Err(e) => {
            return Err(e);
        },
    };
    let wallet_id = match w.uuid() {
        Some(u) => u.to_owned(),
        None => String::new(),
    };
    Ok(
        WalletInfo {
            wallet_id,
            required_sigs: w.required_signatures(),
            balance: u64_to_string(w.balance()),
            descriptor: w.receive_descriptor().to_owned(),
            receive_address,
            network: w.network().tag(),
        },
    )
}

} // verus!

verus! {

impl Servicer {
    /// Imports an externally produced PSBT into a wallet.
    pub fn register_psbt(&mut self, wallet_id: &str, base64: &str) -> (r: Result<
        PsbtInfo,
        OhmError,
    >)
        requires
            old(self)@.wf(),
        ensures
            final(self)@.wf(),
            final(self)@.wallets == old(self)@.wallets,
            final(self)@.cosigners == old(self)@.cosigners,
            store_descriptors_substituted(old(self)@) ==> store_descriptors_substituted(
                final(self)@,
            ),
            !is_valid_uuid(wallet_id@) ==> r == Err::<PsbtInfo, OhmError>(
                OhmError::InvalidArgument,
            ) && final(self)@ == old(self)@,
            is_valid_uuid(wallet_id@) ==> (r == Err::<PsbtInfo, OhmError>(OhmError::NotFound)
                <==> !has_wallet(old(self)@.wallets, wallet_id@)),
            is_valid_uuid(wallet_id@) && has_wallet(old(self)@.wallets, wallet_id@) ==> (r
                == Err::<PsbtInfo, OhmError>(OhmError::InvalidArgument) <==> !is_valid_psbt(
                base64@,
            )),
            r matches Err(_) ==> final(self)@ == old(self)@,
            r matches Ok(info) ==> {
                &&& final(self)@.psbts == old(self)@.psbts.push(final(self)@.psbts.last())
                &&& final(self)@.psbts.len() == old(self)@.psbts.len() + 1
                &&& {
                    let row = final(self)@.psbts.last();
                    &&& row.uuid == info.psbt_id@
                    &&& is_valid_uuid(row.uuid)
                    &&& row.base64 == psbt_norm(base64@)
                    &&& row.wallet_uuid == wallet_id@
                    &&& info.base64@ == row.base64
                    &&& info.wallet_id@ == wallet_id@
                }
            },
    {
        if !uuid_ok(wallet_id) {
            return Err(OhmError::InvalidArgument);
        }
        proof {
            crate::store::lemma_wallet_uuid_filter(self@.wallets, wallet_id@);
        }
        let found = match Wallet::from_db(&self.store, Some(wallet_id)) {
            Ok(f) => f,
            Err(e) => {
                return Err(e);
            },
        };
        let mut w = match found {
            Some(w) => w,
            None => {
                return Err(OhmError::NotFound);
            },
        };
        proof {
            let rows = filter_wallets(self@.wallets, Some(wallet_id@), None, None, None);
            assert(self@.wallets.contains(rows[0]));
        }
        let p = match w.import_psbt(&mut self.store, base64) {
            Ok(p) => p,
            Err(e) => {
                return Err(e);
            },
        };
        Ok(psbt_info_of(&p))
    }

    /// The PSBT with the UUID, if any.
    pub fn get_psbt(&self, psbt_id: &str) -> (r: Result<Option<PsbtInfo>, OhmError>)
        requires
            self@.wf(),
        ensures
            r == Err::<Option<PsbtInfo>, OhmError>(OhmError::InvalidArgument) <==> !is_valid_uuid(
                psbt_id@,
            ),
            is_valid_uuid(psbt_id@) ==> (r matches Ok(o) && (o is Some <==> has_psbt(
                self@.psbts,
                psbt_id@,
            ))),
            r matches Ok(o) ==> (o matches Some(info) ==> exists|i: int|
                {
                    let row = #[trigger] self@.psbts[i];
                    &&& 0 <= i < self@.psbts.len()
                    &&& row.uuid == psbt_id@
                    &&& info.psbt_id@ == row.uuid
                    &&& info.base64@ == row.base64
                    &&& info.wallet_id@ == row.wallet_uuid
                }),
    {
        if !uuid_ok(psbt_id) {
            return Err(OhmError::InvalidArgument);
        }
        proof {
            crate::store::lemma_psbt_uuid_filter(self@.psbts, psbt_id@);
        }
        let found = match Psbt::from_db(&self.store, Some(psbt_id)) {
            Ok(f) => f,
            Err(e) => {
                return Err(e);
            },
        };
        let p = match found {
            Some(p) => p,
            None => {
                return Ok(None);
            },
        };
        proof {
            let rows = filter_psbts(self@.psbts, Some(psbt_id@), None);
            assert(self@.psbts.contains(rows[0]));
            let i = choose|i: int| 0 <= i < self@.psbts.len() && self@.psbts[i] == rows[0];
        }
        Ok(Some(psbt_info_of(&p)))
    }

    /// All PSBTs of a wallet.
    pub fn find_psbt(&self, wallet_id: &str) -> (r: Result<Vec<PsbtInfo>, OhmError>)
        requires
            self@.wf(),
        ensures
            r == Err::<Vec<PsbtInfo>, OhmError>(OhmError::InvalidArgument) <==> !is_valid_uuid(
                wallet_id@,
            ),
            r is Ok <==> is_valid_uuid(wallet_id@),
            r matches Ok(infos) ==> {
                let rows = filter_psbts(self@.psbts, None, Some(wallet_id@));
                &&& infos@.len() == rows.len()
                &&& forall|i: int|
                    0 <= i < rows.len() ==> {
                        &&& (#[trigger] infos@[i]).psbt_id@ == rows[i].uuid
                        &&& infos@[i].base64@ == rows[i].base64
                        &&& infos@[i].wallet_id@ == rows[i].wallet_uuid
                    }
            },
    {
        if !uuid_ok(wallet_id) {
            return Err(OhmError::InvalidArgument);
        }
        let found = match Psbt::find(&self.store, None, Some(wallet_id)) {
            Ok(f) => f,
            Err(e) => {
                return Err(e);
            },
        };
        let ghost rows = filter_psbts(self@.psbts, None, Some(wallet_id@));
        let n = found.len();
        let mut out: Vec<PsbtInfo> = Vec::new();
        let mut i: usize = 0;
        proof {
            assert(crate::psbt::psbts_view(found@).len() == found@.len());
            assert(crate::psbt::psbts_of_rows(rows).len() == rows.len());
        }
        while i < n
            invariant
                n == found@.len(),
                i <= n,
                n == rows.len(),
                crate::psbt::psbts_view(found@) == crate::psbt::psbts_of_rows(rows),
                out@.len() == i,
                forall|a: int|
                    0 <= a < i ==> {
                        &&& (#[trigger] out@[a]).psbt_id@ == rows[a].uuid
                        &&& out@[a].base64@ == rows[a].base64
                        &&& out@[a].wallet_id@ == rows[a].wallet_uuid
                    },
            decreases n - i,
        {
            let p = &found[i];
            proof {
                assert(crate::psbt::psbts_view(found@)[i as int] == p@);
                assert(crate::psbt::psbts_of_rows(rows)[i as int] == crate::psbt::psbt_of_row(
                    rows[i as int],
                ));
            }
            out.push(psbt_info_of(p));
            i += 1;
        }
        Ok(out)
    }

    /// Applies the owning wallet's signatures to a stored PSBT and persists
    /// the result. Signing is deterministic: repeating it reproduces the
    /// same base64.
    pub fn sign_psbt(&mut self, psbt_id: &str) -> (r: Result<PsbtInfo, OhmError>)
        requires
            old(self)@.wf(),
        ensures
            final(self)@.wf(),
            final(self)@.wallets == old(self)@.wallets,
            final(self)@.cosigners == old(self)@.cosigners,
            store_descriptors_substituted(old(self)@) ==> store_descriptors_substituted(
                final(self)@,
            ),
            !is_valid_uuid(psbt_id@) ==> r == Err::<PsbtInfo, OhmError>(OhmError::InvalidArgument)
                && final(self)@ == old(self)@,
            is_valid_uuid(psbt_id@) ==> (r == Err::<PsbtInfo, OhmError>(OhmError::NotFound) <==> !has_psbt(
                old(self)@.psbts,
                psbt_id@,
            )),
            r matches Err(_) ==> final(self)@ == old(self)@,
            is_valid_uuid(psbt_id@) && has_psbt(old(self)@.psbts, psbt_id@) ==> exists|
                i: int,
                j: int,
            |
                {
                    let p = #[trigger] old(self)@.psbts[i];
                    let w = #[trigger] old(self)@.wallets[j];
                    &&& 0 <= i < old(self)@.psbts.len()
                    &&& 0 <= j < old(self)@.wallets.len()
                    &&& p.uuid == psbt_id@
                    &&& w.uuid == p.wallet_uuid
                    &&& (r is Ok <==> crate::psbt_ops::sign_ok(
                        w.receive_descriptor,
                        w.change_descriptor,
                        w.network.spec_tag(),
                        p.base64,
                    ))
                },
            r matches Ok(info) ==> {
                &&& info.psbt_id@ == psbt_id@
                &&& exists|i: int, j: int|
                    {
                        let p = #[trigger] old(self)@.psbts[i];
                        let w = #[trigger] old(self)@.wallets[j];
                        &&& 0 <= i < old(self)@.psbts.len()
                        &&& 0 <= j < old(self)@.wallets.len()
                        &&& p.uuid == psbt_id@
                        &&& w.uuid == p.wallet_uuid
                        &&& info.base64@ == signed_psbt(
                            w.receive_descriptor,
                            w.change_descriptor,
                            w.network.spec_tag(),
                            p.base64,
                        )
                        &&& signed_psbt(
                            w.receive_descriptor,
                            w.change_descriptor,
                            w.network.spec_tag(),
                            info.base64@,
                        ) == info.base64@
                        &&& crate::psbt_ops::sign_ok(
                            w.receive_descriptor,
                            w.change_descriptor,
                            w.network.spec_tag(),
                            info.base64@,
                        )
                        &&& psbt_tx(info.base64@) == psbt_tx(p.base64)
                        &&& final(self)@.psbts == old(self)@.psbts.update(
                            i,
                            final(self)@.psbts[i],
                        )
                        &&& final(self)@.psbts[i].base64 == info.base64@
                        &&& final(self)@.psbts[i].uuid == psbt_id@
                        &&& final(self)@.psbts[i].wallet_uuid == p.wallet_uuid
                    }
                &&& exists|i: int|
                    0 <= i < final(self)@.psbts.len() && (#[trigger] final(self)@.psbts[i]).uuid
                        == psbt_id@ && final(self)@.psbts[i].base64 == info.base64@
            },
    {
        if !uuid_ok(psbt_id) {
            return Err(OhmError::InvalidArgument);
        }
        proof {
            crate::store::lemma_psbt_uuid_filter(self@.psbts, psbt_id@);
        }
        let found = match Psbt::from_db(&self.store, Some(psbt_id)) {
            Ok(f) => f,
            Err(e) => {
                return Err(e);
            },
        };
        let mut p = match found {
            Some(p) => p,
            None => {
                return Err(OhmError::NotFound);
            },
        };
        let ghost prow = filter_psbts(self@.psbts, Some(psbt_id@), None)[0];
        proof {
            assert(self@.psbts.contains(prow));
        }
        let wi = match self.store.wallet_index(p.wallet().as_str()) {
            Some(i) => i,
            None => {
                proof {
                    let pi = choose|pi: int|
                        0 <= pi < self@.psbts.len() && self@.psbts[pi] == prow;
                    assert(has_wallet(self@.wallets, self@.psbts[pi].wallet_uuid));
                    assert(false);
                }
                return Err(OhmError::NotFound);
            },
        };
        let wrow = self.store.wallet_at(wi);
        let signed = match crate::psbt_ops::psbt_sign(
            wrow.receive_descriptor.as_str(),
            wrow.change_descriptor.as_str(),
            wrow.network,
            p.base64().as_str(),
        ) {
            Some(x) => x,
            None => {
                return Err(OhmError::Internal);
            },
        };
        p.set_base64(signed);
        let ghost before = self@;
        match p.save(&mut self.store) {
            Ok(_) => {},
            Err(_) => {
                proof {
                    assert(false);
                }
                return Err(OhmError::Internal);
            },
        }
        proof {
            let pi = choose|pi: int| 0 <= pi < before.psbts.len() && before.psbts[pi] == prow;
            let j = choose|j: int|
                0 <= j < before.psbts.len() && (#[trigger] before.psbts[j]).uuid == psbt_id@
                    && self@.psbts == before.psbts.update(j, self@.psbts[j]);
            assert(j == pi);
            assert(before.wallets[wi as int].uuid == prow.wallet_uuid);
        }
        Ok(psbt_info_of(&p))
    }

    /// Merges another PSBT into a stored one and persists the result. The
    /// two must carry the same unsigned transaction.
    pub fn combine_with_other_psbt(&mut self, psbt_id: &str, base64: &str) -> (r: Result<
        PsbtInfo,
        OhmError,
    >)
        requires
            old(self)@.wf(),
        ensures
            final(self)@.wf(),
            final(self)@.wallets == old(self)@.wallets,
            final(self)@.cosigners == old(self)@.cosigners,
            store_descriptors_substituted(old(self)@) ==> store_descriptors_substituted(
                final(self)@,
            ),
            !is_valid_uuid(psbt_id@) ==> r == Err::<PsbtInfo, OhmError>(OhmError::InvalidArgument)
                && final(self)@ == old(self)@,
            is_valid_uuid(psbt_id@) ==> (r == Err::<PsbtInfo, OhmError>(OhmError::NotFound) <==> !has_psbt(
                old(self)@.psbts,
                psbt_id@,
            )),
            (is_valid_uuid(psbt_id@) && is_valid_psbt(base64@) && (exists|i: int|
                0 <= i < old(self)@.psbts.len() && (#[trigger] old(self)@.psbts[i]).uuid
                    == psbt_id@) && (forall|i: int|
                0 <= i < old(self)@.psbts.len() && (#[trigger] old(self)@.psbts[i]).uuid
                    == psbt_id@ ==> is_valid_psbt(old(self)@.psbts[i].base64) && psbt_tx(
                    old(self)@.psbts[i].base64,
                ) != psbt_tx(base64@))) ==> r == Err::<PsbtInfo, OhmError>(OhmError::Incompatible),
            is_valid_uuid(psbt_id@) && has_psbt(old(self)@.psbts, psbt_id@) ==> exists|i: int|
                {
                    let p = #[trigger] old(self)@.psbts[i];
                    &&& 0 <= i < old(self)@.psbts.len()
                    &&& p.uuid == psbt_id@
                    &&& (r is Ok <==> crate::psbt_ops::combine_ok(p.base64, base64@))
                },
            r matches Err(_) ==> final(self)@ == old(self)@,
            r matches Ok(info) ==> {
                &&& info.psbt_id@ == psbt_id@
                &&& exists|i: int|
                    {
                        let p = #[trigger] old(self)@.psbts[i];
                        &&& 0 <= i < old(self)@.psbts.len()
                        &&& p.uuid == psbt_id@
                        &&& info.base64@ == combined_psbt(p.base64, base64@)
                        &&& psbt_tx(info.base64@) == psbt_tx(p.base64)
                        &&& final(self)@.psbts == old(self)@.psbts.update(
                            i,
                            final(self)@.psbts[i],
                        )
                        &&& final(self)@.psbts[i].base64 == info.base64@
                        &&& final(self)@.psbts[i].uuid == psbt_id@
                    }
                &&& exists|i: int|
                    0 <= i < final(self)@.psbts.len() && (#[trigger] final(self)@.psbts[i]).uuid
                        == psbt_id@ && final(self)@.psbts[i].base64 == info.base64@
            },
    {
        if !uuid_ok(psbt_id) {
            return Err(OhmError::InvalidArgument);
        }
        proof {
            crate::store::lemma_psbt_uuid_filter(self@.psbts, psbt_id@);
        }
        let found = match Psbt::from_db(&self.store, Some(psbt_id)) {
            Ok(f) => f,
            Err(e) => {
                return Err(e);
            },
        };
        let mut p = match found {
            Some(p) => p,
            None => {
                return Err(OhmError::NotFound);
            },
        };
        let ghost prow = filter_psbts(self@.psbts, Some(psbt_id@), None)[0];
        proof {
            assert(self@.psbts.contains(prow));
        }
        let combined = match crate::psbt_ops::psbt_combine(p.base64().as_str(), base64) {
            Some(x) => x,
            None => {
                return Err(OhmError::Incompatible);
            },
        };
        p.set_base64(combined);
        let ghost before = self@;
        proof {
            let pi = choose|pi: int| 0 <= pi < self@.psbts.len() && self@.psbts[pi] == prow;
            assert(has_wallet(self@.wallets, self@.psbts[pi].wallet_uuid));
        }
        match p.save(&mut self.store) {
            Ok(_) => {},
            Err(_) => {
                proof {
                    assert(false);
                }
                return Err(OhmError::Internal);
            },
        }
        proof {
            let pi = choose|pi: int| 0 <= pi < before.psbts.len() && before.psbts[pi] == prow;
            let j = choose|j: int|
                0 <= j < before.psbts.len() && (#[trigger] before.psbts[j]).uuid == psbt_id@
                    && self@.psbts == before.psbts.update(j, self@.psbts[j]);
            assert(j == pi);
        }
        Ok(psbt_info_of(&p))
    }

    /// Deletes a PSBT by UUID.
    pub fn forget_psbt(&mut self, psbt_id: &str) -> (r: Result<String, OhmError>)
        requires
            old(self)@.wf(),
        ensures
            final(self)@.wf(),
            final(self)@.wallets == old(self)@.wallets,
            final(self)@.cosigners == old(self)@.cosigners,
            store_descriptors_substituted(old(self)@) ==> store_descriptors_substituted(
                final(self)@,
            ),
            !is_valid_uuid(psbt_id@) ==> r == Err::<String, OhmError>(OhmError::InvalidArgument)
                && final(self)@ == old(self)@,
            is_valid_uuid(psbt_id@) ==> (r == Err::<String, OhmError>(OhmError::NotFound) <==> !has_psbt(
                old(self)@.psbts,
                psbt_id@,
            )),
            r is Ok <==> (is_valid_uuid(psbt_id@) && has_psbt(old(self)@.psbts, psbt_id@)),
            r matches Err(_) ==> final(self)@ == old(self)@,
            r matches Ok(u) ==> u@ == psbt_id@ && final(self)@.psbts == drop_psbt(
                old(self)@.psbts,
                psbt_id@,
            ),
    {
        if !uuid_ok(psbt_id) {
            return Err(OhmError::InvalidArgument);
        }
        proof {
            crate::store::lemma_psbt_uuid_filter(self@.psbts, psbt_id@);
        }
        let found = match Psbt::from_db(&self.store, Some(psbt_id)) {
            Ok(f) => f,
            Err(e) => {
                return Err(e);
            },
        };
        let mut p = match found {
            Some(p) => p,
            None => {
                return Err(OhmError::NotFound);
            },
        };
        proof {
            let rows = filter_psbts(self@.psbts, Some(psbt_id@), None);
            assert(rows[0].uuid == psbt_id@);
        }
        match p.remove(&mut self.store) {
            Ok(_) => {},
            Err(e) => {
                return Err(e);
            },
        }
        Ok(psbt_id.to_owned())
    }
}

/// Shapes a PSBT entity into its response record.
fn psbt_info_of(p: &Psbt) -> (r: PsbtInfo)
    ensures
        p@.uuid matches Some(u) ==> r.psbt_id@ == u,
        r.base64@ == p@.base64,
        r.wallet_id@ == p@.wallet,
{
    let psbt_id = match p.uuid() {
        Some(u) => u.to_owned(),
        None => String::new(),
    };
    PsbtInfo { psbt_id, base64: p.base64(), wallet_id: p.wallet().clone() }
}

} // verus!
