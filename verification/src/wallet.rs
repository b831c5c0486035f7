use vstd::prelude::*;

use crate::cosigner::{Cosigner, CosignerV};
use crate::descriptor::{
    address_at, compose_descriptor, compose_full, compose_watch, descriptor_compiles,
    descriptor_ok, duplicate_slots, keys_substituted, lemma_compose_substitution, peek_address,
    render_desc, slots_view, KeySlot, KeySlotV,
};
use crate::errors::OhmError;
use crate::ident::{is_valid_uuid, new_uuid, now_ts};
use crate::keys::xpub_of;
use crate::psbt::{psbts_of_rows, psbts_view, Psbt};
use crate::psbt_ops::{
    combined_psbt, is_valid_psbt, psbt_norm, psbt_sign, psbt_tx, signed_psbt,
};
use crate::store::{
    filter_cosigners, filter_psbts, filter_wallets, has_cosigner, has_wallet, opt_str_view,
    opt_view, wallet_rows_view, CosignerRow, CosignerRowV, Store, StoreV, WalletRow, WalletRowV,
};
use crate::text::{str_eq, strs_view};
use crate::types::{AddressType, CosignerType, Network};

verus! {

/// The four descriptor renderings of a wallet: the receive and change
/// branches, each in full (xprv embedded) and watch-only form.
pub struct WalletDescriptors {
    pub receive_descriptor: String,
    pub receive_descriptor_watch_only: String,
    pub change_descriptor: String,
    pub change_descriptor_watch_only: String,
}

/// The mathematical value of a [`WalletDescriptors`].
pub struct WalletDescriptorsV {
    pub receive_descriptor: Seq<char>,
    pub receive_descriptor_watch_only: Seq<char>,
    pub change_descriptor: Seq<char>,
    pub change_descriptor_watch_only: Seq<char>,
}

impl View for WalletDescriptors {
    type V = WalletDescriptorsV;

    open spec fn view(&self) -> WalletDescriptorsV {
        WalletDescriptorsV {
            receive_descriptor: self.receive_descriptor@,
            receive_descriptor_watch_only: self.receive_descriptor_watch_only@,
            change_descriptor: self.change_descriptor@,
            change_descriptor_watch_only: self.change_descriptor_watch_only@,
        }
    }
}

/// A full rendering and its watch-only projection come from one scheme,
/// threshold and ordered key list, with the service xprv replaced key by
/// key with its xpub.
pub open spec fn watch_only_pair(full: Seq<char>, watch: Seq<char>) -> bool {
    exists|
        t: AddressType,
        m: int,
        fk: Seq<Seq<char>>,
        wk: Seq<Seq<char>>,
        xprv: Seq<char>,
        change: bool,
    |
        #![trigger render_desc(t, m, fk, change), keys_substituted(fk, wk, xprv)]
        full == render_desc(t, m, fk, change) && watch == render_desc(t, m, wk, change)
            && keys_substituted(fk, wk, xprv)
}

/// Both branches of a wallet's descriptors satisfy [`watch_only_pair`].
pub open spec fn descriptors_substituted(d: WalletDescriptorsV) -> bool {
    &&& watch_only_pair(d.receive_descriptor, d.receive_descriptor_watch_only)
    &&& watch_only_pair(d.change_descriptor, d.change_descriptor_watch_only)
}

/// Every wallet row of the catalog carries substituted watch-only
/// descriptors.
pub open spec fn store_descriptors_substituted(s: StoreV) -> bool {
    forall|i: int|
        0 <= i < s.wallets.len() ==> {
            let w = #[trigger] s.wallets[i];
            watch_only_pair(w.receive_descriptor, w.receive_descriptor_watch_only)
                && watch_only_pair(w.change_descriptor, w.change_descriptor_watch_only)
        }
}

/// An M-of-N multisig descriptor wallet with its service-owned internal
/// cosigner, derivation indices and in-memory PSBT cache.
pub struct Wallet {
    uuid: Option<String>,
    address_type: AddressType,
    network: Network,
    required_signatures: u64,
    descriptors: WalletDescriptors,
    receive_address_index: u64,
    change_address_index: u64,
    balance: u64,
    partially_signed_txs: Vec<Psbt>,
    internal_cosigner: Cosigner,
}

/// The mathematical value of a [`Wallet`].
pub struct WalletV {
    pub uuid: Option<Seq<char>>,
    pub address_type: AddressType,
    pub network: Network,
    pub required_signatures: u64,
    pub descriptors: WalletDescriptorsV,
    pub receive_address_index: u64,
    pub change_address_index: u64,
    pub balance: u64,
    pub partially_signed_txs: Seq<crate::psbt::PsbtV>,
    pub internal_cosigner: CosignerV,
}

impl View for Wallet {
    type V = WalletV;

    closed spec fn view(&self) -> WalletV {
        WalletV {
            uuid: opt_view(self.uuid),
            address_type: self.address_type,
            network: self.network,
            required_signatures: self.required_signatures,
            descriptors: self.descriptors@,
            receive_address_index: self.receive_address_index,
            change_address_index: self.change_address_index,
            balance: self.balance,
            partially_signed_txs: psbts_view(self.partially_signed_txs@),
            internal_cosigner: self.internal_cosigner@,
        }
    }
}

impl WalletV {
    /// The wallet's internal invariant: a threshold of at least one, an
    /// internal cosigner that owns an xprv, and a wallet linkage that is
    /// bound exactly when the wallet itself has been saved.
    pub open spec fn wf(self) -> bool {
        &&& self.required_signatures >= 1
        &&& self.internal_cosigner.wf()
        &&& self.internal_cosigner.kind == CosignerType::Internal
        &&& (self.uuid is None ==> self.internal_cosigner.wallet is None)
        &&& (self.uuid is Some ==> self.internal_cosigner.wallet == self.uuid
            && self.internal_cosigner.uuid is Some)
    }
}

/// The key slots a new wallet is composed from: the internal key pair in
/// front, then the xpub of each requested external cosigner, in request
/// order. Composition sorts them canonically afterwards.
/// A slot that repeats the xpub of the catalog's cosigner with the UUID.
pub open spec fn external_slot_ok(slot: KeySlotV, uuid: Seq<char>, cs: Seq<CosignerRowV>) -> bool {
    exists|j: int|
        0 <= j < cs.len() && (#[trigger] cs[j]).uuid == uuid && slot == (KeySlotV {
            watch: cs[j].xpub,
            full: cs[j].xpub,
        })
}

pub open spec fn wallet_new_slots(
    slots: Seq<KeySlotV>,
    internal: CosignerV,
    uuids: Seq<Seq<char>>,
    cs: Seq<CosignerRowV>,
) -> bool {
    &&& slots.len() == uuids.len() + 1
    &&& internal.xprv matches Some(k) && slots[0] == (KeySlotV { watch: internal.xpub, full: k })
    &&& forall|i: int|
        1 <= i < slots.len() ==> external_slot_ok(#[trigger] slots[i], uuids[i - 1], cs)
}

/// How a saved wallet row reflects the in-memory wallet, the address
/// indices aside: those are persisted monotonically (see
/// [`merged_index`]).
pub open spec fn wallet_row_matches(row: WalletRowV, uuid: Seq<char>, w: WalletV) -> bool {
    &&& row.uuid == uuid
    &&& row.address_type == w.address_type
    &&& row.network == w.network
    &&& row.receive_descriptor == w.descriptors.receive_descriptor
    &&& row.receive_descriptor_watch_only == w.descriptors.receive_descriptor_watch_only
    &&& row.change_descriptor == w.descriptors.change_descriptor
    &&& row.change_descriptor_watch_only == w.descriptors.change_descriptor_watch_only
    &&& row.required_signatures == w.required_signatures
    &&& row.balance == w.balance
}

/// The address index a re-save persists: the larger of the stored and the
/// in-memory index, so indices never decrease across saves, whichever copy
/// of the wallet is saved.
pub open spec fn merged_index(stored: u64, current: u64) -> u64 {
    if stored >= current {
        stored
    } else {
        current
    }
}

/// How the persisted internal-cosigner row reflects the in-memory cosigner
/// once it is bound to its wallet.
pub open spec fn internal_row_matches(
    row: CosignerRowV,
    cosigner_uuid: Seq<char>,
    wallet_uuid: Seq<char>,
    c: CosignerV,
) -> bool {
    &&& row.uuid == cosigner_uuid
    &&& row.kind == CosignerType::Internal
    &&& row.email_address == c.email_address
    &&& row.xpub == c.xpub
    &&& row.xprv == c.xprv
    &&& row.wallet_uuid == Some(wallet_uuid)
}

/// Whether the arguments to the wallet constructor are rejected outright:
/// a threshold of zero, no external cosigners, or a threshold larger than
/// the total number of keys (internal key included).
pub open spec fn wallet_new_invalid(required_signatures: u64, cosigners: Seq<Seq<char>>) -> bool {
    ||| required_signatures < 1
    ||| cosigners.len() == 0
    ||| required_signatures > cosigners.len() + 1
}

impl Wallet {
    /// Builds an unsaved wallet: generates the internal key pair, loads the
    /// external cosigners' xpubs, composes the four descriptors over the
    /// canonically ordered key set and checks that they compile.
    #[verifier::loop_isolation(false)]
    pub fn new(
        store: &Store,
        address_type: AddressType,
        network: Network,
        required_signatures: u64,
        cosigners: Vec<String>,
    ) -> (r: Result<Wallet, OhmError>)
        ensures
            r == Err::<Wallet, OhmError>(OhmError::InvalidArgument) <==> wallet_new_invalid(
                required_signatures,
                strs_view(cosigners@),
            ),
            !wallet_new_invalid(required_signatures, strs_view(cosigners@)) ==> (r == Err::<
                Wallet,
                OhmError,
            >(OhmError::NotFound) <==> exists|i: int|
                0 <= i < cosigners@.len() && !has_cosigner(
                    store@.cosigners,
                    #[trigger] strs_view(cosigners@)[i],
                )),
            !wallet_new_invalid(required_signatures, strs_view(cosigners@)) && !(exists|i: int|
                0 <= i < cosigners@.len() && !has_cosigner(
                    store@.cosigners,
                    #[trigger] strs_view(cosigners@)[i],
                )) ==> (r is Ok || r == Err::<Wallet, OhmError>(OhmError::Internal)),
            r matches Ok(w) ==> {
                &&& w@.wf()
                &&& w@.uuid is None
                &&& w@.address_type == address_type
                &&& w@.network == network
                &&& w@.required_signatures == required_signatures
                &&& w@.receive_address_index == 0
                &&& w@.change_address_index == 0
                &&& w@.balance == 0
                &&& w@.partially_signed_txs.len() == 0
                &&& w@.internal_cosigner.uuid is None
                &&& w@.internal_cosigner.wallet is None
                &&& exists|slots: Seq<KeySlotV>|
                    {
                        &&& #[trigger] wallet_new_slots(
                            slots,
                            w@.internal_cosigner,
                            strs_view(cosigners@),
                            store@.cosigners,
                        )
                        &&& w@.descriptors.receive_descriptor == compose_full(
                            address_type,
                            required_signatures as int,
                            slots,
                            false,
                        )
                        &&& w@.descriptors.receive_descriptor_watch_only == compose_watch(
                            address_type,
                            required_signatures as int,
                            slots,
                            false,
                        )
                        &&& w@.descriptors.change_descriptor == compose_full(
                            address_type,
                            required_signatures as int,
                            slots,
                            true,
                        )
                        &&& w@.descriptors.change_descriptor_watch_only == compose_watch(
                            address_type,
                            required_signatures as int,
                            slots,
                            true,
                        )
                    }
                &&& descriptor_ok(
                    w@.descriptors.receive_descriptor,
                    w@.descriptors.change_descriptor,
                    network.spec_tag(),
                )
                &&& descriptors_substituted(w@.descriptors)
            },
    {
        let n = cosigners.len();
        if required_signatures < 1 || n == 0 {
            return Err(OhmError::InvalidArgument);
        }
        if required_signatures - 1 > n as u64 {
            return Err(OhmError::InvalidArgument);
        }
        let mut xpubs: Vec<String> = Vec::new();
        let mut i: usize = 0;
        while i < n
            invariant
                n == cosigners@.len(),
                i <= n,
                xpubs@.len() == i,
                forall|a: int|
                    #![trigger strs_view(xpubs@)[a]]
                    0 <= a < i ==> exists|j: int|
                        0 <= j < store@.cosigners.len() && (#[trigger] store@.cosigners[j]).uuid
                            == strs_view(cosigners@)[a] && strs_view(xpubs@)[a]
                            == store@.cosigners[j].xpub,
                forall|a: int|
                    0 <= a < i ==> has_cosigner(
                        store@.cosigners,
                        #[trigger] strs_view(cosigners@)[a],
                    ),
            decreases n - i,
        {
            let idx = match store.cosigner_index(cosigners[i].as_str()) {
                Some(idx) => idx,
                None => {
                    proof {
                        assert(strs_view(cosigners@)[i as int] == cosigners@[i as int]@);
                        assert(!has_cosigner(store@.cosigners, strs_view(cosigners@)[i as int]));
                    }
                    return Err(OhmError::NotFound);
                },
            };
            let row = store.cosigner_at(idx);
            let ghost prev = strs_view(xpubs@);
            xpubs.push(row.xpub);
            proof {
                assert(strs_view(xpubs@) =~= prev.push(store@.cosigners[idx as int].xpub));
                assert(strs_view(xpubs@)[i as int] == store@.cosigners[idx as int].xpub);
            }
            i += 1;
        }
        let internal = match Cosigner::new(CosignerType::Internal, None, None, Some(network)) {
            Ok(c) => c,
            Err(_) => {
                return Err(OhmError::Internal);
            },
        };
        let xprv_s = match internal.xprv() {
            Some(k) => k.clone(),
            None => {
                return Err(OhmError::Internal);
            },
        };
        let mut slots: Vec<KeySlot> = Vec::new();
        slots.push(KeySlot { watch: internal.xpub().clone(), full: xprv_s });
        let mut k: usize = 0;
        proof {
            assert(slots_view(slots@)[0] == (KeySlotV {
                watch: internal@.xpub,
                full: internal@.xprv->0,
            }));
        }
        while k < n
            invariant
                n == cosigners@.len(),
                n == xpubs@.len(),
                k <= n,
                internal@.wf(),
                internal@.kind == CosignerType::Internal,
                slots@.len() == k + 1,
                internal@.xprv matches Some(x) && slots_view(slots@)[0] == (KeySlotV {
                    watch: internal@.xpub,
                    full: x,
                }),
                forall|a: int|
                    1 <= a < slots@.len() ==> #[trigger] slots_view(slots@)[a] == (KeySlotV {
                        watch: strs_view(xpubs@)[a - 1],
                        full: strs_view(xpubs@)[a - 1],
                    }),
            decreases n - k,
        {
            let ghost prev = slots_view(slots@);
            let x2 = xpubs[k].clone();
            slots.push(KeySlot { watch: xpubs[k].clone(), full: x2 });
            proof {
                assert(slots_view(slots@) =~= prev.push(KeySlotV {
                    watch: strs_view(xpubs@)[k as int],
                    full: strs_view(xpubs@)[k as int],
                }));
            }
            k += 1;
        }
        let ghost slots_g = slots_view(slots@);
        let ghost xprv_g = internal@.xprv->0;
        proof {
            assert forall|a: int|
                1 <= a < slots_g.len() implies external_slot_ok(
                #[trigger] slots_g[a],
                strs_view(cosigners@)[a - 1],
                store@.cosigners,
            ) by {
                let xv: Seq<char> = strs_view(xpubs@)[a - 1];
                assert(exists|j: int|
                    0 <= j < store@.cosigners.len() && (#[trigger] store@.cosigners[j]).uuid
                        == strs_view(cosigners@)[a - 1] && strs_view(xpubs@)[a - 1]
                        == store@.cosigners[j].xpub);
                let j = choose|j: int|
                    0 <= j < store@.cosigners.len() && (#[trigger] store@.cosigners[j]).uuid
                        == strs_view(cosigners@)[a - 1] && strs_view(xpubs@)[a - 1]
                        == store@.cosigners[j].xpub;
                assert(slots_g[a] == (KeySlotV {
                    watch: store@.cosigners[j].xpub,
                    full: store@.cosigners[j].xpub,
                }));
            }
            assert(slots_g.len() == strs_view(cosigners@).len() + 1);
            assert(internal@.xprv matches Some(x2) && slots_g[0] == (KeySlotV {
                watch: internal@.xpub,
                full: x2,
            }));
            assert(wallet_new_slots(slots_g, internal@, strs_view(cosigners@), store@.cosigners));
        }
        let (receive_descriptor, receive_descriptor_watch_only) = compose_descriptor(
            address_type,
            required_signatures,
            duplicate_slots(&slots),
            false,
        );
        let (change_descriptor, change_descriptor_watch_only) = compose_descriptor(
            address_type,
            required_signatures,
            slots,
            true,
        );
        if !descriptor_compiles(
            receive_descriptor.as_str(),
            change_descriptor.as_str(),
            network,
        ) {
            return Err(OhmError::Internal);
        }
        proof {
            assert forall|a: int|
                0 <= a < slots_g.len() implies (#[trigger] slots_g[a]).watch == slots_g[a].full
                || (slots_g[a].full == xprv_g && slots_g[a].watch == xpub_of(xprv_g)) by {}
            lemma_compose_substitution(slots_g, xprv_g);
            assert(keys_substituted(
                crate::descriptor::full_keys(crate::descriptor::canon_slots(slots_g)),
                crate::descriptor::watch_keys(crate::descriptor::canon_slots(slots_g)),
                xprv_g,
            ));
            assert(receive_descriptor@ == render_desc(
                address_type,
                required_signatures as int,
                crate::descriptor::full_keys(crate::descriptor::canon_slots(slots_g)),
                false,
            ));
            assert(receive_descriptor_watch_only@ == render_desc(
                address_type,
                required_signatures as int,
                crate::descriptor::watch_keys(crate::descriptor::canon_slots(slots_g)),
                false,
            ));
            assert(watch_only_pair(receive_descriptor@, receive_descriptor_watch_only@));
            assert(change_descriptor@ == render_desc(
                address_type,
                required_signatures as int,
                crate::descriptor::full_keys(crate::descriptor::canon_slots(slots_g)),
                true,
            ));
            assert(change_descriptor_watch_only@ == render_desc(
                address_type,
                required_signatures as int,
                crate::descriptor::watch_keys(crate::descriptor::canon_slots(slots_g)),
                true,
            ));
            assert(watch_only_pair(change_descriptor@, change_descriptor_watch_only@));
        }
        Ok(
            Wallet {
                uuid: None,
                address_type,
                network,
                required_signatures,
                descriptors: WalletDescriptors {
                    receive_descriptor,
                    receive_descriptor_watch_only,
                    change_descriptor,
                    change_descriptor_watch_only,
                },
                receive_address_index: 0,
                change_address_index: 0,
                balance: 0,
                partially_signed_txs: Vec::new(),
                internal_cosigner: internal,
            },
        )
    }

    pub fn address_type(&self) -> (r: AddressType)
        ensures
            r == self@.address_type,
    {
        self.address_type
    }

    pub fn network(&self) -> (r: Network)
        ensures
            r == self@.network,
    {
        self.network
    }

    /// The last-observed confirmed balance, in satoshis.
    pub fn balance(&self) -> (r: u64)
        ensures
            r == self@.balance,
    {
        self.balance
    }

    /// Records a freshly observed confirmed balance.
    pub fn set_balance(&mut self, balance: u64)
        ensures
            final(self)@ == (WalletV { balance, ..old(self)@ }),
    {
        self.balance = balance;
    }

    /// The watch-only receive descriptor.
    pub fn receive_descriptor(&self) -> (r: &str)
        ensures
            r@ == self@.descriptors.receive_descriptor_watch_only,
    {
        self.descriptors.receive_descriptor_watch_only.as_str()
    }

    /// The watch-only change descriptor.
    pub fn change_descriptor(&self) -> (r: &str)
        ensures
            r@ == self@.descriptors.change_descriptor_watch_only,
    {
        self.descriptors.change_descriptor_watch_only.as_str()
    }

    pub fn descriptors(&self) -> (r: &WalletDescriptors)
        ensures
            r@ == self@.descriptors,
    {
        &self.descriptors
    }

    pub fn receive_address_index(&self) -> (r: u64)
        ensures
            r == self@.receive_address_index,
    {
        self.receive_address_index
    }

    pub fn change_address_index(&self) -> (r: u64)
        ensures
            r == self@.change_address_index,
    {
        self.change_address_index
    }

    pub fn required_signatures(&self) -> (r: u64)
        ensures
            r == self@.required_signatures,
    {
        self.required_signatures
    }

    pub fn partially_signed_transactions(&self) -> (r: &Vec<Psbt>)
        ensures
            psbts_view(r@) == self@.partially_signed_txs,
    {
        &self.partially_signed_txs
    }

    pub fn uuid(&self) -> (r: Option<&str>)
        ensures
            opt_str_view(r) == self@.uuid,
    {
        match &self.uuid {
            Some(u) => Some(u.as_str()),
            None => None,
        }
    }

    /// The address of the receive branch at the current receive index. The
    /// descriptor library derives indices below 2^31 only.
    pub fn receive_address(&self) -> (r: Result<String, OhmError>)
        requires
            self@.receive_address_index < 0x8000_0000,
        ensures
            r is Ok <==> crate::descriptor::derivable(
                self@.descriptors.receive_descriptor,
                self@.descriptors.change_descriptor,
                self@.network.spec_tag(),
                self@.receive_address_index as int,
            ),
            r matches Ok(a) ==> a@ == address_at(
                self@.descriptors.receive_descriptor,
                self@.descriptors.change_descriptor,
                self@.network.spec_tag(),
                self@.receive_address_index as int,
            ),
            r matches Err(e) ==> e == OhmError::Internal,
    {
        match peek_address(
            self.descriptors.receive_descriptor.as_str(),
            self.descriptors.change_descriptor.as_str(),
            self.network,
            self.receive_address_index as u32,
        ) {
            Some(a) => Ok(a),
            None => Err(OhmError::Internal),
        }
    }

    /// The address of the receive branch at the current change index, as
    /// the derivation handle reads it.
    pub fn change_address(&self) -> (r: Result<String, OhmError>)
        requires
            self@.change_address_index < 0x8000_0000,
        ensures
            r is Ok <==> crate::descriptor::derivable(
                self@.descriptors.receive_descriptor,
                self@.descriptors.change_descriptor,
                self@.network.spec_tag(),
                self@.change_address_index as int,
            ),
            r matches Ok(a) ==> a@ == address_at(
                self@.descriptors.receive_descriptor,
                self@.descriptors.change_descriptor,
                self@.network.spec_tag(),
                self@.change_address_index as int,
            ),
            r matches Err(e) ==> e == OhmError::Internal,
    {
        match peek_address(
            self.descriptors.receive_descriptor.as_str(),
            self.descriptors.change_descriptor.as_str(),
            self.network,
            self.change_address_index as u32,
        ) {
            Some(a) => Ok(a),
            None => Err(OhmError::Internal),
        }
    }

    /// Increments the receive index, then derives the address at the new
    /// index. Persisting the new index is the caller's business, via save.
    pub fn new_receive_address(&mut self) -> (r: Result<String, OhmError>)
        requires
            old(self)@.receive_address_index < 0x7FFF_FFFF,
        ensures
            final(self)@ == (WalletV {
                receive_address_index: (old(self)@.receive_address_index + 1) as u64,
                ..old(self)@
            }),
            r is Ok <==> crate::descriptor::derivable(
                old(self)@.descriptors.receive_descriptor,
                old(self)@.descriptors.change_descriptor,
                old(self)@.network.spec_tag(),
                old(self)@.receive_address_index + 1,
            ),
            r matches Ok(a) ==> a@ == address_at(
                old(self)@.descriptors.receive_descriptor,
                old(self)@.descriptors.change_descriptor,
                old(self)@.network.spec_tag(),
                old(self)@.receive_address_index + 1,
            ),
            r matches Err(e) ==> e == OhmError::Internal,
    {
        self.receive_address_index = self.receive_address_index + 1;
        self.receive_address()
    }

    /// Increments the change index, then derives the address at the new
    /// index.
    pub fn new_change_address(&mut self) -> (r: Result<String, OhmError>)
        requires
            old(self)@.change_address_index < 0x7FFF_FFFF,
        ensures
            final(self)@ == (WalletV {
                change_address_index: (old(self)@.change_address_index + 1) as u64,
                ..old(self)@
            }),
            r is Ok <==> crate::descriptor::derivable(
                old(self)@.descriptors.receive_descriptor,
                old(self)@.descriptors.change_descriptor,
                old(self)@.network.spec_tag(),
                old(self)@.change_address_index + 1,
            ),
            r matches Ok(a) ==> a@ == address_at(
                old(self)@.descriptors.receive_descriptor,
                old(self)@.descriptors.change_descriptor,
                old(self)@.network.spec_tag(),
                old(self)@.change_address_index + 1,
            ),
            r matches Err(e) ==> e == OhmError::Internal,
    {
        self.change_address_index = self.change_address_index + 1;
        self.change_address()
    }
}

} // verus!

verus! {

/// All wallet entities a find materializes: one per matching row, each with
/// its internal cosigner and PSBT cache loaded from the same catalog.
pub open spec fn materialized_wallet(row: WalletRowV, s: StoreV) -> WalletV {
    WalletV {
        uuid: Some(row.uuid),
        address_type: row.address_type,
        network: row.network,
        required_signatures: row.required_signatures,
        descriptors: WalletDescriptorsV {
            receive_descriptor: row.receive_descriptor,
            receive_descriptor_watch_only: row.receive_descriptor_watch_only,
            change_descriptor: row.change_descriptor,
            change_descriptor_watch_only: row.change_descriptor_watch_only,
        },
        receive_address_index: row.receive_address_index,
        change_address_index: row.change_address_index,
        balance: row.balance,
        partially_signed_txs: psbts_of_rows(filter_psbts(s.psbts, None, Some(row.uuid))),
        internal_cosigner: crate::cosigner::cosigner_of_row(
            filter_cosigners(s.cosigners, None, None, None, Some(row.uuid))[0],
        ),
    }
}

pub open spec fn materialize_all(rows: Seq<WalletRowV>, s: StoreV) -> Seq<WalletV> {
    rows.map_values(|r: WalletRowV| materialized_wallet(r, s))
}

pub open spec fn wallets_view(ws: Seq<Wallet>) -> Seq<WalletV> {
    ws.map_values(|w: Wallet| w@)
}

/// After pushing a wallet row together with its fresh internal cosigner row
/// into a consistent catalog, the catalog is consistent again.
proof fn lemma_insert_wallet_pair_wf(
    before: StoreV,
    after: StoreV,
    w_row: WalletRowV,
    c_row: CosignerRowV,
)
    requires
        before.wf(),
        !has_wallet(before.wallets, w_row.uuid),
        !has_cosigner(before.cosigners, c_row.uuid),
        c_row.kind == CosignerType::Internal,
        c_row.xprv is Some,
        c_row.wallet_uuid == Some(w_row.uuid),
        w_row.required_signatures >= 1,
        after.wallets == before.wallets.push(w_row),
        after.cosigners == before.cosigners.push(c_row),
        after.psbts == before.psbts,
    ensures
        after.wf(),
{
    let wn = before.wallets.len() as int;
    let cn = before.cosigners.len() as int;
    assert forall|a: int, b: int| 0 <= a < b < after.wallets.len() implies (
    #[trigger] after.wallets[a]).uuid != (#[trigger] after.wallets[b]).uuid by {
        if b < wn {
            assert(before.wallets[a].uuid != before.wallets[b].uuid);
        } else {
            assert(after.wallets[a] == before.wallets[a]);
            assert(!has_wallet(before.wallets, w_row.uuid));
        }
    }
    assert forall|a: int, b: int| 0 <= a < b < after.cosigners.len() implies (
    #[trigger] after.cosigners[a]).uuid != (#[trigger] after.cosigners[b]).uuid by {
        if b < cn {
            assert(before.cosigners[a].uuid != before.cosigners[b].uuid);
        } else {
            assert(after.cosigners[a] == before.cosigners[a]);
            assert(!has_cosigner(before.cosigners, c_row.uuid));
        }
    }
    assert forall|a: int|
        0 <= a < after.cosigners.len() implies crate::store::cosigner_row_ok(
        #[trigger] after.cosigners[a],
    ) by {
        if a < cn {
            assert(after.cosigners[a] == before.cosigners[a]);
        }
    }
    assert forall|a: int|
        0 <= a < after.cosigners.len() implies ((#[trigger] after.cosigners[a]).wallet_uuid
        matches Some(w) ==> has_wallet(after.wallets, w)) by {
        if a < cn {
            assert(after.cosigners[a] == before.cosigners[a]);
            match before.cosigners[a].wallet_uuid {
                Some(w) => {
                    assert(has_wallet(before.wallets, w));
                    let k = choose|k: int|
                        0 <= k < before.wallets.len() && (#[trigger] before.wallets[k]).uuid == w;
                    assert(after.wallets[k].uuid == w);
                },
                None => {},
            }
        } else {
            assert(after.wallets[wn].uuid == w_row.uuid);
        }
    }
    assert forall|a: int|
        0 <= a < after.wallets.len() implies crate::store::exactly_one_internal(
        after.cosigners,
        (#[trigger] after.wallets[a]).uuid,
    ) by {
        let w = after.wallets[a].uuid;
        if a < wn {
            let k = choose|k: int|
                0 <= k < before.cosigners.len() && crate::store::internal_for(
                    #[trigger] before.cosigners[k],
                    w,
                ) && (forall|j: int|
                    0 <= j < before.cosigners.len() && crate::store::internal_for(
                        #[trigger] before.cosigners[j],
                        w,
                    ) ==> j == k);
            assert(crate::store::internal_for(after.cosigners[k], w));
            assert forall|j: int|
                0 <= j < after.cosigners.len() && crate::store::internal_for(
                    #[trigger] after.cosigners[j],
                    w,
                ) implies j == k by {
                if j < cn {
                    assert(after.cosigners[j] == before.cosigners[j]);
                } else {
                    assert(after.cosigners[j] == c_row);
                    assert(before.wallets[a].uuid == w);
                    assert(has_wallet(before.wallets, w_row.uuid));
                    assert(false);
                }
            }
        } else {
            assert(w == w_row.uuid);
            assert(crate::store::internal_for(after.cosigners[cn], w));
            assert forall|j: int|
                0 <= j < after.cosigners.len() && crate::store::internal_for(
                    #[trigger] after.cosigners[j],
                    w,
                ) implies j == cn by {
                if j < cn {
                    assert(after.cosigners[j] == before.cosigners[j]);
                    assert(has_wallet(before.wallets, w_row.uuid));
                    assert(false);
                }
            }
        }
    }
    assert forall|a: int| 0 <= a < after.psbts.len() implies has_wallet(
        after.wallets,
        (#[trigger] after.psbts[a]).wallet_uuid,
    ) by {
        assert(has_wallet(before.wallets, before.psbts[a].wallet_uuid));
        let k = choose|k: int|
            0 <= k < before.wallets.len() && (#[trigger] before.wallets[k]).uuid
                == before.psbts[a].wallet_uuid;
        assert(after.wallets[k].uuid == before.psbts[a].wallet_uuid);
    }
    assert forall|a: int|
        0 <= a < after.wallets.len() implies (#[trigger] after.wallets[a]).required_signatures
        >= 1 by {
        if a < wn {
            assert(after.wallets[a] == before.wallets[a]);
        }
    }
}

/// After replacing a wallet row with one that keeps its UUID, the catalog
/// is consistent again.
proof fn lemma_update_wallet_row_wf(before: StoreV, after: StoreV, i: int, row: WalletRowV)
    requires
        before.wf(),
        0 <= i < before.wallets.len(),
        row.uuid == before.wallets[i].uuid,
        row.required_signatures >= 1,
        after.wallets == before.wallets.update(i, row),
        after.cosigners == before.cosigners,
        after.psbts == before.psbts,
    ensures
        after.wf(),
{
    assert forall|a: int, b: int| 0 <= a < b < after.wallets.len() implies (
    #[trigger] after.wallets[a]).uuid != (#[trigger] after.wallets[b]).uuid by {
        assert((#[trigger] before.wallets[a]).uuid != (#[trigger] before.wallets[b]).uuid);
    }
    assert forall|a: int|
        0 <= a < after.wallets.len() implies (#[trigger] after.wallets[a]).uuid
        == before.wallets[a].uuid by {}
    assert forall|u: Seq<char>| #[trigger]
        has_wallet(before.wallets, u) implies has_wallet(after.wallets, u) by {
        let k = choose|k: int| 0 <= k < before.wallets.len() && (#[trigger] before.wallets[k]).uuid == u;
        assert(after.wallets[k].uuid == u);
    }
    assert forall|a: int|
        0 <= a < after.cosigners.len() implies ((#[trigger] after.cosigners[a]).wallet_uuid
        matches Some(w) ==> has_wallet(after.wallets, w)) by {
        match after.cosigners[a].wallet_uuid {
            Some(w) => {
                assert(has_wallet(before.wallets, w));
            },
            None => {},
        }
    }
    assert forall|a: int| 0 <= a < after.psbts.len() implies has_wallet(
        after.wallets,
        (#[trigger] after.psbts[a]).wallet_uuid,
    ) by {
        assert(has_wallet(before.wallets, after.psbts[a].wallet_uuid));
    }
    assert forall|a: int|
        0 <= a < after.wallets.len() implies crate::store::exactly_one_internal(
        after.cosigners,
        (#[trigger] after.wallets[a]).uuid,
    ) by {
        assert(crate::store::exactly_one_internal(before.cosigners, before.wallets[a].uuid));
    }
}

/// After a wallet cascade the catalog is consistent, and nothing in it
/// references the removed wallet any more.
proof fn lemma_cascade_wf(before: StoreV, after: StoreV, u: Seq<char>)
    requires
        before.wf(),
        after.cosigners == crate::store::drop_wallet_cosigners(before.cosigners, u),
        after.psbts == crate::store::drop_wallet_psbts(before.psbts, u),
        after.wallets == crate::store::drop_wallet(before.wallets, u),
    ensures
        after.wf(),
        forall|i: int|
            0 <= i < after.cosigners.len() ==> (#[trigger] after.cosigners[i]).wallet_uuid
                != Some(u),
        forall|i: int| 0 <= i < after.psbts.len() ==> (#[trigger] after.psbts[i]).wallet_uuid != u,
        forall|i: int| 0 <= i < after.wallets.len() ==> (#[trigger] after.wallets[i]).uuid != u,
{
    broadcast use vstd::prelude::Seq::lemma_filter_pred;
    broadcast use vstd::prelude::Seq::lemma_filter_contains;

    let cpred = |c: CosignerRowV| c.wallet_uuid != Some(u);
    let ppred = |p: crate::store::PsbtRowV| p.wallet_uuid != u;
    let wpred = |w: WalletRowV| w.uuid != u;
    crate::store::lemma_unique_cosigners_filter(before.cosigners, cpred);
    crate::store::lemma_unique_wallets_filter(before.wallets, wpred);
    crate::store::lemma_unique_psbts_filter(before.psbts, ppred);
    crate::store::lemma_filter_subset(before.cosigners, cpred);
    crate::store::lemma_filter_subset(before.wallets, wpred);
    crate::store::lemma_filter_subset(before.psbts, ppred);
    assert forall|a: int|
        0 <= a < after.cosigners.len() implies crate::store::cosigner_row_ok(
        #[trigger] after.cosigners[a],
    ) && ((#[trigger] after.cosigners[a]).wallet_uuid matches Some(w) ==> has_wallet(
        after.wallets,
        w,
    )) by {
        assert(before.cosigners.contains(after.cosigners[a]));
        let j = choose|j: int|
            0 <= j < before.cosigners.len() && before.cosigners[j] == after.cosigners[a];
        assert(crate::store::cosigner_row_ok(before.cosigners[j]));
        assert(cpred(after.cosigners[a]));
        match after.cosigners[a].wallet_uuid {
            Some(w) => {
                assert(has_wallet(before.wallets, w));
                let k = choose|k: int|
                    0 <= k < before.wallets.len() && (#[trigger] before.wallets[k]).uuid == w;
                assert(w != u);
                assert(wpred(before.wallets[k]));
                assert(after.wallets.contains(before.wallets[k]));
                let m = choose|m: int|
                    0 <= m < after.wallets.len() && after.wallets[m] == before.wallets[k];
                assert(after.wallets[m].uuid == w);
            },
            None => {},
        }
    }
    assert forall|a: int| 0 <= a < after.psbts.len() implies has_wallet(
        after.wallets,
        (#[trigger] after.psbts[a]).wallet_uuid,
    ) && after.psbts[a].wallet_uuid != u by {
        assert(before.psbts.contains(after.psbts[a]));
        let j = choose|j: int| 0 <= j < before.psbts.len() && before.psbts[j] == after.psbts[a];
        assert(has_wallet(before.wallets, before.psbts[j].wallet_uuid));
        assert(ppred(after.psbts[a]));
        let w = after.psbts[a].wallet_uuid;
        let k = choose|k: int|
            0 <= k < before.wallets.len() && (#[trigger] before.wallets[k]).uuid == w;
        assert(wpred(before.wallets[k]));
        assert(after.wallets.contains(before.wallets[k]));
        let m = choose|m: int| 0 <= m < after.wallets.len() && after.wallets[m] == before.wallets[k];
        assert(after.wallets[m].uuid == w);
    }
    assert forall|a: int|
        0 <= a < after.wallets.len() implies crate::store::exactly_one_internal(
        after.cosigners,
        (#[trigger] after.wallets[a]).uuid,
    ) && (#[trigger] after.wallets[a]).required_signatures >= 1 by {
        assert(before.wallets.contains(after.wallets[a]));
        let j = choose|j: int| 0 <= j < before.wallets.len() && before.wallets[j] == after.wallets[a];
        let w = after.wallets[a].uuid;
        assert(crate::store::exactly_one_internal(before.cosigners, w));
        assert(wpred(after.wallets[a]));
        assert(w != u);
        assert forall|i: int|
            0 <= i < before.cosigners.len() && crate::store::internal_for(
                #[trigger] before.cosigners[i],
                w,
            ) implies cpred(before.cosigners[i]) by {}
        crate::store::lemma_exactly_one_internal_filter(before.cosigners, w, cpred);
        assert(before.wallets[j].required_signatures >= 1);
    }
}

impl Wallet {
    fn make_row(&self, uuid: String) -> (r: WalletRow)
        ensures
            r@.uuid == uuid@,
            wallet_row_matches(r@, uuid@, self@),
            r@.receive_address_index == self@.receive_address_index,
            r@.change_address_index == self@.change_address_index,
            r@.required_signatures == self@.required_signatures,
    {
        WalletRow {
            uuid,
            address_type: self.address_type,
            network: self.network,
            receive_descriptor: self.descriptors.receive_descriptor.clone(),
            receive_descriptor_watch_only: self.descriptors.receive_descriptor_watch_only.clone(),
            receive_address_index: self.receive_address_index,
            change_descriptor: self.descriptors.change_descriptor.clone(),
            change_descriptor_watch_only: self.descriptors.change_descriptor_watch_only.clone(),
            change_address_index: self.change_address_index,
            required_signatures: self.required_signatures,
            balance: self.balance,
            creation_time: now_ts(),
        }
    }

    /// Upserts the wallet. On first save a fresh UUID is drawn, the
    /// internal cosigner is bound to it and both rows are written as one
    /// step; later saves update only the wallet row.
    pub fn save(&mut self, store: &mut Store) -> (r: Result<(), OhmError>)
        requires
            old(self)@.wf(),
            old(store)@.wf(),
        ensures
            final(store)@.wf(),
            final(self)@.wf(),
            final(store)@.psbts == old(store)@.psbts,
            r matches Err(_) ==> final(self)@ == old(self)@ && final(store)@ == old(store)@,
            old(self)@.uuid is None ==> (r is Ok || r == Err::<(), OhmError>(OhmError::Internal)),
            old(self)@.uuid is None && r is Ok ==> (final(self)@.uuid matches Some(u) && {
                &&& is_valid_uuid(u)
                &&& !has_wallet(old(store)@.wallets, u)
                &&& final(self)@ == (WalletV {
                    uuid: Some(u),
                    internal_cosigner: final(self)@.internal_cosigner,
                    ..old(self)@
                })
                &&& final(self)@.internal_cosigner == (CosignerV {
                    uuid: final(self)@.internal_cosigner.uuid,
                    wallet: Some(u),
                    ..old(self)@.internal_cosigner
                })
                &&& (final(self)@.internal_cosigner.uuid matches Some(cu) && is_valid_uuid(cu)
                    && !has_cosigner(old(store)@.cosigners, cu) && final(store)@.cosigners == old(store)@.cosigners.push(final(store)@.cosigners.last()) && internal_row_matches(
                    final(store)@.cosigners.last(),
                    cu,
                    u,
                    old(self)@.internal_cosigner,
                ))
                &&& final(store)@.wallets == old(store)@.wallets.push(final(store)@.wallets.last())
                &&& final(store)@.wallets.len() == old(store)@.wallets.len() + 1
                &&& wallet_row_matches(final(store)@.wallets.last(), u, old(self)@)
                &&& final(store)@.wallets.last().receive_address_index == old(self)@.receive_address_index
                &&& final(store)@.wallets.last().change_address_index == old(self)@.change_address_index
            }),
            old(self)@.uuid matches Some(u) ==> {
                &&& (r == Err::<(), OhmError>(OhmError::NotFound) <==> !has_wallet(
                    old(store)@.wallets,
                    u,
                ))
                &&& (has_wallet(old(store)@.wallets, u) ==> r is Ok && final(self)@ == old(self)@
                    && final(store)@.cosigners == old(store)@.cosigners && exists|i: int|
                    {
                        &&& 0 <= i < old(store)@.wallets.len()
                        &&& (#[trigger] old(store)@.wallets[i]).uuid == u
                        &&& final(store)@.wallets == old(store)@.wallets.update(
                            i,
                            final(store)@.wallets[i],
                        )
                        &&& wallet_row_matches(final(store)@.wallets[i], u, old(self)@)
                        &&& final(store)@.wallets[i].receive_address_index == merged_index(
                            old(store)@.wallets[i].receive_address_index,
                            old(self)@.receive_address_index,
                        )
                        &&& final(store)@.wallets[i].change_address_index == merged_index(
                            old(store)@.wallets[i].change_address_index,
                            old(self)@.change_address_index,
                        )
                        &&& final(store)@.wallets[i].receive_address_index >= old(store)@.wallets[i].receive_address_index
                        &&& final(store)@.wallets[i].change_address_index >= old(store)@.wallets[i].change_address_index
                    })
            },
            store_descriptors_substituted(old(store)@) && descriptors_substituted(
                old(self)@.descriptors,
            ) ==> store_descriptors_substituted(final(store)@),
    {
        let is_fresh = self.uuid.is_none();
        if !is_fresh {
            let u2 = match &self.uuid {
                Some(u) => u.clone(),
                None => {
                    return Err(OhmError::Internal);
                },
            };
            let idx = match store.wallet_index(u2.as_str()) {
                Some(i) => i,
                None => {
                    return Err(OhmError::NotFound);
                },
            };
            let stored = store.wallet_at(idx);
            let mut row = self.make_row(u2);
            // indices only move forward across saves, whichever copy of
            // the wallet is being written back
            if stored.receive_address_index > row.receive_address_index {
                row.receive_address_index = stored.receive_address_index;
            }
            if stored.change_address_index > row.change_address_index {
                row.change_address_index = stored.change_address_index;
            }
            let ghost row_v = row@;
            let ghost before = store@;
            store.upsert_wallet(row);
            proof {
                let i = choose|i: int|
                    0 <= i < before.wallets.len() && (#[trigger] before.wallets[i]).uuid
                        == row_v.uuid && store@.wallets == before.wallets.update(i, row_v);
                assert(i == idx as int);
                assert(stored@ == before.wallets[i]);
                lemma_update_wallet_row_wf(before, store@, i, row_v);
                if store_descriptors_substituted(before) && descriptors_substituted(
                    self@.descriptors,
                ) {
                    assert forall|a: int| 0 <= a < store@.wallets.len() implies {
                        let w = #[trigger] store@.wallets[a];
                        watch_only_pair(w.receive_descriptor, w.receive_descriptor_watch_only)
                            && watch_only_pair(w.change_descriptor, w.change_descriptor_watch_only)
                    } by {
                        if a != i {
                            assert(store@.wallets[a] == before.wallets[a]);
                        }
                    }
                }
            }
            return Ok(());
        }
        let w_uuid = new_uuid();
        if store.wallet_index(w_uuid.as_str()).is_some() {
            return Err(OhmError::Internal);
        }
        let c_uuid = new_uuid();
        if store.cosigner_index(c_uuid.as_str()).is_some() {
            return Err(OhmError::Internal);
        }
        let w_row = self.make_row(w_uuid.clone());
        match self.internal_cosigner.set_wallet(w_uuid.clone()) {
            Ok(_) => {},
            Err(_) => {
                return Err(OhmError::Internal);
            },
        }
        self.internal_cosigner.set_uuid(c_uuid.clone());
        let c_row = CosignerRow {
            uuid: c_uuid,
            kind: CosignerType::Internal,
            email_address: crate::store::clone_opt_string(self.internal_cosigner.email_address()),
            xpub: self.internal_cosigner.xpub().clone(),
            xprv: crate::store::clone_opt_string(self.internal_cosigner.xprv()),
            wallet_uuid: Some(w_uuid.clone()),
            creation_time: now_ts(),
        };
        let ghost w_row_v = w_row@;
        let ghost c_row_v = c_row@;
        let ghost before = store@;
        store.insert_wallet_with_cosigner(w_row, c_row);
        proof {
            lemma_insert_wallet_pair_wf(before, store@, w_row_v, c_row_v);
            if store_descriptors_substituted(before) && descriptors_substituted(
                self@.descriptors,
            ) {
                assert forall|a: int| 0 <= a < store@.wallets.len() implies {
                    let w = #[trigger] store@.wallets[a];
                    watch_only_pair(w.receive_descriptor, w.receive_descriptor_watch_only)
                        && watch_only_pair(w.change_descriptor, w.change_descriptor_watch_only)
                } by {
                    if a < before.wallets.len() {
                        assert(store@.wallets[a] == before.wallets[a]);
                    } else {
                        assert(store@.wallets[a] == w_row_v);
                    }
                }
            }
        }
        self.uuid = Some(w_uuid);
        Ok(())
    }
}

} // verus!

verus! {

impl Wallet {
    /// All wallets matching the conjunction of the supplied filters, each
    /// materialized with its internal cosigner and PSBT cache.
    pub fn find(
        store: &Store,
        uuid: Option<&str>,
        address_type: Option<AddressType>,
        network: Option<Network>,
        receive_descriptor: Option<&str>,
    ) -> (r: Result<Vec<Wallet>, OhmError>)
        requires
            store@.wf(),
        ensures
            r matches Ok(ws) && wallets_view(ws@) == materialize_all(
                filter_wallets(
                    store@.wallets,
                    opt_str_view(uuid),
                    address_type,
                    network,
                    opt_str_view(receive_descriptor),
                ),
                store@,
            ),
            r matches Ok(ws) ==> forall|i: int|
                0 <= i < ws@.len() ==> (#[trigger] wallets_view(ws@)[i]).wf(),
    {
        broadcast use vstd::prelude::Seq::lemma_filter_contains;
        broadcast use vstd::prelude::Seq::lemma_filter_pred;

        let rows = store.find_wallets(uuid, address_type, network, receive_descriptor);
        let ghost rows_v = wallet_rows_view(rows@);
        proof {
            crate::store::lemma_filter_subset(
                store@.wallets,
                |w: WalletRowV|
                    crate::store::wallet_matches(
                        w,
                        opt_str_view(uuid),
                        address_type,
                        network,
                        opt_str_view(receive_descriptor),
                    ),
            );
        }
        let n = rows.len();
        let mut out: Vec<Wallet> = Vec::new();
        let mut i: usize = 0;
        proof {
            assert(wallets_view(out@) =~= materialize_all(rows_v.take(0), store@));
        }
        while i < n
            invariant
                store@.wf(),
                n == rows@.len(),
                i <= n,
                rows_v == wallet_rows_view(rows@),
                forall|a: int| 0 <= a < n ==> store@.wallets.contains(#[trigger] rows_v[a]),
                wallets_view(out@) == materialize_all(rows_v.take(i as int), store@),
                forall|a: int| 0 <= a < i ==> (#[trigger] wallets_view(out@)[a]).wf(),
            decreases n - i,
        {
            broadcast use vstd::prelude::Seq::lemma_filter_contains;
            broadcast use vstd::prelude::Seq::lemma_filter_pred;

            let row = &rows[i];
            let ghost row_v = rows_v[i as int];
            proof {
                let j = choose|j: int|
                    0 <= j < store@.wallets.len() && store@.wallets[j] == row_v;
                assert(crate::store::exactly_one_internal(store@.cosigners, row_v.uuid));
                let k = choose|k: int|
                    0 <= k < store@.cosigners.len() && crate::store::internal_for(
                        #[trigger] store@.cosigners[k],
                        row_v.uuid,
                    );
                crate::store::lemma_wallet_filter_keeps_internal(store@.cosigners, row_v.uuid, k);
            }
            let mut internals = match Cosigner::find(
                store,
                None,
                None,
                None,
                Some(row.uuid.as_str()),
            ) {
                Ok(cs) => cs,
                Err(_) => {
                    proof {
                        assert(false);
                    }
                    return Err(OhmError::Internal);
                },
            };
            if internals.len() == 0 {
                proof {
                    assert(crate::cosigner::cosigners_view(internals@)
                        == crate::cosigner::cosigners_of_rows(
                        filter_cosigners(store@.cosigners, None, None, None, Some(row_v.uuid)),
                    ));
                    assert(crate::cosigner::cosigners_view(internals@).len() == internals@.len());
                    assert(false);
                }
                return Err(OhmError::Internal);
            }
            let ghost iv = crate::cosigner::cosigners_view(internals@);
            let internal = internals.remove(0);
            proof {
                assert(internal@ == iv[0]);
                assert(iv[0] == crate::cosigner::cosigner_of_row(
                    filter_cosigners(store@.cosigners, None, None, None, Some(row_v.uuid))[0],
                ));
            }
            let psbts = match Psbt::find(store, None, Some(row.uuid.as_str())) {
                Ok(ps) => ps,
                Err(_) => {
                    proof {
                        assert(false);
                    }
                    return Err(OhmError::Internal);
                },
            };
            let ghost out_before = wallets_view(out@);
            out.push(
                Wallet {
                    uuid: Some(row.uuid.clone()),
                    address_type: row.address_type,
                    network: row.network,
                    required_signatures: row.required_signatures,
                    descriptors: WalletDescriptors {
                        receive_descriptor: row.receive_descriptor.clone(),
                        receive_descriptor_watch_only: row.receive_descriptor_watch_only.clone(),
                        change_descriptor: row.change_descriptor.clone(),
                        change_descriptor_watch_only: row.change_descriptor_watch_only.clone(),
                    },
                    receive_address_index: row.receive_address_index,
                    change_address_index: row.change_address_index,
                    balance: row.balance,
                    partially_signed_txs: psbts,
                    internal_cosigner: internal,
                },
            );
            proof {
                let cos0 = crate::cosigner::cosigner_of_row(
                    filter_cosigners(store@.cosigners, None, None, None, Some(row_v.uuid))[0],
                );
                assert(internal@ == cos0);
                assert(wallets_view(out@) =~= out_before.push(materialized_wallet(row_v, store@)));
                assert(materialize_all(rows_v.take(i + 1), store@) =~= materialize_all(
                    rows_v.take(i as int),
                    store@,
                ).push(materialized_wallet(row_v, store@)));
                let fr = filter_cosigners(store@.cosigners, None, None, None, Some(row_v.uuid));
                assert(crate::store::cosigner_matches(fr[0], None, None, None, Some(row_v.uuid)));
                assert(store@.cosigners.contains(fr[0])) by {
                    crate::store::lemma_filter_subset(
                        store@.cosigners,
                        |c: CosignerRowV|
                            crate::store::cosigner_matches(c, None, None, None, Some(row_v.uuid)),
                    );
                }
                let cidx = choose|cidx: int|
                    0 <= cidx < store@.cosigners.len() && store@.cosigners[cidx] == fr[0];
                assert(crate::store::cosigner_row_ok(store@.cosigners[cidx]));
                let j = choose|j: int|
                    0 <= j < store@.wallets.len() && store@.wallets[j] == row_v;
                assert(store@.wallets[j].required_signatures >= 1);
                assert(wallets_view(out@)[i as int].wf());
            }
            i += 1;
        }
        proof {
            assert(rows_v.take(n as int) =~= rows_v);
        }
        Ok(out)
    }

    /// The first wallet matching the UUID filter, if any.
    pub fn from_db(store: &Store, uuid: Option<&str>) -> (r: Result<Option<Wallet>, OhmError>)
        requires
            store@.wf(),
        ensures
            r matches Ok(w) && {
                let rows = filter_wallets(store@.wallets, opt_str_view(uuid), None, None, None);
                match w {
                    Some(w) => rows.len() > 0 && w@ == materialized_wallet(rows[0], store@)
                        && w@.wf(),
                    None => rows.len() == 0,
                }
            },
    {
        let ghost rowsv = filter_wallets(store@.wallets, opt_str_view(uuid), None, None, None);
        let mut found = match Self::find(store, uuid, None, None, None) {
            Ok(f) => f,
            Err(e) => {
                return Err(e);
            },
        };
        proof {
            assert(wallets_view(found@) == materialize_all(rowsv, store@));
            assert(wallets_view(found@).len() == found@.len());
            assert(materialize_all(rowsv, store@).len() == rowsv.len());
            assert(found@.len() == rowsv.len());
        }
        if found.len() == 0 {
            Ok(None)
        } else {
            let ghost fv = wallets_view(found@);
            let first = found.remove(0);
            proof {
                assert(first@ == fv[0]);
                assert(fv[0] == materialized_wallet(rowsv[0], store@));
            }
            Ok(Some(first))
        }
    }

    /// Deletes the wallet and cascades: its PSBTs, then its internal
    /// cosigner row, then the wallet row, as one step. External cosigners
    /// stay. Afterwards nothing in the catalog references the wallet.
    pub fn remove(&mut self, store: &mut Store) -> (r: Result<(), OhmError>)
        requires
            old(store)@.wf(),
        ensures
            final(store)@.wf(),
            r is Ok,
            final(self)@ == (WalletV { uuid: None, ..old(self)@ }),
            old(self)@.uuid is None ==> final(store)@ == old(store)@,
            old(self)@.uuid matches Some(u) ==> {
                &&& final(store)@.cosigners == crate::store::drop_wallet_cosigners(
                    old(store)@.cosigners,
                    u,
                )
                &&& final(store)@.psbts == crate::store::drop_wallet_psbts(old(store)@.psbts, u)
                &&& final(store)@.wallets == crate::store::drop_wallet(old(store)@.wallets, u)
                &&& forall|i: int|
                    0 <= i < final(store)@.cosigners.len() ==> (#[trigger] final(store)@.cosigners[i]).wallet_uuid != Some(u)
                &&& forall|i: int|
                    0 <= i < final(store)@.psbts.len() ==> (#[trigger] final(store)@.psbts[i]).wallet_uuid != u
                &&& forall|i: int|
                    0 <= i < final(store)@.wallets.len() ==> (#[trigger] final(store)@.wallets[i]).uuid != u
            },
            store_descriptors_substituted(old(store)@) ==> store_descriptors_substituted(
                final(store)@,
            ),
    {
        let uuid = match &self.uuid {
            Some(u) => u.clone(),
            None => {
                self.uuid = None;
                return Ok(());
            },
        };
        let ghost before = store@;
        store.remove_wallet_cascade(uuid.as_str());
        proof {
            lemma_cascade_wf(before, store@, uuid@);
            if store_descriptors_substituted(before) {
                crate::store::lemma_filter_subset(
                    before.wallets,
                    |w: WalletRowV| w.uuid != uuid@,
                );
                assert forall|a: int| 0 <= a < store@.wallets.len() implies {
                    let w = #[trigger] store@.wallets[a];
                    watch_only_pair(w.receive_descriptor, w.receive_descriptor_watch_only)
                        && watch_only_pair(w.change_descriptor, w.change_descriptor_watch_only)
                } by {
                    assert(before.wallets.contains(store@.wallets[a]));
                    let j = choose|j: int|
                        0 <= j < before.wallets.len() && before.wallets[j] == store@.wallets[a];
                    assert(watch_only_pair(
                        before.wallets[j].receive_descriptor,
                        before.wallets[j].receive_descriptor_watch_only,
                    ));
                }
            }
        }
        self.uuid = None;
        Ok(())
    }
}

} // verus!

verus! {

impl Wallet {
    /// The index of the cached PSBT with the UUID, if any.
    fn find_cached(&self, uuid: &str) -> (r: Option<usize>)
        ensures
            r matches Some(i) ==> i < self@.partially_signed_txs.len()
                && self@.partially_signed_txs[i as int].uuid == Some(uuid@),
            r is None ==> forall|i: int|
                0 <= i < self@.partially_signed_txs.len() ==> (
                #[trigger] self@.partially_signed_txs[i]).uuid != Some(uuid@),
    {
        let n = self.partially_signed_txs.len();
        let mut i: usize = 0;
        while i < n
            invariant
                n == self@.partially_signed_txs.len(),
                i <= n,
                forall|j: int|
                    0 <= j < i ==> (#[trigger] self@.partially_signed_txs[j]).uuid != Some(uuid@),
            decreases n - i,
        {
            let hit = match self.partially_signed_txs[i].uuid() {
                Some(u) => str_eq(u, uuid),
                None => false,
            };
            if hit {
                return Some(i);
            }
            i += 1;
        }
        None
    }

    /// Wraps an externally produced PSBT for this wallet, persists it and
    /// caches it. The wallet must have been saved first.
    pub fn import_psbt(&mut self, store: &mut Store, base64: &str) -> (r: Result<Psbt, OhmError>)
        requires
            old(store)@.wf(),
        ensures
            final(store)@.wf(),
            final(store)@.wallets == old(store)@.wallets,
            final(store)@.cosigners == old(store)@.cosigners,
            old(self)@.uuid is None <==> r == Err::<Psbt, OhmError>(OhmError::NotSaved),
            old(self)@.uuid is Some ==> (r == Err::<Psbt, OhmError>(OhmError::InvalidArgument)
                <==> !is_valid_psbt(base64@)),
            old(self)@.uuid matches Some(u) ==> (is_valid_psbt(base64@) ==> (r == Err::<
                Psbt,
                OhmError,
            >(OhmError::NotFound) <==> !has_wallet(old(store)@.wallets, u))),
            r matches Err(_) ==> final(self)@ == old(self)@ && final(store)@ == old(store)@,
            r matches Ok(p) ==> {
                &&& old(self)@.uuid matches Some(u) && p@.wallet == u
                &&& p@.base64 == crate::psbt_ops::psbt_norm(base64@)
                &&& p@.uuid matches Some(pu) && is_valid_uuid(pu) && !crate::store::has_psbt(
                    old(store)@.psbts,
                    pu,
                )
                &&& final(store)@.psbts == old(store)@.psbts.push(final(store)@.psbts.last())
                &&& final(store)@.psbts.len() == old(store)@.psbts.len() + 1
                &&& crate::psbt::psbt_row_matches(final(store)@.psbts.last(), p@.uuid->0, p@)
                &&& final(self)@ == (WalletV {
                    partially_signed_txs: old(self)@.partially_signed_txs.push(p@),
                    ..old(self)@
                })
            },
    {
        let wallet_uuid = match &self.uuid {
            Some(u) => u.clone(),
            None => {
                return Err(OhmError::NotSaved);
            },
        };
        let mut psbt = match Psbt::new(base64, wallet_uuid) {
            Ok(p) => p,
            Err(e) => {
                return Err(e);
            },
        };
        match psbt.save(store) {
            Ok(_) => {},
            Err(e) => {
                return Err(e);
            },
        }
        let ghost cache_before = self@.partially_signed_txs;
        let out = psbt.duplicate();
        self.partially_signed_txs.push(psbt);
        proof {
            assert(self@.partially_signed_txs =~= cache_before.push(out@));
        }
        Ok(out)
    }

    /// Applies this wallet's own signatures to a cached PSBT and persists
    /// the result. Signing is deterministic, so re-signing an already
    /// signed PSBT reproduces it.
    pub fn sign_psbt(&mut self, store: &mut Store, uuid: &str) -> (r: Result<Psbt, OhmError>)
        requires
            old(store)@.wf(),
        ensures
            final(store)@.wf(),
            final(store)@.wallets == old(store)@.wallets,
            final(store)@.cosigners == old(store)@.cosigners,
            r matches Err(_) ==> final(self)@ == old(self)@ && final(store)@ == old(store)@,
            r == Err::<Psbt, OhmError>(OhmError::NotFound) <== forall|i: int|
                0 <= i < old(self)@.partially_signed_txs.len() ==> (#[trigger] old(self)@.partially_signed_txs[i]).uuid != Some(uuid@),
            r is Ok <== (exists|i: int|
                0 <= i < old(self)@.partially_signed_txs.len() && (#[trigger] old(self)@.partially_signed_txs[i]).uuid == Some(uuid@)) && (forall|i: int|
                0 <= i < old(self)@.partially_signed_txs.len() && (#[trigger] old(self)@.partially_signed_txs[i]).uuid == Some(uuid@)
                    ==> crate::psbt_ops::sign_ok(
                        old(self)@.descriptors.receive_descriptor,
                        old(self)@.descriptors.change_descriptor,
                        old(self)@.network.spec_tag(),
                        old(self)@.partially_signed_txs[i].base64,
                    ) && has_wallet(
                        old(store)@.wallets,
                        old(self)@.partially_signed_txs[i].wallet,
                    )),
            r matches Ok(p) ==> exists|i: int|
                {
                    &&& 0 <= i < old(self)@.partially_signed_txs.len()
                    &&& (#[trigger] old(self)@.partially_signed_txs[i]).uuid == Some(uuid@)
                    &&& p@ == (crate::psbt::PsbtV {
                        base64: signed_psbt(
                            old(self)@.descriptors.receive_descriptor,
                            old(self)@.descriptors.change_descriptor,
                            old(self)@.network.spec_tag(),
                            old(self)@.partially_signed_txs[i].base64,
                        ),
                        uuid: p@.uuid,
                        ..old(self)@.partially_signed_txs[i]
                    })
                    &&& (old(self)@.partially_signed_txs[i].uuid is Some ==> p@.uuid == old(self)@.partially_signed_txs[i].uuid)
                    &&& psbt_tx(p@.base64) == psbt_tx(old(self)@.partially_signed_txs[i].base64)
                    &&& is_valid_psbt(p@.base64)
                    &&& final(self)@ == (WalletV {
                        partially_signed_txs: old(self)@.partially_signed_txs.update(i, p@),
                        ..old(self)@
                    })
                },
            r matches Ok(p) ==> (p@.uuid matches Some(pu) && (if crate::store::has_psbt(
                old(store)@.psbts,
                pu,
            ) {
                exists|j: int|
                    0 <= j < old(store)@.psbts.len() && (#[trigger] old(store)@.psbts[j]).uuid
                        == pu && final(store)@.psbts == old(store)@.psbts.update(
                        j,
                        final(store)@.psbts[j],
                    ) && crate::psbt::psbt_row_matches(final(store)@.psbts[j], pu, p@)
            } else {
                final(store)@.psbts.len() == old(store)@.psbts.len() + 1 && final(store)@.psbts
                    == old(store)@.psbts.push(final(store)@.psbts.last())
                    && crate::psbt::psbt_row_matches(final(store)@.psbts.last(), pu, p@)
            })),
    {
        let idx = match self.find_cached(uuid) {
            Some(i) => i,
            None => {
                return Err(OhmError::NotFound);
            },
        };
        let cached = &self.partially_signed_txs[idx];
        let signed = match crate::psbt_ops::psbt_sign(
            self.descriptors.receive_descriptor.as_str(),
            self.descriptors.change_descriptor.as_str(),
            self.network,
            cached.base64().as_str(),
        ) {
            Some(s) => s,
            None => {
                return Err(OhmError::Internal);
            },
        };
        if cached.uuid().is_none() {
            return Err(OhmError::Internal);
        }
        if store.wallet_index(cached.wallet().as_str()).is_none() {
            return Err(OhmError::NotFound);
        }
        let ghost cache_before = self@.partially_signed_txs;
        let entry = vstd::std_specs::vec::vec_index_mut(&mut self.partially_signed_txs, idx);
        entry.set_base64(signed);
        match entry.save(store) {
            Ok(_) => {},
            Err(_) => {
                // the entry is saved and its wallet row was just seen, so
                // the upsert cannot miss
                proof {
                    assert(false);
                }
                return Err(OhmError::Internal);
            },
        }
        let out = self.partially_signed_txs[idx].duplicate();
        proof {
            assert(self@.partially_signed_txs =~= cache_before.update(idx as int, out@));
        }
        Ok(out)
    }

    /// Merges another PSBT into a cached one and persists the result. The
    /// two must share one unsigned transaction.
    pub fn combine_psbt(&mut self, store: &mut Store, uuid: &str, other: &str) -> (r: Result<
        Psbt,
        OhmError,
    >)
        requires
            old(store)@.wf(),
        ensures
            final(store)@.wf(),
            final(store)@.wallets == old(store)@.wallets,
            final(store)@.cosigners == old(store)@.cosigners,
            r matches Err(_) ==> final(self)@ == old(self)@ && final(store)@ == old(store)@,
            r == Err::<Psbt, OhmError>(OhmError::NotFound) <== forall|i: int|
                0 <= i < old(self)@.partially_signed_txs.len() ==> (#[trigger] old(self)@.partially_signed_txs[i]).uuid != Some(uuid@),
            r is Ok <== (exists|i: int|
                0 <= i < old(self)@.partially_signed_txs.len() && (#[trigger] old(self)@.partially_signed_txs[i]).uuid == Some(uuid@)) && (forall|i: int|
                0 <= i < old(self)@.partially_signed_txs.len() && (#[trigger] old(self)@.partially_signed_txs[i]).uuid == Some(uuid@)
                    ==> crate::psbt_ops::combine_ok(
                        old(self)@.partially_signed_txs[i].base64,
                        other@,
                    ) && has_wallet(
                        old(store)@.wallets,
                        old(self)@.partially_signed_txs[i].wallet,
                    )),
            ((exists|i: int|
                0 <= i < old(self)@.partially_signed_txs.len() && (#[trigger] old(self)@.partially_signed_txs[i]).uuid == Some(uuid@)) && (forall|i: int|
                0 <= i < old(self)@.partially_signed_txs.len() && (#[trigger] old(self)@.partially_signed_txs[i]).uuid == Some(uuid@) ==> is_valid_psbt(
                    old(self)@.partially_signed_txs[i].base64,
                ) && is_valid_psbt(other@) && psbt_tx(old(self)@.partially_signed_txs[i].base64)
                    != psbt_tx(other@))) ==> r == Err::<Psbt, OhmError>(OhmError::Incompatible),
            r matches Ok(p) ==> exists|i: int|
                {
                    &&& 0 <= i < old(self)@.partially_signed_txs.len()
                    &&& (#[trigger] old(self)@.partially_signed_txs[i]).uuid == Some(uuid@)
                    &&& p@ == (crate::psbt::PsbtV {
                        base64: combined_psbt(
                            old(self)@.partially_signed_txs[i].base64,
                            other@,
                        ),
                        uuid: p@.uuid,
                        ..old(self)@.partially_signed_txs[i]
                    })
                    &&& (old(self)@.partially_signed_txs[i].uuid is Some ==> p@.uuid == old(self)@.partially_signed_txs[i].uuid)
                    &&& psbt_tx(p@.base64) == psbt_tx(old(self)@.partially_signed_txs[i].base64)
                    &&& is_valid_psbt(p@.base64)
                    &&& final(self)@ == (WalletV {
                        partially_signed_txs: old(self)@.partially_signed_txs.update(i, p@),
                        ..old(self)@
                    })
                },
            r matches Ok(p) ==> (p@.uuid matches Some(pu) && (if crate::store::has_psbt(
                old(store)@.psbts,
                pu,
            ) {
                exists|j: int|
                    0 <= j < old(store)@.psbts.len() && (#[trigger] old(store)@.psbts[j]).uuid
                        == pu && final(store)@.psbts == old(store)@.psbts.update(
                        j,
                        final(store)@.psbts[j],
                    ) && crate::psbt::psbt_row_matches(final(store)@.psbts[j], pu, p@)
            } else {
                final(store)@.psbts.len() == old(store)@.psbts.len() + 1 && final(store)@.psbts
                    == old(store)@.psbts.push(final(store)@.psbts.last())
                    && crate::psbt::psbt_row_matches(final(store)@.psbts.last(), pu, p@)
            })),
    {
        let idx = match self.find_cached(uuid) {
            Some(i) => i,
            None => {
                return Err(OhmError::NotFound);
            },
        };
        let cached = &self.partially_signed_txs[idx];
        let combined = match crate::psbt_ops::psbt_combine(cached.base64().as_str(), other) {
            Some(s) => s,
            None => {
                return Err(OhmError::Incompatible);
            },
        };
        if cached.uuid().is_none() {
            return Err(OhmError::Internal);
        }
        if store.wallet_index(cached.wallet().as_str()).is_none() {
            return Err(OhmError::NotFound);
        }
        let ghost cache_before = self@.partially_signed_txs;
        let entry = vstd::std_specs::vec::vec_index_mut(&mut self.partially_signed_txs, idx);
        entry.set_base64(combined);
        match entry.save(store) {
            Ok(_) => {},
            Err(_) => {
                // the entry is saved and its wallet row was just seen, so
                // the upsert cannot miss
                proof {
                    assert(false);
                }
                return Err(OhmError::Internal);
            },
        }
        let out = self.partially_signed_txs[idx].duplicate();
        proof {
            assert(self@.partially_signed_txs =~= cache_before.update(idx as int, out@));
        }
        Ok(out)
    }
}

} // verus!
