use vstd::prelude::*;

use crate::errors::OhmError;
use crate::ident::{email_ok, is_valid_email, is_valid_uuid, new_uuid, now_ts};
use crate::keys::{derive_xpub, generate_xprv, is_valid_xprv, is_valid_xpub, xpub_of, xpub_ok};
use crate::store::{
    cosigner_rows_view, filter_cosigners, has_cosigner, opt_str_view, opt_view, CosignerRow,
    CosignerRowV, Store, StoreV,
};
use crate::types::{CosignerType, Network};

verus! {

/// A participant in one or more wallets: either the service-owned key pair
/// of a wallet (internal) or a human party known by email and xpub
/// (external).
pub struct Cosigner {
    uuid: Option<String>,
    kind: CosignerType,
    email_address: Option<String>,
    xpub: String,
    xprv: Option<String>,
    wallet: Option<String>,
}

/// The mathematical value of a [`Cosigner`].
pub struct CosignerV {
    pub uuid: Option<Seq<char>>,
    pub kind: CosignerType,
    pub email_address: Option<Seq<char>>,
    pub xpub: Seq<char>,
    pub xprv: Option<Seq<char>>,
    pub wallet: Option<Seq<char>>,
}

impl View for Cosigner {
    type V = CosignerV;

    closed spec fn view(&self) -> CosignerV {
        CosignerV {
            uuid: opt_view(self.uuid),
            kind: self.kind,
            email_address: opt_view(self.email_address),
            xpub: self.xpub@,
            xprv: opt_view(self.xprv),
            wallet: opt_view(self.wallet),
        }
    }
}

impl CosignerV {
    /// The tag partitions key material: internal holds the xprv, external
    /// never does and never carries a wallet linkage.
    pub open spec fn wf(self) -> bool {
        &&& (self.kind == CosignerType::Internal <==> self.xprv is Some)
        &&& (self.kind == CosignerType::External ==> self.wallet is None)
    }
}

/// The in-memory cosigner a stored row denotes.
pub open spec fn cosigner_of_row(r: CosignerRowV) -> CosignerV {
    CosignerV {
        uuid: Some(r.uuid),
        kind: r.kind,
        email_address: r.email_address,
        xpub: r.xpub,
        xprv: r.xprv,
        wallet: r.wallet_uuid,
    }
}

pub open spec fn cosigners_of_rows(rows: Seq<CosignerRowV>) -> Seq<CosignerV> {
    rows.map_values(|r: CosignerRowV| cosigner_of_row(r))
}

pub open spec fn cosigners_view(cs: Seq<Cosigner>) -> Seq<CosignerV> {
    cs.map_values(|c: Cosigner| c@)
}

/// How a saved row reflects the in-memory cosigner: every field carried
/// over, no wallet linkage, and the catalog's own timestamp.
pub open spec fn saved_row_matches(row: CosignerRowV, uuid: Seq<char>, c: CosignerV) -> bool {
    &&& row.uuid == uuid
    &&& row.kind == c.kind
    &&& row.email_address == c.email_address
    &&& row.xpub == c.xpub
    &&& row.xprv == c.xprv
    &&& row.wallet_uuid is None
}

/// Whether the inputs to the constructor are rejected outright.
pub open spec fn cosigner_new_invalid(
    kind: CosignerType,
    email: Option<Seq<char>>,
    xpub: Option<Seq<char>>,
    network: Option<Network>,
) -> bool {
    ||| (kind == CosignerType::Internal && network is None)
    ||| (kind == CosignerType::External && xpub is None)
    ||| (kind == CosignerType::External && (xpub matches Some(x) && !is_valid_xpub(x)))
    ||| (email matches Some(e) && !is_valid_email(e))
}

impl Cosigner {
    /// Builds a cosigner. An internal one needs a network: a fresh key pair
    /// is generated for it. An external one needs a (valid) xpub and no key
    /// is generated.
    pub fn new(
        kind: CosignerType,
        email_address: Option<String>,
        xpub: Option<String>,
        network: Option<Network>,
    ) -> (r: Result<Cosigner, OhmError>)
        ensures
            r == Err::<Cosigner, OhmError>(OhmError::InvalidArgument) <==> cosigner_new_invalid(
                kind,
                opt_view(email_address),
                opt_view(xpub),
                network,
            ),
            !cosigner_new_invalid(kind, opt_view(email_address), opt_view(xpub), network) ==> (r
                matches Ok(_) || r == Err::<Cosigner, OhmError>(OhmError::Internal)),
            kind == CosignerType::External && !cosigner_new_invalid(
                kind,
                opt_view(email_address),
                opt_view(xpub),
                network,
            ) ==> r is Ok,
            r matches Ok(c) ==> {
                &&& c@.wf()
                &&& c@.uuid is None
                &&& c@.wallet is None
                &&& c@.kind == kind
                &&& c@.email_address == opt_view(email_address)
                &&& (kind == CosignerType::External ==> Some(c@.xpub) == opt_view(xpub)
                    && c@.xprv is None)
                &&& (kind == CosignerType::Internal ==> (c@.xprv matches Some(k) && is_valid_xprv(
                    k,
                ) && c@.xpub == xpub_of(k) && is_valid_xpub(c@.xpub)))
            },
    {
        if let Some(e) = &email_address {
            if !email_ok(e.as_str()) {
                return Err(OhmError::InvalidArgument);
            }
        }
        match kind {
            CosignerType::Internal => {
                let net = match network {
                    Some(n) => n,
                    None => {
                        return Err(OhmError::InvalidArgument);
                    },
                };
                let xprv = match generate_xprv(net) {
                    Some(k) => k,
                    None => {
                        return Err(OhmError::Internal);
                    },
                };
                let xpub_s = match derive_xpub(xprv.as_str()) {
                    Some(p) => p,
                    None => {
                        return Err(OhmError::Internal);
                    },
                };
                Ok(Cosigner {
                    uuid: None,
                    kind,
                    email_address,
                    xpub: xpub_s,
                    xprv: Some(xprv),
                    wallet: None,
                })
            },
            CosignerType::External => {
                let x = match xpub {
                    Some(x) => x,
                    None => {
                        return Err(OhmError::InvalidArgument);
                    },
                };
                if !xpub_ok(x.as_str()) {
                    return Err(OhmError::InvalidArgument);
                }
                Ok(Cosigner {
                    uuid: None,
                    kind,
                    email_address,
                    xpub: x,
                    xprv: None,
                    wallet: None,
                })
            },
        }
    }

    pub fn type_(&self) -> (r: CosignerType)
        ensures
            r == self@.kind,
    {
        self.kind
    }

    pub fn email_address(&self) -> (r: &Option<String>)
        ensures
            opt_view(*r) == self@.email_address,
    {
        &self.email_address
    }

    pub fn uuid(&self) -> (r: Option<&str>)
        ensures
            opt_str_view(r) == self@.uuid,
    {
        match &self.uuid {
            Some(u) => Some(u.as_str()),
            None => None,
        }
    }

    pub fn xpub(&self) -> (r: &String)
        ensures
            r@ == self@.xpub,
    {
        &self.xpub
    }

    pub fn xprv(&self) -> (r: &Option<String>)
        ensures
            opt_view(*r) == self@.xprv,
    {
        &self.xprv
    }

    pub fn wallet(&self) -> (r: &Option<String>)
        ensures
            opt_view(*r) == self@.wallet,
    {
        &self.wallet
    }

    /// Binds the persisted identity of the cosigner. Used by the wallet
    /// save, which persists its internal cosigner row itself.
    pub(crate) fn set_uuid(&mut self, uuid: String)
        ensures
            final(self)@ == (CosignerV { uuid: Some(uuid@), ..old(self)@ }),
    {
        self.uuid = Some(uuid);
    }

    /// Binds the cosigner to a wallet. The linkage is once-settable.
    pub fn set_wallet(&mut self, uuid: String) -> (r: Result<(), OhmError>)
        ensures
            old(self)@.wallet is Some ==> r == Err::<(), OhmError>(OhmError::AlreadyBound)
                && final(self)@ == old(self)@,
            old(self)@.wallet is None ==> r is Ok && final(self)@ == (CosignerV {
                wallet: Some(uuid@),
                ..old(self)@
            }),
    {
        match &self.wallet {
            Some(_) => Err(OhmError::AlreadyBound),
            None => {
                self.wallet = Some(uuid);
                Ok(())
            },
        }
    }

    /// Upserts the cosigner. On first save a fresh UUID is drawn and bound
    /// to the entity. Only unbound cosigners can be saved this way: the
    /// wallet-linked internal row of a wallet is persisted by the wallet's
    /// own save, and replacing it here would break the catalog.
    pub fn save(&mut self, store: &mut Store) -> (r: Result<(), OhmError>)
        requires
            old(self)@.wf(),
            old(store)@.wf(),
        ensures
            final(store)@.wf(),
            final(self)@.wf(),
            final(store)@.wallets == old(store)@.wallets,
            final(store)@.psbts == old(store)@.psbts,
            r == Err::<(), OhmError>(OhmError::InvalidArgument) <==> (old(self)@.wallet is Some
                || (old(self)@.uuid matches Some(u) && exists|i: int|
                0 <= i < old(store)@.cosigners.len() && (#[trigger] old(store)@.cosigners[i]).uuid
                    == u && old(store)@.cosigners[i].wallet_uuid is Some)),
            old(self)@.wallet is None && (old(self)@.uuid matches Some(u) && !(exists|i: int|
                0 <= i < old(store)@.cosigners.len() && (#[trigger] old(store)@.cosigners[i]).uuid
                    == u && old(store)@.cosigners[i].wallet_uuid is Some)) ==> r is Ok,
            old(self)@.wallet is None && old(self)@.uuid is None ==> (r is Ok || r == Err::<
                (),
                OhmError,
            >(OhmError::Internal)),
            r matches Err(_) ==> final(self)@ == old(self)@ && final(store)@ == old(store)@,
            r is Ok ==> final(self)@.uuid is Some && (final(self)@ == (CosignerV {
                uuid: final(self)@.uuid,
                ..old(self)@
            })) && (old(self)@.uuid is Some ==> final(self)@.uuid == old(self)@.uuid),
            r is Ok && old(self)@.uuid is None ==> (final(self)@.uuid matches Some(u)
                && is_valid_uuid(u) && !has_cosigner(old(store)@.cosigners, u)),
            r is Ok ==> (final(self)@.uuid matches Some(u) && (if has_cosigner(
                old(store)@.cosigners,
                u,
            ) {
                exists|i: int|
                    0 <= i < old(store)@.cosigners.len() && (#[trigger] old(store)@.cosigners[i]).uuid == u && final(store)@.cosigners == old(store)@.cosigners.update(i, final(store)@.cosigners[i]) && saved_row_matches(
                        final(store)@.cosigners[i],
                        u,
                        old(self)@,
                    )
            } else {
                final(store)@.cosigners.len() == old(store)@.cosigners.len() + 1 && final(store)@.cosigners == old(store)@.cosigners.push(final(store)@.cosigners.last())
                    && saved_row_matches(final(store)@.cosigners.last(), u, old(self)@)
            })),
    {
        if self.wallet.is_some() {
            return Err(OhmError::InvalidArgument);
        }
        let uuid = match &self.uuid {
            Some(u) => {
                let u2 = u.clone();
                // A stored row with this UUID may only be replaced if it is
                // unbound too; a bound row is owned by its wallet. An
                // unbound entity can never legitimately alias a bound row,
                // so this lookup only guards the catalog invariant.
                match store.cosigner_index(u2.as_str()) {
                    Some(i) => {
                        let row = store.cosigner_at(i);
                        if row.wallet_uuid.is_some() {
                            return Err(OhmError::InvalidArgument);
                        }
                    },
                    None => {},
                }
                u2
            },
            None => {
                let fresh = new_uuid();
                if store.cosigner_index(fresh.as_str()).is_some() {
                    return Err(OhmError::Internal);
                }
                fresh
            },
        };
        let row = CosignerRow {
            uuid: uuid.clone(),
            kind: self.kind,
            email_address: crate::store::clone_opt_string(&self.email_address),
            xpub: self.xpub.clone(),
            xprv: crate::store::clone_opt_string(&self.xprv),
            wallet_uuid: None,
            creation_time: now_ts(),
        };
        let ghost row_v = row@;
        let ghost before = store@;
        store.upsert_cosigner(row);
        proof {
            if has_cosigner(before.cosigners, row_v.uuid) {
                let i = choose|i: int|
                    0 <= i < before.cosigners.len() && (#[trigger] before.cosigners[i]).uuid
                        == row_v.uuid && store@.cosigners == before.cosigners.update(i, row_v);
                assert forall|a: int|
                    0 <= a < store@.cosigners.len() implies crate::store::cosigner_row_ok(
                    #[trigger] store@.cosigners[a],
                ) by {
                    if a != i {
                        assert(store@.cosigners[a] == before.cosigners[a]);
                    }
                }
                assert forall|a: int|
                    0 <= a < store@.wallets.len() implies crate::store::exactly_one_internal(
                    store@.cosigners,
                    (#[trigger] store@.wallets[a]).uuid,
                ) by {
                    let w = store@.wallets[a].uuid;
                    let k = choose|k: int|
                        0 <= k < before.cosigners.len() && crate::store::internal_for(
                            #[trigger] before.cosigners[k],
                            w,
                        ) && (forall|j: int|
                            0 <= j < before.cosigners.len() && crate::store::internal_for(
                                #[trigger] before.cosigners[j],
                                w,
                            ) ==> j == k);
                    assert(!crate::store::internal_for(before.cosigners[i], w));
                    assert(k != i);
                    assert(store@.cosigners[k] == before.cosigners[k]);
                    assert forall|j: int|
                        0 <= j < store@.cosigners.len() && crate::store::internal_for(
                            #[trigger] store@.cosigners[j],
                            w,
                        ) implies j == k by {
                        if j != i {
                            assert(store@.cosigners[j] == before.cosigners[j]);
                        }
                    }
                }
            } else {
                let n = before.cosigners.len() as int;
                assert forall|a: int|
                    0 <= a < store@.cosigners.len() implies crate::store::cosigner_row_ok(
                    #[trigger] store@.cosigners[a],
                ) by {
                    if a < n {
                        assert(store@.cosigners[a] == before.cosigners[a]);
                    }
                }
                assert forall|a: int|
                    0 <= a < store@.wallets.len() implies crate::store::exactly_one_internal(
                    store@.cosigners,
                    (#[trigger] store@.wallets[a]).uuid,
                ) by {
                    let w = store@.wallets[a].uuid;
                    let k = choose|k: int|
                        0 <= k < before.cosigners.len() && crate::store::internal_for(
                            #[trigger] before.cosigners[k],
                            w,
                        ) && (forall|j: int|
                            0 <= j < before.cosigners.len() && crate::store::internal_for(
                                #[trigger] before.cosigners[j],
                                w,
                            ) ==> j == k);
                    assert(crate::store::internal_for(store@.cosigners[k], w));
                    assert forall|j: int|
                        0 <= j < store@.cosigners.len() && crate::store::internal_for(
                            #[trigger] store@.cosigners[j],
                            w,
                        ) implies j == k by {
                        if j < n {
                            assert(store@.cosigners[j] == before.cosigners[j]);
                        }
                    }
                }
            }
        }
        if self.uuid.is_none() {
            self.uuid = Some(uuid);
        }
        Ok(())
    }

    /// All cosigners matching the conjunction of the supplied filters.
    pub fn find(
        store: &Store,
        uuid: Option<&str>,
        email_address: Option<&str>,
        xpub: Option<&str>,
        wallet: Option<&str>,
    ) -> (r: Result<Vec<Cosigner>, OhmError>)
        ensures
            r matches Ok(cs) && cosigners_view(cs@) == cosigners_of_rows(
                filter_cosigners(
                    store@.cosigners,
                    opt_str_view(uuid),
                    opt_str_view(email_address),
                    opt_str_view(xpub),
                    opt_str_view(wallet),
                ),
            ),
    {
        let rows = store.find_cosigners(uuid, email_address, xpub, wallet);
        let ghost rows_v = cosigner_rows_view(rows@);
        let n = rows.len();
        let mut out: Vec<Cosigner> = Vec::new();
        let mut i: usize = 0;
        proof {
            assert(cosigners_view(out@) =~= cosigners_of_rows(rows_v.take(0)));
        }
        while i < n
            invariant
                n == rows@.len(),
                i <= n,
                rows_v == cosigner_rows_view(rows@),
                cosigners_view(out@) == cosigners_of_rows(rows_v.take(i as int)),
            decreases n - i,
        {
            let row = &rows[i];
            let ghost out_before = cosigners_view(out@);
            out.push(
                Cosigner {
                    uuid: Some(row.uuid.clone()),
                    kind: row.kind,
                    email_address: crate::store::clone_opt_string(&row.email_address),
                    xpub: row.xpub.clone(),
                    xprv: crate::store::clone_opt_string(&row.xprv),
                    wallet: crate::store::clone_opt_string(&row.wallet_uuid),
                },
            );
            proof {
                assert(cosigners_view(out@) =~= out_before.push(cosigner_of_row(
                    rows_v[i as int],
                )));
                assert(cosigners_of_rows(rows_v.take(i + 1)) =~= cosigners_of_rows(
                    rows_v.take(i as int),
                ).push(cosigner_of_row(rows_v[i as int])));
            }
            i += 1;
        }
        proof {
            assert(rows_v.take(n as int) =~= rows_v);
        }
        Ok(out)
    }

    /// The first cosigner matching the UUID filter, if any.
    pub fn from_db(store: &Store, uuid: Option<&str>) -> (r: Result<Option<Cosigner>, OhmError>)
        ensures
            r matches Ok(c) && {
                let rows = filter_cosigners(
                    store@.cosigners,
                    opt_str_view(uuid),
                    None,
                    None,
                    None,
                );
                match c {
                    Some(c) => rows.len() > 0 && c@ == cosigner_of_row(rows[0]),
                    None => rows.len() == 0,
                }
            },
    {
        let ghost rowsv = filter_cosigners(store@.cosigners, opt_str_view(uuid), None, None, None);
        let mut found = match Self::find(store, uuid, None, None, None) {
            Ok(f) => f,
            Err(e) => {
                return Err(e);
            },
        };
        proof {
            assert(cosigners_view(found@) == cosigners_of_rows(rowsv));
            assert(found@.len() == rowsv.len());
        }
        if found.len() == 0 {
            Ok(None)
        } else {
            let ghost fv = cosigners_view(found@);
            let first = found.remove(0);
            proof {
                assert(first@ == fv[0]);
                assert(fv[0] == cosigner_of_row(rowsv[0]));
            }
            Ok(Some(first))
        }
    }

    /// Deletes the cosigner row, if it was saved. The wallet-linked
    /// internal row of a wallet cannot be removed this way: it goes with
    /// its wallet cascade.
    pub fn remove(&mut self, store: &mut Store) -> (r: Result<(), OhmError>)
        requires
            old(store)@.wf(),
        ensures
            final(store)@.wf(),
            final(store)@.wallets == old(store)@.wallets,
            final(store)@.psbts == old(store)@.psbts,
            old(self)@.uuid is None ==> r is Ok && final(self)@ == old(self)@ && final(store)@
                == old(store)@,
            old(self)@.uuid matches Some(u) ==> {
                if exists|i: int|
                    0 <= i < old(store)@.cosigners.len() && (#[trigger] old(store)@.cosigners[i]).uuid == u && old(store)@.cosigners[i].wallet_uuid is Some {
                    r == Err::<(), OhmError>(OhmError::InvalidArgument) && final(self)@ == old(self)@ && final(store)@ == old(store)@
                } else {
                    r is Ok && final(self)@ == (CosignerV { uuid: None, ..old(self)@ }) && final(store)@.cosigners == crate::store::drop_cosigner(old(store)@.cosigners, u)
                }
            },
    {
        let uuid = match &self.uuid {
            Some(u) => u.clone(),
            None => {
                return Ok(());
            },
        };
        match store.cosigner_index(uuid.as_str()) {
            Some(i) => {
                let row = store.cosigner_at(i);
                if row.wallet_uuid.is_some() {
                    return Err(OhmError::InvalidArgument);
                }
                proof {
                    assert forall|j: int|
                        0 <= j < store@.cosigners.len() && (#[trigger] store@.cosigners[j]).uuid
                            == uuid@ implies store@.cosigners[j].wallet_uuid is None by {
                        if j < i as int {
                            assert(store@.cosigners[j].uuid != store@.cosigners[i as int].uuid);
                        } else if j > i as int {
                            assert(store@.cosigners[i as int].uuid != store@.cosigners[j].uuid);
                        }
                    }
                }
            },
            None => {},
        }
        proof {
            assert(forall|j: int|
                0 <= j < store@.cosigners.len() && (#[trigger] store@.cosigners[j]).uuid == uuid@
                    ==> store@.cosigners[j].wallet_uuid is None);
        }
        let ghost before = store@;
        store.remove_cosigner(uuid.as_str());
        proof {
            lemma_remove_unbound_wf(before, store@, uuid@);
        }
        self.uuid = None;
        Ok(())
    }
}

/// After upserting an unbound cosigner row into a consistent catalog, the
/// catalog is consistent again.
proof fn lemma_upsert_unbound_wf(before: StoreV, after: StoreV, row: CosignerRowV)
    requires
        before.wf(),
        row.kind == CosignerType::Internal <==> row.xprv is Some,
        row.wallet_uuid is None,
        forall|j: int|
            0 <= j < before.cosigners.len() && (#[trigger] before.cosigners[j]).uuid == row.uuid
                ==> before.cosigners[j].wallet_uuid is None,
        after.wallets == before.wallets,
        after.psbts == before.psbts,
        if has_cosigner(before.cosigners, row.uuid) {
            exists|i: int|
                0 <= i < before.cosigners.len() && (#[trigger] before.cosigners[i]).uuid
                    == row.uuid && after.cosigners == before.cosigners.update(i, row)
        } else {
            after.cosigners == before.cosigners.push(row)
        },
    ensures
        after.wf(),
{
    if has_cosigner(before.cosigners, row.uuid) {
        let i = choose|i: int|
            0 <= i < before.cosigners.len() && (#[trigger] before.cosigners[i]).uuid == row.uuid
                && after.cosigners == before.cosigners.update(i, row);
        assert forall|a: int, b: int| 0 <= a < b < after.cosigners.len() implies (
        #[trigger] after.cosigners[a]).uuid != (#[trigger] after.cosigners[b]).uuid by {
            assert(before.cosigners[a].uuid != before.cosigners[b].uuid);
        }
        assert forall|a: int|
            0 <= a < after.wallets.len() implies crate::store::exactly_one_internal(
            after.cosigners,
            (#[trigger] after.wallets[a]).uuid,
        ) by {
            let w = after.wallets[a].uuid;
            let k = choose|k: int|
                0 <= k < before.cosigners.len() && crate::store::internal_for(
                    #[trigger] before.cosigners[k],
                    w,
                ) && (forall|j: int|
                    0 <= j < before.cosigners.len() && crate::store::internal_for(
                        #[trigger] before.cosigners[j],
                        w,
                    ) ==> j == k);
            assert(!crate::store::internal_for(before.cosigners[i], w));
            assert(k != i);
            assert(after.cosigners[k] == before.cosigners[k]);
            assert forall|j: int|
                0 <= j < after.cosigners.len() && crate::store::internal_for(
                    #[trigger] after.cosigners[j],
                    w,
                ) implies j == k by {
                if j != i {
                    assert(after.cosigners[j] == before.cosigners[j]);
                }
            }
        }
    } else {
        let n = before.cosigners.len() as int;
        assert forall|a: int, b: int| 0 <= a < b < after.cosigners.len() implies (
        #[trigger] after.cosigners[a]).uuid != (#[trigger] after.cosigners[b]).uuid by {
            if b < n {
                assert(before.cosigners[a].uuid != before.cosigners[b].uuid);
            } else {
                assert(after.cosigners[b] == row);
                assert(after.cosigners[a] == before.cosigners[a]);
                assert(!has_cosigner(before.cosigners, row.uuid));
            }
        }
        assert forall|a: int|
            0 <= a < after.wallets.len() implies crate::store::exactly_one_internal(
            after.cosigners,
            (#[trigger] after.wallets[a]).uuid,
        ) by {
            let w = after.wallets[a].uuid;
            let k = choose|k: int|
                0 <= k < before.cosigners.len() && crate::store::internal_for(
                    #[trigger] before.cosigners[k],
                    w,
                ) && (forall|j: int|
                    0 <= j < before.cosigners.len() && crate::store::internal_for(
                        #[trigger] before.cosigners[j],
                        w,
                    ) ==> j == k);
            assert(crate::store::internal_for(after.cosigners[k], w));
            assert forall|j: int|
                0 <= j < after.cosigners.len() && crate::store::internal_for(
                    #[trigger] after.cosigners[j],
                    w,
                ) implies j == k by {
                if j < n {
                    assert(after.cosigners[j] == before.cosigners[j]);
                }
            }
        }
    }
}

/// After deleting an unbound cosigner row from a consistent catalog, the
/// catalog is consistent again.
proof fn lemma_remove_unbound_wf(before: StoreV, after: StoreV, uuid: Seq<char>)
    requires
        before.wf(),
        forall|j: int|
            0 <= j < before.cosigners.len() && (#[trigger] before.cosigners[j]).uuid == uuid
                ==> before.cosigners[j].wallet_uuid is None,
        after.wallets == before.wallets,
        after.psbts == before.psbts,
        after.cosigners == crate::store::drop_cosigner(before.cosigners, uuid),
    ensures
        after.wf(),
{
    let pred = |c: CosignerRowV| c.uuid != uuid;
    crate::store::lemma_unique_cosigners_filter(before.cosigners, pred);
    crate::store::lemma_filter_subset(before.cosigners, pred);
    assert forall|a: int|
        0 <= a < after.cosigners.len() implies crate::store::cosigner_row_ok(
        #[trigger] after.cosigners[a],
    ) && ((#[trigger] after.cosigners[a]).wallet_uuid matches Some(w)
        ==> crate::store::has_wallet(after.wallets, w)) by {
        assert(before.cosigners.contains(after.cosigners[a]));
        let j = choose|j: int|
            0 <= j < before.cosigners.len() && before.cosigners[j] == after.cosigners[a];
        assert(crate::store::cosigner_row_ok(before.cosigners[j]));
    }
    assert forall|a: int|
        0 <= a < after.wallets.len() implies crate::store::exactly_one_internal(
        after.cosigners,
        (#[trigger] after.wallets[a]).uuid,
    ) by {
        let w = after.wallets[a].uuid;
        assert forall|i: int|
            0 <= i < before.cosigners.len() && crate::store::internal_for(
                #[trigger] before.cosigners[i],
                w,
            ) implies pred(before.cosigners[i]) by {
            if before.cosigners[i].uuid == uuid {
                assert(before.cosigners[i].wallet_uuid is None);
            }
        }
        crate::store::lemma_exactly_one_internal_filter(before.cosigners, w, pred);
    }
}

} // verus!
