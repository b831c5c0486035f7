use vstd::prelude::*;

use crate::errors::OhmError;
use crate::ident::{is_valid_uuid, new_uuid, now_ts};
use crate::psbt_ops::{is_valid_psbt, psbt_norm, psbt_normalize};
use crate::store::{
    filter_psbts, has_psbt, has_wallet, opt_str_view, opt_view, psbt_rows_view, PsbtRow, PsbtRowV,
    Store, StoreV,
};

verus! {

/// A candidate or in-flight transaction of a wallet. The canonical form is
/// the base64 serialization; the chain library re-parses it on demand.
pub struct Psbt {
    uuid: Option<String>,
    base64: String,
    wallet: String,
}

/// The mathematical value of a [`Psbt`].
pub struct PsbtV {
    pub uuid: Option<Seq<char>>,
    pub base64: Seq<char>,
    pub wallet: Seq<char>,
}

impl View for Psbt {
    type V = PsbtV;

    closed spec fn view(&self) -> PsbtV {
        PsbtV { uuid: opt_view(self.uuid), base64: self.base64@, wallet: self.wallet@ }
    }
}

/// The in-memory PSBT a stored row denotes.
pub open spec fn psbt_of_row(r: PsbtRowV) -> PsbtV {
    PsbtV { uuid: Some(r.uuid), base64: r.base64, wallet: r.wallet_uuid }
}

pub open spec fn psbts_of_rows(rows: Seq<PsbtRowV>) -> Seq<PsbtV> {
    rows.map_values(|r: PsbtRowV| psbt_of_row(r))
}

pub open spec fn psbts_view(ps: Seq<Psbt>) -> Seq<PsbtV> {
    ps.map_values(|p: Psbt| p@)
}

/// How a saved row reflects the in-memory PSBT.
pub open spec fn psbt_row_matches(row: PsbtRowV, uuid: Seq<char>, p: PsbtV) -> bool {
    &&& row.uuid == uuid
    &&& row.base64 == p.base64
    &&& row.wallet_uuid == p.wallet
}

impl Psbt {
    /// Wraps a PSBT base64 string for a parent wallet. The string must
    /// parse; it is stored in its canonical re-serialized form.
    pub fn new(base64: &str, wallet: String) -> (r: Result<Psbt, OhmError>)
        ensures
            r is Ok <==> is_valid_psbt(base64@),
            !is_valid_psbt(base64@) ==> r == Err::<Psbt, OhmError>(OhmError::InvalidArgument),
            r matches Ok(p) ==> p@.uuid is None && p@.base64 == psbt_norm(base64@)
                && is_valid_psbt(p@.base64) && p@.wallet == wallet@,
    {
        match psbt_normalize(base64) {
            Some(canonical) => Ok(Psbt { uuid: None, base64: canonical, wallet }),
            None => Err(OhmError::InvalidArgument),
        }
    }

    /// A field-for-field copy of the entity.
    pub fn duplicate(&self) -> (r: Psbt)
        ensures
            r@ == self@,
    {
        Psbt {
            uuid: crate::store::clone_opt_string(&self.uuid),
            base64: self.base64.clone(),
            wallet: self.wallet.clone(),
        }
    }

    /// The canonical base64 of the current contents.
    pub fn base64(&self) -> (r: String)
        ensures
            r@ == self@.base64,
    {
        self.base64.clone()
    }

    /// Replaces the contents with an already-canonical base64 rendering.
    pub fn set_base64(&mut self, base64: String)
        ensures
            final(self)@ == (PsbtV { base64: base64@, ..old(self)@ }),
    {
        self.base64 = base64;
    }

    pub fn wallet(&self) -> (r: &String)
        ensures
            r@ == self@.wallet,
    {
        &self.wallet
    }

    pub fn uuid(&self) -> (r: Option<&str>)
        ensures
            opt_str_view(r) == self@.uuid,
    {
        match &self.uuid {
            Some(u) => Some(u.as_str()),
            None => None,
        }
    }

    /// Upserts the PSBT. On first save a fresh UUID is drawn and bound to
    /// the entity. The parent wallet must exist in the catalog.
    pub fn save(&mut self, store: &mut Store) -> (r: Result<(), OhmError>)
        requires
            old(store)@.wf(),
        ensures
            final(store)@.wf(),
            final(store)@.wallets == old(store)@.wallets,
            final(store)@.cosigners == old(store)@.cosigners,
            r == Err::<(), OhmError>(OhmError::NotFound) <==> !has_wallet(
                old(store)@.wallets,
                old(self)@.wallet,
            ),
            old(self)@.uuid is Some && has_wallet(old(store)@.wallets, old(self)@.wallet) ==> r
                is Ok,
            r is Ok || r == Err::<(), OhmError>(OhmError::NotFound) || r == Err::<(), OhmError>(
                OhmError::Internal,
            ),
            r is Ok && old(self)@.uuid is None ==> (final(self)@.uuid matches Some(u)
                && !has_psbt(old(store)@.psbts, u)),
            r matches Err(_) ==> final(self)@ == old(self)@ && final(store)@ == old(store)@,
            r is Ok ==> final(self)@ == (PsbtV { uuid: final(self)@.uuid, ..old(self)@ }) && (old(
                self,
            )@.uuid is Some ==> final(self)@.uuid == old(self)@.uuid),
            r is Ok && old(self)@.uuid is None ==> (final(self)@.uuid matches Some(u)
                && is_valid_uuid(u)),
            r is Ok ==> (final(self)@.uuid matches Some(u) && (if has_psbt(
                old(store)@.psbts,
                u,
            ) {
                exists|i: int|
                    0 <= i < old(store)@.psbts.len() && (#[trigger] old(store)@.psbts[i]).uuid == u
                        && final(store)@.psbts == old(store)@.psbts.update(
                        i,
                        final(store)@.psbts[i],
                    ) && psbt_row_matches(final(store)@.psbts[i], u, old(self)@)
            } else {
                final(store)@.psbts.len() == old(store)@.psbts.len() + 1 && final(store)@.psbts
                    == old(store)@.psbts.push(final(store)@.psbts.last()) && psbt_row_matches(
                    final(store)@.psbts.last(),
                    u,
                    old(self)@,
                )
            })),
    {
        if store.wallet_index(self.wallet.as_str()).is_none() {
            return Err(OhmError::NotFound);
        }
        let uuid = match &self.uuid {
            Some(u) => u.clone(),
            None => {
                let fresh = new_uuid();
                if store.psbt_index(fresh.as_str()).is_some() {
                    return Err(OhmError::Internal);
                }
                fresh
            },
        };
        let row = PsbtRow {
            uuid: uuid.clone(),
            base64: self.base64.clone(),
            wallet_uuid: self.wallet.clone(),
            creation_time: now_ts(),
        };
        let ghost row_v = row@;
        let ghost before = store@;
        store.upsert_psbt(row);
        proof {
            if has_psbt(before.psbts, row_v.uuid) {
                let i = choose|i: int|
                    0 <= i < before.psbts.len() && (#[trigger] before.psbts[i]).uuid == row_v.uuid
                        && store@.psbts == before.psbts.update(i, row_v);
                assert(store@.psbts[i] == row_v);
                assert forall|a: int, b: int| 0 <= a < b < store@.psbts.len() implies (
                #[trigger] store@.psbts[a]).uuid != (#[trigger] store@.psbts[b]).uuid by {
                    assert(before.psbts[a].uuid != before.psbts[b].uuid);
                }
                assert forall|a: int| 0 <= a < store@.psbts.len() implies has_wallet(
                    store@.wallets,
                    (#[trigger] store@.psbts[a]).wallet_uuid,
                ) by {
                    if a != i {
                        assert(store@.psbts[a] == before.psbts[a]);
                    }
                }
            } else {
                let n = before.psbts.len() as int;
                assert(store@.psbts.last() == row_v);
                assert forall|a: int, b: int| 0 <= a < b < store@.psbts.len() implies (
                #[trigger] store@.psbts[a]).uuid != (#[trigger] store@.psbts[b]).uuid by {
                    if b < n {
                        assert(before.psbts[a].uuid != before.psbts[b].uuid);
                    } else {
                        assert(store@.psbts[a] == before.psbts[a]);
                        assert(!has_psbt(before.psbts, row_v.uuid));
                    }
                }
                assert forall|a: int| 0 <= a < store@.psbts.len() implies has_wallet(
                    store@.wallets,
                    (#[trigger] store@.psbts[a]).wallet_uuid,
                ) by {
                    if a < n {
                        assert(store@.psbts[a] == before.psbts[a]);
                    }
                }
            }
        }
        if self.uuid.is_none() {
            self.uuid = Some(uuid);
        }
        Ok(())
    }

    /// All PSBTs matching the conjunction of the supplied filters.
    pub fn find(store: &Store, uuid: Option<&str>, wallet: Option<&str>) -> (r: Result<
        Vec<Psbt>,
        OhmError,
    >)
        ensures
            r matches Ok(ps) && psbts_view(ps@) == psbts_of_rows(
                filter_psbts(store@.psbts, opt_str_view(uuid), opt_str_view(wallet)),
            ),
    {
        let rows = store.find_psbts(uuid, wallet);
        let ghost rows_v = psbt_rows_view(rows@);
        let n = rows.len();
        let mut out: Vec<Psbt> = Vec::new();
        let mut i: usize = 0;
        proof {
            assert(psbts_view(out@) =~= psbts_of_rows(rows_v.take(0)));
        }
        while i < n
            invariant
                n == rows@.len(),
                i <= n,
                rows_v == psbt_rows_view(rows@),
                psbts_view(out@) == psbts_of_rows(rows_v.take(i as int)),
            decreases n - i,
        {
            let row = &rows[i];
            let ghost out_before = psbts_view(out@);
            out.push(
                Psbt {
                    uuid: Some(row.uuid.clone()),
                    base64: row.base64.clone(),
                    wallet: row.wallet_uuid.clone(),
                },
            );
            proof {
                assert(psbts_view(out@) =~= out_before.push(psbt_of_row(rows_v[i as int])));
                assert(psbts_of_rows(rows_v.take(i + 1)) =~= psbts_of_rows(
                    rows_v.take(i as int),
                ).push(psbt_of_row(rows_v[i as int])));
            }
            i += 1;
        }
        proof {
            assert(rows_v.take(n as int) =~= rows_v);
        }
        Ok(out)
    }

    /// The first PSBT matching the UUID filter, if any.
    pub fn from_db(store: &Store, uuid: Option<&str>) -> (r: Result<Option<Psbt>, OhmError>)
        ensures
            r matches Ok(p) && {
                let rows = filter_psbts(store@.psbts, opt_str_view(uuid), None);
                match p {
                    Some(p) => rows.len() > 0 && p@ == psbt_of_row(rows[0]),
                    None => rows.len() == 0,
                }
            },
    {
        let ghost rowsv = filter_psbts(store@.psbts, opt_str_view(uuid), None);
        let mut found = match Self::find(store, uuid, None) {
            Ok(f) => f,
            Err(e) => {
                return Err(e);
            },
        };
        proof {
            assert(psbts_view(found@) == psbts_of_rows(rowsv));
            assert(found@.len() == rowsv.len());
        }
        if found.len() == 0 {
            Ok(None)
        } else {
            let ghost fv = psbts_view(found@);
            let first = found.remove(0);
            proof {
                assert(first@ == fv[0]);
                assert(fv[0] == psbt_of_row(rowsv[0]));
            }
            Ok(Some(first))
        }
    }

    /// Deletes the PSBT row, if it was saved.
    pub fn remove(&mut self, store: &mut Store) -> (r: Result<(), OhmError>)
        requires
            old(store)@.wf(),
        ensures
            final(store)@.wf(),
            r is Ok,
            final(store)@.wallets == old(store)@.wallets,
            final(store)@.cosigners == old(store)@.cosigners,
            final(self)@ == (PsbtV { uuid: None, ..old(self)@ }),
            old(self)@.uuid is None ==> final(store)@ == old(store)@,
            old(self)@.uuid matches Some(u) ==> final(store)@.psbts == crate::store::drop_psbt(
                old(store)@.psbts,
                u,
            ),
    {
        let uuid = match &self.uuid {
            Some(u) => u.clone(),
            None => {
                return Ok(());
            },
        };
        let ghost before = store@;
        store.remove_psbt(uuid.as_str());
        proof {
            let pred = |p: PsbtRowV| p.uuid != uuid@;
            crate::store::lemma_unique_psbts_filter(before.psbts, pred);
            crate::store::lemma_filter_subset(before.psbts, pred);
            assert forall|a: int| 0 <= a < store@.psbts.len() implies has_wallet(
                store@.wallets,
                (#[trigger] store@.psbts[a]).wallet_uuid,
            ) by {
                assert(before.psbts.contains(store@.psbts[a]));
                let j = choose|j: int|
                    0 <= j < before.psbts.len() && before.psbts[j] == store@.psbts[a];
                assert(has_wallet(before.wallets, before.psbts[j].wallet_uuid));
            }
        }
        self.uuid = None;
        Ok(())
    }
}

} // verus!
