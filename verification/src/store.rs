use vstd::prelude::*;

use crate::text::str_eq;
use crate::types::{AddressType, CosignerType, Network};

verus! {

/// The abstract value of an optional owned string.
pub open spec fn opt_view(o: Option<String>) -> Option<Seq<char>> {
    match o {
        Some(s) => Some(s@),
        None => None,
    }
}

pub open spec fn opt_str_view(o: Option<&str>) -> Option<Seq<char>> {
    match o {
        Some(s) => Some(s@),
        None => None,
    }
}

/// A row of the cosigner table.
pub struct CosignerRow {
    pub uuid: String,
    pub kind: CosignerType,
    pub email_address: Option<String>,
    pub xpub: String,
    pub xprv: Option<String>,
    pub wallet_uuid: Option<String>,
    pub creation_time: i64,
}

/// The mathematical value of a [`CosignerRow`].
pub struct CosignerRowV {
    pub uuid: Seq<char>,
    pub kind: CosignerType,
    pub email_address: Option<Seq<char>>,
    pub xpub: Seq<char>,
    pub xprv: Option<Seq<char>>,
    pub wallet_uuid: Option<Seq<char>>,
    pub creation_time: int,
}

impl View for CosignerRow {
    type V = CosignerRowV;

    open spec fn view(&self) -> CosignerRowV {
        CosignerRowV {
            uuid: self.uuid@,
            kind: self.kind,
            email_address: opt_view(self.email_address),
            xpub: self.xpub@,
            xprv: opt_view(self.xprv),
            wallet_uuid: opt_view(self.wallet_uuid),
            creation_time: self.creation_time as int,
        }
    }
}

/// A row of the wallet table.
pub struct WalletRow {
    pub uuid: String,
    pub address_type: AddressType,
    pub network: Network,
    pub receive_descriptor: String,
    pub receive_descriptor_watch_only: String,
    pub receive_address_index: u64,
    pub change_descriptor: String,
    pub change_descriptor_watch_only: String,
    pub change_address_index: u64,
    pub required_signatures: u64,
    pub balance: u64,
    pub creation_time: i64,
}

/// The mathematical value of a [`WalletRow`].
pub struct WalletRowV {
    pub uuid: Seq<char>,
    pub address_type: AddressType,
    pub network: Network,
    pub receive_descriptor: Seq<char>,
    pub receive_descriptor_watch_only: Seq<char>,
    pub receive_address_index: u64,
    pub change_descriptor: Seq<char>,
    pub change_descriptor_watch_only: Seq<char>,
    pub change_address_index: u64,
    pub required_signatures: u64,
    pub balance: u64,
    pub creation_time: int,
}

impl View for WalletRow {
    type V = WalletRowV;

    open spec fn view(&self) -> WalletRowV {
        WalletRowV {
            uuid: self.uuid@,
            address_type: self.address_type,
            network: self.network,
            receive_descriptor: self.receive_descriptor@,
            receive_descriptor_watch_only: self.receive_descriptor_watch_only@,
            receive_address_index: self.receive_address_index,
            change_descriptor: self.change_descriptor@,
            change_descriptor_watch_only: self.change_descriptor_watch_only@,
            change_address_index: self.change_address_index,
            required_signatures: self.required_signatures,
            balance: self.balance,
            creation_time: self.creation_time as int,
        }
    }
}

/// A row of the PSBT table.
pub struct PsbtRow {
    pub uuid: String,
    pub base64: String,
    pub wallet_uuid: String,
    pub creation_time: i64,
}

/// The mathematical value of a [`PsbtRow`].
pub struct PsbtRowV {
    pub uuid: Seq<char>,
    pub base64: Seq<char>,
    pub wallet_uuid: Seq<char>,
    pub creation_time: int,
}

impl View for PsbtRow {
    type V = PsbtRowV;

    open spec fn view(&self) -> PsbtRowV {
        PsbtRowV {
            uuid: self.uuid@,
            base64: self.base64@,
            wallet_uuid: self.wallet_uuid@,
            creation_time: self.creation_time as int,
        }
    }
}

pub open spec fn cosigner_rows_view(s: Seq<CosignerRow>) -> Seq<CosignerRowV> {
    s.map_values(|r: CosignerRow| r@)
}

pub open spec fn wallet_rows_view(s: Seq<WalletRow>) -> Seq<WalletRowV> {
    s.map_values(|r: WalletRow| r@)
}

pub open spec fn psbt_rows_view(s: Seq<PsbtRow>) -> Seq<PsbtRowV> {
    s.map_values(|r: PsbtRow| r@)
}

/// The abstract state of the catalog: three tables.
pub struct StoreV {
    pub cosigners: Seq<CosignerRowV>,
    pub wallets: Seq<WalletRowV>,
    pub psbts: Seq<PsbtRowV>,
}

/// The relational catalog of cosigners, wallets and PSBTs.
pub struct Store {
    cosigners: Vec<CosignerRow>,
    wallets: Vec<WalletRow>,
    psbts: Vec<PsbtRow>,
}

impl View for Store {
    type V = StoreV;

    closed spec fn view(&self) -> StoreV {
        StoreV {
            cosigners: cosigner_rows_view(self.cosigners@),
            wallets: wallet_rows_view(self.wallets@),
            psbts: psbt_rows_view(self.psbts@),
        }
    }
}

pub open spec fn has_cosigner(cs: Seq<CosignerRowV>, uuid: Seq<char>) -> bool {
    exists|i: int| 0 <= i < cs.len() && (#[trigger] cs[i]).uuid == uuid
}

pub open spec fn has_wallet(ws: Seq<WalletRowV>, uuid: Seq<char>) -> bool {
    exists|i: int| 0 <= i < ws.len() && (#[trigger] ws[i]).uuid == uuid
}

pub open spec fn has_psbt(ps: Seq<PsbtRowV>, uuid: Seq<char>) -> bool {
    exists|i: int| 0 <= i < ps.len() && (#[trigger] ps[i]).uuid == uuid
}

pub open spec fn unique_cosigner_uuids(cs: Seq<CosignerRowV>) -> bool {
    forall|i: int, j: int|
        0 <= i < j < cs.len() ==> (#[trigger] cs[i]).uuid != (#[trigger] cs[j]).uuid
}

pub open spec fn unique_wallet_uuids(ws: Seq<WalletRowV>) -> bool {
    forall|i: int, j: int|
        0 <= i < j < ws.len() ==> (#[trigger] ws[i]).uuid != (#[trigger] ws[j]).uuid
}

pub open spec fn unique_psbt_uuids(ps: Seq<PsbtRowV>) -> bool {
    forall|i: int, j: int|
        0 <= i < j < ps.len() ==> (#[trigger] ps[i]).uuid != (#[trigger] ps[j]).uuid
}

/// The per-row cosigner invariant: the type tag partitions key material.
/// An internal cosigner holds an xprv; an external one never does and never
/// carries a wallet linkage.
pub open spec fn cosigner_row_ok(c: CosignerRowV) -> bool {
    &&& (c.kind == CosignerType::Internal <==> c.xprv is Some)
    &&& (c.kind == CosignerType::External ==> c.wallet_uuid is None)
}

pub open spec fn internal_for(c: CosignerRowV, wallet_uuid: Seq<char>) -> bool {
    c.kind == CosignerType::Internal && c.wallet_uuid == Some(wallet_uuid)
}

/// Exactly one cosigner row is the internal key-holder of the wallet.
pub open spec fn exactly_one_internal(cs: Seq<CosignerRowV>, wallet_uuid: Seq<char>) -> bool {
    exists|i: int|
        0 <= i < cs.len() && internal_for(#[trigger] cs[i], wallet_uuid) && (forall|j: int|
            0 <= j < cs.len() && internal_for(#[trigger] cs[j], wallet_uuid) ==> j == i)
}

impl StoreV {
    /// The referential-integrity invariant of the catalog:
    /// - UUIDs are unique within each table;
    /// - every cosigner row satisfies [`cosigner_row_ok`];
    /// - a cosigner's wallet linkage refers to an existing wallet;
    /// - every wallet has exactly one internal cosigner bound to it;
    /// - every PSBT's parent wallet exists.
    pub open spec fn wf(self) -> bool {
        &&& unique_cosigner_uuids(self.cosigners)
        &&& unique_wallet_uuids(self.wallets)
        &&& unique_psbt_uuids(self.psbts)
        &&& forall|i: int| 0 <= i < self.cosigners.len() ==> cosigner_row_ok(#[trigger] self.cosigners[i])
        &&& forall|i: int|
            0 <= i < self.cosigners.len() ==> ((#[trigger] self.cosigners[i]).wallet_uuid matches
                Some(w) ==> has_wallet(self.wallets, w))
        &&& forall|i: int|
            0 <= i < self.wallets.len() ==> exactly_one_internal(
                self.cosigners,
                (#[trigger] self.wallets[i]).uuid,
            )
        &&& forall|i: int|
            0 <= i < self.psbts.len() ==> has_wallet(
                self.wallets,
                (#[trigger] self.psbts[i]).wallet_uuid,
            )
        &&& forall|i: int| 0 <= i < self.wallets.len() ==> (#[trigger] self.wallets[i]).required_signatures >= 1
    }
}

/// Conjunction of the supplied cosigner filters; absent filters match all.
pub open spec fn cosigner_matches(
    c: CosignerRowV,
    uuid: Option<Seq<char>>,
    email: Option<Seq<char>>,
    xpub: Option<Seq<char>>,
    wallet: Option<Seq<char>>,
) -> bool {
    &&& (uuid matches Some(u) ==> c.uuid == u)
    &&& (email matches Some(e) ==> c.email_address == Some(e))
    &&& (xpub matches Some(x) ==> c.xpub == x)
    &&& (wallet matches Some(w) ==> c.wallet_uuid == Some(w))
}

/// The rows that survive a cosigner find with the given filters, in table
/// order.
pub open spec fn filter_cosigners(
    cs: Seq<CosignerRowV>,
    uuid: Option<Seq<char>>,
    email: Option<Seq<char>>,
    xpub: Option<Seq<char>>,
    wallet: Option<Seq<char>>,
) -> Seq<CosignerRowV> {
    cs.filter(|c: CosignerRowV| cosigner_matches(c, uuid, email, xpub, wallet))
}

/// Conjunction of the supplied wallet filters; the descriptor filter
/// matches the watch-only receive descriptor.
pub open spec fn wallet_matches(
    w: WalletRowV,
    uuid: Option<Seq<char>>,
    address_type: Option<AddressType>,
    network: Option<Network>,
    receive_descriptor: Option<Seq<char>>,
) -> bool {
    &&& (uuid matches Some(u) ==> w.uuid == u)
    &&& (address_type matches Some(t) ==> w.address_type == t)
    &&& (network matches Some(n) ==> w.network == n)
    &&& (receive_descriptor matches Some(d) ==> w.receive_descriptor_watch_only == d)
}

pub open spec fn filter_wallets(
    ws: Seq<WalletRowV>,
    uuid: Option<Seq<char>>,
    address_type: Option<AddressType>,
    network: Option<Network>,
    receive_descriptor: Option<Seq<char>>,
) -> Seq<WalletRowV> {
    ws.filter(
        |w: WalletRowV| wallet_matches(w, uuid, address_type, network, receive_descriptor),
    )
}

pub open spec fn psbt_matches(
    p: PsbtRowV,
    uuid: Option<Seq<char>>,
    wallet: Option<Seq<char>>,
) -> bool {
    &&& (uuid matches Some(u) ==> p.uuid == u)
    &&& (wallet matches Some(w) ==> p.wallet_uuid == w)
}

pub open spec fn filter_psbts(
    ps: Seq<PsbtRowV>,
    uuid: Option<Seq<char>>,
    wallet: Option<Seq<char>>,
) -> Seq<PsbtRowV> {
    ps.filter(|p: PsbtRowV| psbt_matches(p, uuid, wallet))
}

/// The cosigner table after removing one cosigner by UUID.
pub open spec fn drop_cosigner(cs: Seq<CosignerRowV>, uuid: Seq<char>) -> Seq<CosignerRowV> {
    cs.filter(|c: CosignerRowV| c.uuid != uuid)
}

/// The cosigner table after a wallet cascade: rows linked to the wallet go.
pub open spec fn drop_wallet_cosigners(cs: Seq<CosignerRowV>, wallet_uuid: Seq<char>) -> Seq<
    CosignerRowV,
> {
    cs.filter(|c: CosignerRowV| c.wallet_uuid != Some(wallet_uuid))
}

/// The PSBT table after a wallet cascade: rows of the wallet go.
pub open spec fn drop_wallet_psbts(ps: Seq<PsbtRowV>, wallet_uuid: Seq<char>) -> Seq<PsbtRowV> {
    ps.filter(|p: PsbtRowV| p.wallet_uuid != wallet_uuid)
}

/// The wallet table after removing one wallet by UUID.
pub open spec fn drop_wallet(ws: Seq<WalletRowV>, uuid: Seq<char>) -> Seq<WalletRowV> {
    ws.filter(|w: WalletRowV| w.uuid != uuid)
}

/// The PSBT table after removing one PSBT by UUID.
pub open spec fn drop_psbt(ps: Seq<PsbtRowV>, uuid: Seq<char>) -> Seq<PsbtRowV> {
    ps.filter(|p: PsbtRowV| p.uuid != uuid)
}

/// Every element of a filtered sequence occurs in the original.
pub proof fn lemma_filter_subset<A>(s: Seq<A>, pred: spec_fn(A) -> bool)
    ensures
        forall|i: int|
            0 <= i < s.filter(pred).len() ==> s.contains(#[trigger] s.filter(pred)[i]),
    decreases s.len(),
{
    reveal(Seq::filter);
    if s.len() > 0 {
        let dl = s.drop_last();
        lemma_filter_subset(dl, pred);
        assert forall|i: int| 0 <= i < s.filter(pred).len() implies s.contains(
            #[trigger] s.filter(pred)[i],
        ) by {
            if i < dl.filter(pred).len() {
                assert(dl.contains(dl.filter(pred)[i]));
                let j = choose|j: int| 0 <= j < dl.len() && dl[j] == dl.filter(pred)[i];
                assert(s[j] == dl[j]);
            } else {
                assert(s.filter(pred)[i] == s.last());
            }
        }
    }
}

/// Removing rows keeps cosigner UUIDs unique.
pub proof fn lemma_unique_cosigners_filter(cs: Seq<CosignerRowV>, pred: spec_fn(CosignerRowV) -> bool)
    requires
        unique_cosigner_uuids(cs),
    ensures
        unique_cosigner_uuids(cs.filter(pred)),
    decreases cs.len(),
{
    reveal(Seq::filter);
    if cs.len() > 0 {
        let dl = cs.drop_last();
        assert(unique_cosigner_uuids(dl));
        lemma_unique_cosigners_filter(dl, pred);
        lemma_filter_subset(dl, pred);
        let f = cs.filter(pred);
        assert forall|i: int, j: int| 0 <= i < j < f.len() implies (#[trigger] f[i]).uuid != (
        #[trigger] f[j]).uuid by {
            if pred(cs.last()) && j == f.len() - 1 {
                assert(f[j] == cs.last());
                assert(dl.contains(dl.filter(pred)[i]));
                let k = choose|k: int| 0 <= k < dl.len() && dl[k] == dl.filter(pred)[i];
                assert(cs[k] == dl[k]);
                assert(cs[k].uuid != cs[cs.len() - 1].uuid);
            } else {
                assert(f[i] == dl.filter(pred)[i]);
                assert(f[j] == dl.filter(pred)[j]);
            }
        }
    }
}

/// Removing rows keeps wallet UUIDs unique.
pub proof fn lemma_unique_wallets_filter(ws: Seq<WalletRowV>, pred: spec_fn(WalletRowV) -> bool)
    requires
        unique_wallet_uuids(ws),
    ensures
        unique_wallet_uuids(ws.filter(pred)),
    decreases ws.len(),
{
    reveal(Seq::filter);
    if ws.len() > 0 {
        let dl = ws.drop_last();
        assert(unique_wallet_uuids(dl));
        lemma_unique_wallets_filter(dl, pred);
        lemma_filter_subset(dl, pred);
        let f = ws.filter(pred);
        assert forall|i: int, j: int| 0 <= i < j < f.len() implies (#[trigger] f[i]).uuid != (
        #[trigger] f[j]).uuid by {
            if pred(ws.last()) && j == f.len() - 1 {
                assert(f[j] == ws.last());
                assert(dl.contains(dl.filter(pred)[i]));
                let k = choose|k: int| 0 <= k < dl.len() && dl[k] == dl.filter(pred)[i];
                assert(ws[k] == dl[k]);
                assert(ws[k].uuid != ws[ws.len() - 1].uuid);
            } else {
                assert(f[i] == dl.filter(pred)[i]);
                assert(f[j] == dl.filter(pred)[j]);
            }
        }
    }
}

/// Removing rows keeps PSBT UUIDs unique.
pub proof fn lemma_unique_psbts_filter(ps: Seq<PsbtRowV>, pred: spec_fn(PsbtRowV) -> bool)
    requires
        unique_psbt_uuids(ps),
    ensures
        unique_psbt_uuids(ps.filter(pred)),
    decreases ps.len(),
{
    reveal(Seq::filter);
    if ps.len() > 0 {
        let dl = ps.drop_last();
        assert(unique_psbt_uuids(dl));
        lemma_unique_psbts_filter(dl, pred);
        lemma_filter_subset(dl, pred);
        let f = ps.filter(pred);
        assert forall|i: int, j: int| 0 <= i < j < f.len() implies (#[trigger] f[i]).uuid != (
        #[trigger] f[j]).uuid by {
            if pred(ps.last()) && j == f.len() - 1 {
                assert(f[j] == ps.last());
                assert(dl.contains(dl.filter(pred)[i]));
                let k = choose|k: int| 0 <= k < dl.len() && dl[k] == dl.filter(pred)[i];
                assert(ps[k] == dl[k]);
                assert(ps[k].uuid != ps[ps.len() - 1].uuid);
            } else {
                assert(f[i] == dl.filter(pred)[i]);
                assert(f[j] == dl.filter(pred)[j]);
            }
        }
    }
}

/// A cosigner find filtered by wallet linkage returns at least the row at
/// a known linked index.
pub proof fn lemma_wallet_filter_keeps_internal(cs: Seq<CosignerRowV>, w: Seq<char>, k: int)
    requires
        0 <= k < cs.len(),
        cs[k].wallet_uuid == Some(w),
    ensures
        filter_cosigners(cs, None, None, None, Some(w)).len() > 0,
    decreases cs.len(),
{
    reveal(Seq::filter);
    if k == cs.len() - 1 {
        assert(cosigner_matches(cs.last(), None, None, None, Some(w)));
    } else {
        lemma_wallet_filter_keeps_internal(cs.drop_last(), w, k);
    }
}

/// A cosigner find filtered by UUID finds something exactly when a row
/// holds the UUID.
pub proof fn lemma_cosigner_uuid_filter(cs: Seq<CosignerRowV>, u: Seq<char>)
    ensures
        filter_cosigners(cs, Some(u), None, None, None).len() > 0 <==> has_cosigner(cs, u),
        filter_cosigners(cs, Some(u), None, None, None).len() > 0 ==> filter_cosigners(
            cs,
            Some(u),
            None,
            None,
            None,
        )[0].uuid == u && cs.contains(filter_cosigners(cs, Some(u), None, None, None)[0]),
    decreases cs.len(),
{
    reveal(Seq::filter);
    if cs.len() > 0 {
        let dl = cs.drop_last();
        lemma_cosigner_uuid_filter(dl, u);
        let f_dl = filter_cosigners(dl, Some(u), None, None, None);
        let f = filter_cosigners(cs, Some(u), None, None, None);
        assert(has_cosigner(cs, u) <==> (has_cosigner(dl, u) || cs.last().uuid == u)) by {
            if has_cosigner(cs, u) {
                let i = choose|i: int| 0 <= i < cs.len() && (#[trigger] cs[i]).uuid == u;
                if i < cs.len() - 1 {
                    assert(dl[i] == cs[i]);
                }
            }
            if has_cosigner(dl, u) {
                let i = choose|i: int| 0 <= i < dl.len() && (#[trigger] dl[i]).uuid == u;
                assert(cs[i] == dl[i]);
            }
        }
        if f.len() > 0 {
            if f_dl.len() > 0 {
                assert(f[0] == f_dl[0]);
                assert(dl.contains(f_dl[0]));
                let j = choose|j: int| 0 <= j < dl.len() && dl[j] == f_dl[0];
                assert(cs[j] == dl[j]);
                assert(cs.contains(f[0]));
            } else {
                assert(cosigner_matches(cs.last(), Some(u), None, None, None));
                assert(f[0] == cs.last());
                assert(cs[cs.len() - 1] == cs.last());
                assert(cs.contains(f[0]));
            }
        }
    }
}

/// A wallet find filtered by UUID finds something exactly when a row holds
/// the UUID.
pub proof fn lemma_wallet_uuid_filter(ws: Seq<WalletRowV>, u: Seq<char>)
    ensures
        filter_wallets(ws, Some(u), None, None, None).len() > 0 <==> has_wallet(ws, u),
        filter_wallets(ws, Some(u), None, None, None).len() > 0 ==> filter_wallets(
            ws,
            Some(u),
            None,
            None,
            None,
        )[0].uuid == u && ws.contains(filter_wallets(ws, Some(u), None, None, None)[0]),
    decreases ws.len(),
{
    reveal(Seq::filter);
    if ws.len() > 0 {
        let dl = ws.drop_last();
        lemma_wallet_uuid_filter(dl, u);
        let f_dl = filter_wallets(dl, Some(u), None, None, None);
        let f = filter_wallets(ws, Some(u), None, None, None);
        assert(has_wallet(ws, u) <==> (has_wallet(dl, u) || ws.last().uuid == u)) by {
            if has_wallet(ws, u) {
                let i = choose|i: int| 0 <= i < ws.len() && (#[trigger] ws[i]).uuid == u;
                if i < ws.len() - 1 {
                    assert(dl[i] == ws[i]);
                }
            }
            if has_wallet(dl, u) {
                let i = choose|i: int| 0 <= i < dl.len() && (#[trigger] dl[i]).uuid == u;
                assert(ws[i] == dl[i]);
            }
        }
        if f.len() > 0 {
            if f_dl.len() > 0 {
                assert(f[0] == f_dl[0]);
                assert(dl.contains(f_dl[0]));
                let j = choose|j: int| 0 <= j < dl.len() && dl[j] == f_dl[0];
                assert(ws[j] == dl[j]);
                assert(ws.contains(f[0]));
            } else {
                assert(wallet_matches(ws.last(), Some(u), None, None, None));
                assert(f[0] == ws.last());
                assert(ws[ws.len() - 1] == ws.last());
                assert(ws.contains(f[0]));
            }
        }
    }
}

/// A PSBT find filtered by UUID finds something exactly when a row holds
/// the UUID.
pub proof fn lemma_psbt_uuid_filter(ps: Seq<PsbtRowV>, u: Seq<char>)
    ensures
        filter_psbts(ps, Some(u), None).len() > 0 <==> has_psbt(ps, u),
        filter_psbts(ps, Some(u), None).len() > 0 ==> filter_psbts(ps, Some(u), None)[0].uuid == u
            && ps.contains(filter_psbts(ps, Some(u), None)[0]),
    decreases ps.len(),
{
    reveal(Seq::filter);
    if ps.len() > 0 {
        let dl = ps.drop_last();
        lemma_psbt_uuid_filter(dl, u);
        let f_dl = filter_psbts(dl, Some(u), None);
        let f = filter_psbts(ps, Some(u), None);
        assert(has_psbt(ps, u) <==> (has_psbt(dl, u) || ps.last().uuid == u)) by {
            if has_psbt(ps, u) {
                let i = choose|i: int| 0 <= i < ps.len() && (#[trigger] ps[i]).uuid == u;
                if i < ps.len() - 1 {
                    assert(dl[i] == ps[i]);
                }
            }
            if has_psbt(dl, u) {
                let i = choose|i: int| 0 <= i < dl.len() && (#[trigger] dl[i]).uuid == u;
                assert(ps[i] == dl[i]);
            }
        }
        if f.len() > 0 {
            if f_dl.len() > 0 {
                assert(f[0] == f_dl[0]);
                assert(dl.contains(f_dl[0]));
                let j = choose|j: int| 0 <= j < dl.len() && dl[j] == f_dl[0];
                assert(ps[j] == dl[j]);
                assert(ps.contains(f[0]));
            } else {
                assert(psbt_matches(ps.last(), Some(u), None));
                assert(f[0] == ps.last());
                assert(ps[ps.len() - 1] == ps.last());
                assert(ps.contains(f[0]));
            }
        }
    }
}

/// A filter that keeps every internal key-holder of a wallet keeps exactly
/// one of them.
pub proof fn lemma_exactly_one_internal_filter(
    cs: Seq<CosignerRowV>,
    wallet_uuid: Seq<char>,
    pred: spec_fn(CosignerRowV) -> bool,
)
    requires
        unique_cosigner_uuids(cs),
        exactly_one_internal(cs, wallet_uuid),
        forall|i: int|
            0 <= i < cs.len() && internal_for(#[trigger] cs[i], wallet_uuid) ==> pred(cs[i]),
    ensures
        exactly_one_internal(cs.filter(pred), wallet_uuid),
{
    broadcast use vstd::prelude::Seq::lemma_filter_contains;

    lemma_unique_cosigners_filter(cs, pred);
    lemma_filter_subset(cs, pred);
    let f = cs.filter(pred);
    let i = choose|i: int|
        0 <= i < cs.len() && internal_for(#[trigger] cs[i], wallet_uuid) && (forall|j: int|
            0 <= j < cs.len() && internal_for(#[trigger] cs[j], wallet_uuid) ==> j == i);
    assert(pred(cs[i]));
    assert(f.contains(cs[i]));
    let k = choose|k: int| 0 <= k < f.len() && f[k] == cs[i];
    assert(internal_for(f[k], wallet_uuid));
    assert forall|j: int| 0 <= j < f.len() && internal_for(#[trigger] f[j], wallet_uuid)
        implies j == k by {
        assert(cs.contains(f[j]));
        let m = choose|m: int| 0 <= m < cs.len() && cs[m] == f[j];
        assert(internal_for(cs[m], wallet_uuid));
        assert(m == i);
        assert(f[j].uuid == f[k].uuid);
        if j != k {
            assert(false);
        }
    }
}

fn opt_string_matches(field: &Option<String>, filter: Option<&str>) -> (r: bool)
    ensures
        r == (opt_str_view(filter) matches Some(f) ==> opt_view(*field) == Some(f)),
{
    match filter {
        None => true,
        Some(f) => match field {
            Some(s) => str_eq(s.as_str(), f),
            None => false,
        },
    }
}

fn str_matches(field: &String, filter: Option<&str>) -> (r: bool)
    ensures
        r == (opt_str_view(filter) matches Some(f) ==> field@ == f),
{
    match filter {
        None => true,
        Some(f) => str_eq(field.as_str(), f),
    }
}

pub(crate) fn clone_opt_string(o: &Option<String>) -> (r: Option<String>)
    ensures
        opt_view(r) == opt_view(*o),
{
    match o {
        Some(s) => Some(s.clone()),
        None => None,
    }
}

impl CosignerRow {
    /// A field-for-field copy of the row.
    pub fn duplicate(&self) -> (r: CosignerRow)
        ensures
            r@ == self@,
    {
        CosignerRow {
            uuid: self.uuid.clone(),
            kind: self.kind,
            email_address: clone_opt_string(&self.email_address),
            xpub: self.xpub.clone(),
            xprv: clone_opt_string(&self.xprv),
            wallet_uuid: clone_opt_string(&self.wallet_uuid),
            creation_time: self.creation_time,
        }
    }
}

impl WalletRow {
    /// A field-for-field copy of the row.
    pub fn duplicate(&self) -> (r: WalletRow)
        ensures
            r@ == self@,
    {
        WalletRow {
            uuid: self.uuid.clone(),
            address_type: self.address_type,
            network: self.network,
            receive_descriptor: self.receive_descriptor.clone(),
            receive_descriptor_watch_only: self.receive_descriptor_watch_only.clone(),
            receive_address_index: self.receive_address_index,
            change_descriptor: self.change_descriptor.clone(),
            change_descriptor_watch_only: self.change_descriptor_watch_only.clone(),
            change_address_index: self.change_address_index,
            required_signatures: self.required_signatures,
            balance: self.balance,
            creation_time: self.creation_time,
        }
    }
}

impl PsbtRow {
    /// A field-for-field copy of the row.
    pub fn duplicate(&self) -> (r: PsbtRow)
        ensures
            r@ == self@,
    {
        PsbtRow {
            uuid: self.uuid.clone(),
            base64: self.base64.clone(),
            wallet_uuid: self.wallet_uuid.clone(),
            creation_time: self.creation_time,
        }
    }
}

impl Store {
    /// An empty catalog.
    pub fn new() -> (r: Store)
        ensures
            r@.cosigners.len() == 0,
            r@.wallets.len() == 0,
            r@.psbts.len() == 0,
            r@.wf(),
    {
        let r = Store { cosigners: Vec::new(), wallets: Vec::new(), psbts: Vec::new() };
        proof {
            assert(r@.cosigners =~= Seq::<CosignerRowV>::empty());
            assert(r@.wallets =~= Seq::<WalletRowV>::empty());
            assert(r@.psbts =~= Seq::<PsbtRowV>::empty());
        }
        r
    }

    /// The index of the cosigner row with the UUID, if any.
    pub fn cosigner_index(&self, uuid: &str) -> (r: Option<usize>)
        ensures
            r matches Some(i) ==> i < self@.cosigners.len() && self@.cosigners[i as int].uuid
                == uuid@,
            r is None ==> !has_cosigner(self@.cosigners, uuid@),
    {
        let n = self.cosigners.len();
        let mut i: usize = 0;
        while i < n
            invariant
                n == self@.cosigners.len(),
                i <= n,
                forall|j: int| 0 <= j < i ==> (#[trigger] self@.cosigners[j]).uuid != uuid@,
            decreases n - i,
        {
            if str_eq(self.cosigners[i].uuid.as_str(), uuid) {
                return Some(i);
            }
            i += 1;
        }
        None
    }

    /// The index of the wallet row with the UUID, if any.
    pub fn wallet_index(&self, uuid: &str) -> (r: Option<usize>)
        ensures
            r matches Some(i) ==> i < self@.wallets.len() && self@.wallets[i as int].uuid == uuid@,
            r is None ==> !has_wallet(self@.wallets, uuid@),
    {
        let n = self.wallets.len();
        let mut i: usize = 0;
        while i < n
            invariant
                n == self@.wallets.len(),
                i <= n,
                forall|j: int| 0 <= j < i ==> (#[trigger] self@.wallets[j]).uuid != uuid@,
            decreases n - i,
        {
            if str_eq(self.wallets[i].uuid.as_str(), uuid) {
                return Some(i);
            }
            i += 1;
        }
        None
    }

    /// The index of the PSBT row with the UUID, if any.
    pub fn psbt_index(&self, uuid: &str) -> (r: Option<usize>)
        ensures
            r matches Some(i) ==> i < self@.psbts.len() && self@.psbts[i as int].uuid == uuid@,
            r is None ==> !has_psbt(self@.psbts, uuid@),
    {
        let n = self.psbts.len();
        let mut i: usize = 0;
        while i < n
            invariant
                n == self@.psbts.len(),
                i <= n,
                forall|j: int| 0 <= j < i ==> (#[trigger] self@.psbts[j]).uuid != uuid@,
            decreases n - i,
        {
            if str_eq(self.psbts[i].uuid.as_str(), uuid) {
                return Some(i);
            }
            i += 1;
        }
        None
    }

    /// A copy of the cosigner row at an index.
    pub fn cosigner_at(&self, i: usize) -> (r: CosignerRow)
        requires
            i < self@.cosigners.len(),
        ensures
            r@ == self@.cosigners[i as int],
    {
        self.cosigners[i].duplicate()
    }

    /// A copy of the wallet row at an index.
    pub fn wallet_at(&self, i: usize) -> (r: WalletRow)
        requires
            i < self@.wallets.len(),
        ensures
            r@ == self@.wallets[i as int],
    {
        self.wallets[i].duplicate()
    }

    /// A copy of the PSBT row at an index.
    pub fn psbt_at(&self, i: usize) -> (r: PsbtRow)
        requires
            i < self@.psbts.len(),
        ensures
            r@ == self@.psbts[i as int],
    {
        self.psbts[i].duplicate()
    }

    /// All cosigner rows matching the conjunction of the supplied filters,
    /// in table order.
    #[verifier::loop_isolation(false)]
    pub fn find_cosigners(
        &self,
        uuid: Option<&str>,
        email: Option<&str>,
        xpub: Option<&str>,
        wallet: Option<&str>,
    ) -> (r: Vec<CosignerRow>)
        ensures
            cosigner_rows_view(r@) == filter_cosigners(
                self@.cosigners,
                opt_str_view(uuid),
                opt_str_view(email),
                opt_str_view(xpub),
                opt_str_view(wallet),
            ),
    {
        broadcast use vstd::prelude::Seq::lemma_filter_push;

        let ghost pred = |c: CosignerRowV|
            cosigner_matches(
                c,
                opt_str_view(uuid),
                opt_str_view(email),
                opt_str_view(xpub),
                opt_str_view(wallet),
            );
        let n = self.cosigners.len();
        let mut out: Vec<CosignerRow> = Vec::new();
        let mut i: usize = 0;
        proof {
            assert(self@.cosigners.take(0) =~= Seq::<CosignerRowV>::empty());
            assert(cosigner_rows_view(out@) =~= Seq::<CosignerRowV>::empty());
            assert(Seq::<CosignerRowV>::empty().filter(pred) =~= Seq::<CosignerRowV>::empty());
        }
        while i < n
            invariant
                n == self@.cosigners.len(),
                i <= n,
                cosigner_rows_view(out@) == self@.cosigners.take(i as int).filter(pred),
            decreases n - i,
        {
            let row = &self.cosigners[i];
            let keep = str_matches(&row.uuid, uuid) && opt_string_matches(
                &row.email_address,
                email,
            ) && str_matches(&row.xpub, xpub) && opt_string_matches(&row.wallet_uuid, wallet);
            let ghost out_before = cosigner_rows_view(out@);
            if keep {
                out.push(row.duplicate());
                proof {
                    assert(cosigner_rows_view(out@) =~= out_before.push(self@.cosigners[i as int]));
                }
            }
            proof {
                assert(self@.cosigners.take(i + 1) =~= self@.cosigners.take(i as int).push(
                    self@.cosigners[i as int],
                ));
                assert(pred(self@.cosigners[i as int]) == keep);
            }
            i += 1;
        }
        proof {
            assert(self@.cosigners.take(n as int) =~= self@.cosigners);
        }
        out
    }

    /// All wallet rows matching the conjunction of the supplied filters, in
    /// table order.
    #[verifier::loop_isolation(false)]
    pub fn find_wallets(
        &self,
        uuid: Option<&str>,
        address_type: Option<AddressType>,
        network: Option<Network>,
        receive_descriptor: Option<&str>,
    ) -> (r: Vec<WalletRow>)
        ensures
            wallet_rows_view(r@) == filter_wallets(
                self@.wallets,
                opt_str_view(uuid),
                address_type,
                network,
                opt_str_view(receive_descriptor),
            ),
    {
        broadcast use vstd::prelude::Seq::lemma_filter_push;

        let ghost pred = |w: WalletRowV|
            wallet_matches(
                w,
                opt_str_view(uuid),
                address_type,
                network,
                opt_str_view(receive_descriptor),
            );
        let n = self.wallets.len();
        let mut out: Vec<WalletRow> = Vec::new();
        let mut i: usize = 0;
        proof {
            assert(self@.wallets.take(0) =~= Seq::<WalletRowV>::empty());
            assert(wallet_rows_view(out@) =~= Seq::<WalletRowV>::empty());
            assert(Seq::<WalletRowV>::empty().filter(pred) =~= Seq::<WalletRowV>::empty());
        }
        while i < n
            invariant
                n == self@.wallets.len(),
                i <= n,
                wallet_rows_view(out@) == self@.wallets.take(i as int).filter(pred),
            decreases n - i,
        {
            let row = &self.wallets[i];
            let type_ok = match address_type {
                None => true,
                Some(t) => row.address_type == t,
            };
            let net_ok = match network {
                None => true,
                Some(nw) => row.network == nw,
            };
            let keep = str_matches(&row.uuid, uuid) && type_ok && net_ok && str_matches(
                &row.receive_descriptor_watch_only,
                receive_descriptor,
            );
            let ghost out_before = wallet_rows_view(out@);
            if keep {
                out.push(row.duplicate());
                proof {
                    assert(wallet_rows_view(out@) =~= out_before.push(self@.wallets[i as int]));
                }
            }
            proof {
                assert(self@.wallets.take(i + 1) =~= self@.wallets.take(i as int).push(
                    self@.wallets[i as int],
                ));
                assert(pred(self@.wallets[i as int]) == keep);
            }
            i += 1;
        }
        proof {
            assert(self@.wallets.take(n as int) =~= self@.wallets);
        }
        out
    }

    /// All PSBT rows matching the conjunction of the supplied filters, in
    /// table order.
    #[verifier::loop_isolation(false)]
    pub fn find_psbts(&self, uuid: Option<&str>, wallet: Option<&str>) -> (r: Vec<PsbtRow>)
        ensures
            psbt_rows_view(r@) == filter_psbts(
                self@.psbts,
                opt_str_view(uuid),
                opt_str_view(wallet),
            ),
    {
        broadcast use vstd::prelude::Seq::lemma_filter_push;

        let ghost pred = |p: PsbtRowV| psbt_matches(p, opt_str_view(uuid), opt_str_view(wallet));
        let n = self.psbts.len();
        let mut out: Vec<PsbtRow> = Vec::new();
        let mut i: usize = 0;
        proof {
            assert(self@.psbts.take(0) =~= Seq::<PsbtRowV>::empty());
            assert(psbt_rows_view(out@) =~= Seq::<PsbtRowV>::empty());
            assert(Seq::<PsbtRowV>::empty().filter(pred) =~= Seq::<PsbtRowV>::empty());
        }
        while i < n
            invariant
                n == self@.psbts.len(),
                i <= n,
                psbt_rows_view(out@) == self@.psbts.take(i as int).filter(pred),
            decreases n - i,
        {
            let row = &self.psbts[i];
            let keep = str_matches(&row.uuid, uuid) && str_matches(&row.wallet_uuid, wallet);
            let ghost out_before = psbt_rows_view(out@);
            if keep {
                out.push(row.duplicate());
                proof {
                    assert(psbt_rows_view(out@) =~= out_before.push(self@.psbts[i as int]));
                }
            }
            proof {
                assert(self@.psbts.take(i + 1) =~= self@.psbts.take(i as int).push(
                    self@.psbts[i as int],
                ));
                assert(pred(self@.psbts[i as int]) == keep);
            }
            i += 1;
        }
        proof {
            assert(self@.psbts.take(n as int) =~= self@.psbts);
        }
        out
    }

    /// Inserts the row if its UUID is new, else replaces the row that holds
    /// it.
    pub fn upsert_cosigner(&mut self, row: CosignerRow)
        ensures
            final(self)@.wallets == old(self)@.wallets,
            final(self)@.psbts == old(self)@.psbts,
            !has_cosigner(old(self)@.cosigners, row@.uuid) ==> final(self)@.cosigners == old(
                self,
            )@.cosigners.push(row@),
            has_cosigner(old(self)@.cosigners, row@.uuid) ==> exists|i: int|
                0 <= i < old(self)@.cosigners.len() && (#[trigger] old(self)@.cosigners[i]).uuid
                    == row@.uuid && final(self)@.cosigners == old(self)@.cosigners.update(i, row@),
    {
        let idx = self.cosigner_index(row.uuid.as_str());
        match idx {
            Some(i) => {
                let ghost before = self@.cosigners;
                *vstd::std_specs::vec::vec_index_mut(&mut self.cosigners, i) = row;
                proof {
                    assert(self@.cosigners =~= before.update(i as int, self.cosigners@[i as int]@));
                }
            },
            None => {
                let ghost before = self@.cosigners;
                self.cosigners.push(row);
                proof {
                    assert(self@.cosigners =~= before.push(
                        self.cosigners@[self.cosigners@.len() - 1]@,
                    ));
                }
            },
        }
    }

    /// Inserts the row if its UUID is new, else replaces the row that holds
    /// it.
    pub fn upsert_wallet(&mut self, row: WalletRow)
        ensures
            final(self)@.cosigners == old(self)@.cosigners,
            final(self)@.psbts == old(self)@.psbts,
            !has_wallet(old(self)@.wallets, row@.uuid) ==> final(self)@.wallets == old(
                self,
            )@.wallets.push(row@),
            has_wallet(old(self)@.wallets, row@.uuid) ==> exists|i: int|
                0 <= i < old(self)@.wallets.len() && (#[trigger] old(self)@.wallets[i]).uuid
                    == row@.uuid && final(self)@.wallets == old(self)@.wallets.update(i, row@),
    {
        let idx = self.wallet_index(row.uuid.as_str());
        match idx {
            Some(i) => {
                let ghost before = self@.wallets;
                *vstd::std_specs::vec::vec_index_mut(&mut self.wallets, i) = row;
                proof {
                    assert(self@.wallets =~= before.update(i as int, self.wallets@[i as int]@));
                }
            },
            None => {
                let ghost before = self@.wallets;
                self.wallets.push(row);
                proof {
                    assert(self@.wallets =~= before.push(self.wallets@[self.wallets@.len() - 1]@));
                }
            },
        }
    }

    /// Inserts the row if its UUID is new, else replaces the row that holds
    /// it.
    pub fn upsert_psbt(&mut self, row: PsbtRow)
        ensures
            final(self)@.cosigners == old(self)@.cosigners,
            final(self)@.wallets == old(self)@.wallets,
            !has_psbt(old(self)@.psbts, row@.uuid) ==> final(self)@.psbts == old(
                self,
            )@.psbts.push(row@),
            has_psbt(old(self)@.psbts, row@.uuid) ==> exists|i: int|
                0 <= i < old(self)@.psbts.len() && (#[trigger] old(self)@.psbts[i]).uuid
                    == row@.uuid && final(self)@.psbts == old(self)@.psbts.update(i, row@),
    {
        let idx = self.psbt_index(row.uuid.as_str());
        match idx {
            Some(i) => {
                let ghost before = self@.psbts;
                *vstd::std_specs::vec::vec_index_mut(&mut self.psbts, i) = row;
                proof {
                    assert(self@.psbts =~= before.update(i as int, self.psbts@[i as int]@));
                }
            },
            None => {
                let ghost before = self@.psbts;
                self.psbts.push(row);
                proof {
                    assert(self@.psbts =~= before.push(self.psbts@[self.psbts@.len() - 1]@));
                }
            },
        }
    }

    /// Inserts a wallet row together with its internal cosigner row, as
    /// one step: a wallet is persisted atomically with its key-holder.
    pub fn insert_wallet_with_cosigner(&mut self, wallet: WalletRow, cosigner: CosignerRow)
        ensures
            final(self)@.wallets == old(self)@.wallets.push(wallet@),
            final(self)@.cosigners == old(self)@.cosigners.push(cosigner@),
            final(self)@.psbts == old(self)@.psbts,
    {
        let ghost wb = self@.wallets;
        let ghost cb = self@.cosigners;
        self.wallets.push(wallet);
        self.cosigners.push(cosigner);
        proof {
            assert(self@.wallets =~= wb.push(self.wallets@[self.wallets@.len() - 1]@));
            assert(self@.cosigners =~= cb.push(self.cosigners@[self.cosigners@.len() - 1]@));
        }
    }

    /// Deletes the cosigner row with the UUID, if present.
    #[verifier::loop_isolation(false)]
    pub fn remove_cosigner(&mut self, uuid: &str)
        ensures
            final(self)@.cosigners == drop_cosigner(old(self)@.cosigners, uuid@),
            final(self)@.wallets == old(self)@.wallets,
            final(self)@.psbts == old(self)@.psbts,
    {
        broadcast use vstd::prelude::Seq::lemma_filter_push;

        let ghost pred = |c: CosignerRowV| c.uuid != uuid@;
        let n = self.cosigners.len();
        let mut out: Vec<CosignerRow> = Vec::new();
        let mut i: usize = 0;
        proof {
            assert(self@.cosigners.take(0) =~= Seq::<CosignerRowV>::empty());
            assert(cosigner_rows_view(out@) =~= Seq::<CosignerRowV>::empty());
            assert(Seq::<CosignerRowV>::empty().filter(pred) =~= Seq::<CosignerRowV>::empty());
        }
        while i < n
            invariant
                n == self@.cosigners.len(),
                i <= n,
                cosigner_rows_view(out@) == self@.cosigners.take(i as int).filter(pred),
            decreases n - i,
        {
            let row = &self.cosigners[i];
            let keep = !str_eq(row.uuid.as_str(), uuid);
            let ghost out_before = cosigner_rows_view(out@);
            if keep {
                out.push(row.duplicate());
                proof {
                    assert(cosigner_rows_view(out@) =~= out_before.push(self@.cosigners[i as int]));
                }
            }
            proof {
                assert(self@.cosigners.take(i + 1) =~= self@.cosigners.take(i as int).push(
                    self@.cosigners[i as int],
                ));
                assert(pred(self@.cosigners[i as int]) == keep);
            }
            i += 1;
        }
        proof {
            assert(self@.cosigners.take(n as int) =~= self@.cosigners);
        }
        self.cosigners = out;
    }

    /// Deletes the PSBT row with the UUID, if present.
    #[verifier::loop_isolation(false)]
    pub fn remove_psbt(&mut self, uuid: &str)
        ensures
            final(self)@.psbts == drop_psbt(old(self)@.psbts, uuid@),
            final(self)@.cosigners == old(self)@.cosigners,
            final(self)@.wallets == old(self)@.wallets,
    {
        broadcast use vstd::prelude::Seq::lemma_filter_push;

        let ghost pred = |p: PsbtRowV| p.uuid != uuid@;
        let n = self.psbts.len();
        let mut out: Vec<PsbtRow> = Vec::new();
        let mut i: usize = 0;
        proof {
            assert(self@.psbts.take(0) =~= Seq::<PsbtRowV>::empty());
            assert(psbt_rows_view(out@) =~= Seq::<PsbtRowV>::empty());
            assert(Seq::<PsbtRowV>::empty().filter(pred) =~= Seq::<PsbtRowV>::empty());
        }
        while i < n
            invariant
                n == self@.psbts.len(),
                i <= n,
                psbt_rows_view(out@) == self@.psbts.take(i as int).filter(pred),
            decreases n - i,
        {
            let row = &self.psbts[i];
            let keep = !str_eq(row.uuid.as_str(), uuid);
            let ghost out_before = psbt_rows_view(out@);
            if keep {
                out.push(row.duplicate());
                proof {
                    assert(psbt_rows_view(out@) =~= out_before.push(self@.psbts[i as int]));
                }
            }
            proof {
                assert(self@.psbts.take(i + 1) =~= self@.psbts.take(i as int).push(
                    self@.psbts[i as int],
                ));
                assert(pred(self@.psbts[i as int]) == keep);
            }
            i += 1;
        }
        proof {
            assert(self@.psbts.take(n as int) =~= self@.psbts);
        }
        self.psbts = out;
    }

    /// Deletes a wallet and cascades: first the PSBTs linked to the wallet,
    /// then the wallet-linked cosigner rows, then the wallet row itself.
    #[verifier::loop_isolation(false)]
    pub fn remove_wallet_cascade(&mut self, uuid: &str)
        ensures
            final(self)@.cosigners == drop_wallet_cosigners(old(self)@.cosigners, uuid@),
            final(self)@.psbts == drop_wallet_psbts(old(self)@.psbts, uuid@),
            final(self)@.wallets == drop_wallet(old(self)@.wallets, uuid@),
    {
        broadcast use vstd::prelude::Seq::lemma_filter_push;

        let ghost cpred = |c: CosignerRowV| c.wallet_uuid != Some(uuid@);
        let ghost ppred = |p: PsbtRowV| p.wallet_uuid != uuid@;
        let ghost wpred = |w: WalletRowV| w.uuid != uuid@;
        let n = self.psbts.len();
        let mut out_p: Vec<PsbtRow> = Vec::new();
        let mut i: usize = 0;
        proof {
            assert(self@.psbts.take(0) =~= Seq::<PsbtRowV>::empty());
            assert(psbt_rows_view(out_p@) =~= Seq::<PsbtRowV>::empty());
            assert(Seq::<PsbtRowV>::empty().filter(ppred) =~= Seq::<PsbtRowV>::empty());
        }
        while i < n
            invariant
                n == self@.psbts.len(),
                i <= n,
                psbt_rows_view(out_p@) == self@.psbts.take(i as int).filter(ppred),
            decreases n - i,
        {
            let row = &self.psbts[i];
            let keep = !str_eq(row.wallet_uuid.as_str(), uuid);
            let ghost out_before = psbt_rows_view(out_p@);
            if keep {
                out_p.push(row.duplicate());
                proof {
                    assert(psbt_rows_view(out_p@) =~= out_before.push(self@.psbts[i as int]));
                }
            }
            proof {
                assert(self@.psbts.take(i + 1) =~= self@.psbts.take(i as int).push(
                    self@.psbts[i as int],
                ));
                assert(ppred(self@.psbts[i as int]) == keep);
            }
            i += 1;
        }
        proof {
            assert(self@.psbts.take(n as int) =~= self@.psbts);
        }
        let m = self.cosigners.len();
        let mut out_c: Vec<CosignerRow> = Vec::new();
        let mut k: usize = 0;
        proof {
            assert(self@.cosigners.take(0) =~= Seq::<CosignerRowV>::empty());
            assert(cosigner_rows_view(out_c@) =~= Seq::<CosignerRowV>::empty());
            assert(Seq::<CosignerRowV>::empty().filter(cpred) =~= Seq::<CosignerRowV>::empty());
        }
        while k < m
            invariant
                m == self@.cosigners.len(),
                k <= m,
                cosigner_rows_view(out_c@) == self@.cosigners.take(k as int).filter(cpred),
            decreases m - k,
        {
            let row = &self.cosigners[k];
            let keep = match &row.wallet_uuid {
                Some(w) => !str_eq(w.as_str(), uuid),
                None => true,
            };
            let ghost out_before = cosigner_rows_view(out_c@);
            if keep {
                out_c.push(row.duplicate());
                proof {
                    assert(cosigner_rows_view(out_c@) =~= out_before.push(
                        self@.cosigners[k as int],
                    ));
                }
            }
            proof {
                assert(self@.cosigners.take(k + 1) =~= self@.cosigners.take(k as int).push(
                    self@.cosigners[k as int],
                ));
                assert(cpred(self@.cosigners[k as int]) == keep);
            }
            k += 1;
        }
        proof {
            assert(self@.cosigners.take(m as int) =~= self@.cosigners);
        }
        let wn = self.wallets.len();
        let mut out_w: Vec<WalletRow> = Vec::new();
        let mut q: usize = 0;
        proof {
            assert(self@.wallets.take(0) =~= Seq::<WalletRowV>::empty());
            assert(wallet_rows_view(out_w@) =~= Seq::<WalletRowV>::empty());
            assert(Seq::<WalletRowV>::empty().filter(wpred) =~= Seq::<WalletRowV>::empty());
        }
        while q < wn
            invariant
                wn == self@.wallets.len(),
                q <= wn,
                wallet_rows_view(out_w@) == self@.wallets.take(q as int).filter(wpred),
            decreases wn - q,
        {
            let row = &self.wallets[q];
            let keep = !str_eq(row.uuid.as_str(), uuid);
            let ghost out_before = wallet_rows_view(out_w@);
            if keep {
                out_w.push(row.duplicate());
                proof {
                    assert(wallet_rows_view(out_w@) =~= out_before.push(self@.wallets[q as int]));
                }
            }
            proof {
                assert(self@.wallets.take(q + 1) =~= self@.wallets.take(q as int).push(
                    self@.wallets[q as int],
                ));
                assert(wpred(self@.wallets[q as int]) == keep);
            }
            q += 1;
        }
        proof {
            assert(self@.wallets.take(wn as int) =~= self@.wallets);
        }
        self.psbts = out_p;
        self.cosigners = out_c;
        self.wallets = out_w;
    }
}

} // verus!
