use vstd::prelude::*;
use vstd::multiset::Multiset;
use vstd::relations::{sorted_by, total_ordering};
use vstd::seq_lib::lemma_sorted_unique;
use vstd::string::StringExecFns;

use crate::keys::xpub_of;
use crate::text::{
    chars_le, dec_str, lemma_chars_le_antisym, lemma_chars_le_connected, lemma_chars_le_refl,
    lemma_chars_le_trans, str_le, u64_to_string,
};
use crate::types::{AddressType, Network};

verus! {

/// One key of a multisig descriptor: its watch-only rendering (always an
/// xpub) and the rendering that goes into the full descriptor (the xprv for
/// the service-owned key, the same xpub for everyone else).
pub struct KeySlot {
    pub watch: String,
    pub full: String,
}

/// The mathematical value of a [`KeySlot`].
pub struct KeySlotV {
    pub watch: Seq<char>,
    pub full: Seq<char>,
}

impl View for KeySlot {
    type V = KeySlotV;

    open spec fn view(&self) -> KeySlotV {
        KeySlotV { watch: self.watch@, full: self.full@ }
    }
}

pub open spec fn slots_view(s: Seq<KeySlot>) -> Seq<KeySlotV> {
    s.map_values(|k: KeySlot| k@)
}

/// Key slots are ordered by their watch-only rendering, ties broken by the
/// full rendering: the canonical order of keys inside a descriptor.
pub open spec fn slot_le(x: KeySlotV, y: KeySlotV) -> bool {
    if x.watch == y.watch {
        chars_le(x.full, y.full)
    } else {
        chars_le(x.watch, y.watch)
    }
}

pub open spec fn slot_order() -> spec_fn(KeySlotV, KeySlotV) -> bool {
    (|x: KeySlotV, y: KeySlotV| slot_le(x, y))
}

/// The slot order is a total order, so sorting by it has a unique result.
pub proof fn lemma_slot_order_total()
    ensures
        total_ordering(slot_order()),
{
    let leq = slot_order();
    assert forall|x: KeySlotV| #[trigger] leq(x, x) by {
        lemma_chars_le_refl(x.full);
    }
    assert forall|x: KeySlotV, y: KeySlotV| #[trigger] leq(x, y) && #[trigger] leq(y, x)
        implies x == y by {
        if x.watch == y.watch {
            lemma_chars_le_antisym(x.full, y.full);
        } else {
            lemma_chars_le_antisym(x.watch, y.watch);
        }
    }
    assert forall|x: KeySlotV, y: KeySlotV, z: KeySlotV| #[trigger] leq(x, y) && #[trigger] leq(
        y,
        z,
    ) implies leq(x, z) by {
        if x.watch == y.watch && y.watch == z.watch {
            lemma_chars_le_trans(x.full, y.full, z.full);
        } else if x.watch == y.watch {
            // x and y share a watch key, so x against z compares watch keys
            // exactly as y against z does.
        } else if y.watch == z.watch {
        } else {
            lemma_chars_le_trans(x.watch, y.watch, z.watch);
            if x.watch == z.watch {
                lemma_chars_le_antisym(x.watch, y.watch);
            }
        }
    }
    assert forall|x: KeySlotV, y: KeySlotV| #[trigger] leq(x, y) || #[trigger] leq(y, x) by {
        if x.watch == y.watch {
            lemma_chars_le_connected(x.full, y.full);
        } else {
            lemma_chars_le_connected(x.watch, y.watch);
        }
    }
}

/// The canonical arrangement of the key slots of a descriptor.
pub open spec fn canon_slots(s: Seq<KeySlotV>) -> Seq<KeySlotV> {
    s.sort_by(slot_order())
}

pub open spec fn full_keys(slots: Seq<KeySlotV>) -> Seq<Seq<char>> {
    slots.map_values(|s: KeySlotV| s.full)
}

pub open spec fn watch_keys(slots: Seq<KeySlotV>) -> Seq<Seq<char>> {
    slots.map_values(|s: KeySlotV| s.watch)
}

/// The derivation suffix appended to every key: branch 0 for receive
/// descriptors, branch 1 for change descriptors, then a wildcard.
pub open spec fn branch_suffix(change: bool) -> Seq<char> {
    if change {
        "/1/*"@
    } else {
        "/0/*"@
    }
}

/// `,KEY<suffix>` for each key in order.
pub open spec fn keys_part(keys: Seq<Seq<char>>, suffix: Seq<char>) -> Seq<char>
    decreases keys.len(),
{
    if keys.len() == 0 {
        Seq::empty()
    } else {
        seq![','] + keys[0] + suffix + keys_part(keys.drop_first(), suffix)
    }
}

pub open spec fn scheme_open(t: AddressType) -> Seq<char> {
    match t {
        AddressType::P2sh => "sh(sortedmulti("@,
        AddressType::P2wsh => "wsh(sortedmulti("@,
        AddressType::P2shwsh => "sh(wsh(sortedmulti("@,
    }
}

pub open spec fn scheme_close(t: AddressType) -> Seq<char> {
    match t {
        AddressType::P2sh => "))"@,
        AddressType::P2wsh => "))"@,
        AddressType::P2shwsh => ")))"@,
    }
}

/// The descriptor text for a scheme, threshold and ordered key list:
/// `<scheme>(sortedmulti(<m>,K1<suffix>,...,Kn<suffix>))`.
pub open spec fn render_desc(t: AddressType, m: int, keys: Seq<Seq<char>>, change: bool) -> Seq<
    char,
> {
    scheme_open(t) + dec_str(m) + keys_part(keys, branch_suffix(change)) + scheme_close(t)
}

/// The full descriptor (secret keys embedded) over canonically ordered slots.
pub open spec fn compose_full(t: AddressType, m: int, slots: Seq<KeySlotV>, change: bool) -> Seq<
    char,
> {
    render_desc(t, m, full_keys(canon_slots(slots)), change)
}

/// The watch-only projection of the same descriptor: same slots, same
/// order, public renderings only.
pub open spec fn compose_watch(t: AddressType, m: int, slots: Seq<KeySlotV>, change: bool) -> Seq<
    char,
> {
    render_desc(t, m, watch_keys(canon_slots(slots)), change)
}

/// Key-by-key substitution: the watch key list equals the full key list with
/// every occurrence of the xprv replaced by its xpub, all other keys kept.
pub open spec fn keys_substituted(
    fk: Seq<Seq<char>>,
    wk: Seq<Seq<char>>,
    xprv: Seq<char>,
) -> bool {
    &&& fk.len() == wk.len()
    &&& forall|i: int|
        0 <= i < fk.len() ==> (#[trigger] wk[i] == fk[i] || (fk[i] == xprv && wk[i] == xpub_of(
            xprv,
        )))
}

/// Composition is invariant under permutation of the supplied key slots:
/// two slot lists with the same elements yield the same full and watch-only
/// descriptors, whatever order they were supplied in.
pub proof fn lemma_compose_permutation(
    t: AddressType,
    m: int,
    s1: Seq<KeySlotV>,
    s2: Seq<KeySlotV>,
    change: bool,
)
    requires
        s1.to_multiset() == s2.to_multiset(),
    ensures
        compose_full(t, m, s1, change) == compose_full(t, m, s2, change),
        compose_watch(t, m, s1, change) == compose_watch(t, m, s2, change),
{
    lemma_slot_order_total();
    s1.lemma_sort_by_ensures(slot_order());
    s2.lemma_sort_by_ensures(slot_order());
    lemma_sorted_unique(canon_slots(s1), canon_slots(s2), slot_order());
    assert(canon_slots(s1) == canon_slots(s2));
}

/// The watch-only descriptor substitutes the service key: if every supplied
/// slot either repeats its watch key or is the (xprv, xpub-of-xprv) pair,
/// the canonically ordered key lists relate key by key in the same way.
pub proof fn lemma_compose_substitution(slots: Seq<KeySlotV>, xprv: Seq<char>)
    requires
        forall|i: int|
            0 <= i < slots.len() ==> (#[trigger] slots[i].watch == slots[i].full || (
            slots[i].full == xprv && slots[i].watch == xpub_of(xprv))),
    ensures
        keys_substituted(full_keys(canon_slots(slots)), watch_keys(canon_slots(slots)), xprv),
{
    broadcast use vstd::seq_lib::to_multiset_contains;

    lemma_slot_order_total();
    slots.lemma_sort_by_ensures(slot_order());
    let c = canon_slots(slots);
    assert forall|i: int| 0 <= i < c.len() implies (#[trigger] watch_keys(c)[i] == full_keys(c)[i]
        || (full_keys(c)[i] == xprv && watch_keys(c)[i] == xpub_of(xprv))) by {
        assert(c.to_multiset().count(c[i]) > 0);
        assert(slots.to_multiset().count(c[i]) > 0);
        assert(slots.contains(c[i]));
        let j = choose|j: int| 0 <= j < slots.len() && slots[j] == c[i];
        assert(slots[j].watch == slots[j].full || (slots[j].full == xprv && slots[j].watch
            == xpub_of(xprv)));
    }
}

proof fn lemma_keys_part_push(keys: Seq<Seq<char>>, k: Seq<char>, suffix: Seq<char>)
    ensures
        keys_part(keys.push(k), suffix) == keys_part(keys, suffix) + seq![','] + k + suffix,
    decreases keys.len(),
{
    if keys.len() == 0 {
        assert(keys.push(k).drop_first() =~= keys);
        assert(keys_part(keys.push(k), suffix) =~= keys_part(keys, suffix) + seq![','] + k
            + suffix);
    } else {
        assert(keys.push(k).drop_first() =~= keys.drop_first().push(k));
        lemma_keys_part_push(keys.drop_first(), k, suffix);
        assert(keys_part(keys.push(k), suffix) =~= keys_part(keys, suffix) + seq![','] + k
            + suffix);
    }
}

impl KeySlot {
    /// A field-for-field copy of the slot.
    pub fn duplicate(&self) -> (r: KeySlot)
        ensures
            r@ == self@,
    {
        KeySlot { watch: self.watch.clone(), full: self.full.clone() }
    }
}

/// A field-for-field copy of a slot list.
pub fn duplicate_slots(v: &Vec<KeySlot>) -> (r: Vec<KeySlot>)
    ensures
        slots_view(r@) == slots_view(v@),
{
    let n = v.len();
    let mut out: Vec<KeySlot> = Vec::new();
    let mut i: usize = 0;
    proof {
        assert(slots_view(out@) =~= slots_view(v@).take(0));
    }
    while i < n
        invariant
            n == v@.len(),
            i <= n,
            slots_view(out@) == slots_view(v@).take(i as int),
        decreases n - i,
    {
        let ghost before = slots_view(out@);
        out.push(v[i].duplicate());
        proof {
            assert(slots_view(out@) =~= before.push(slots_view(v@)[i as int]));
            assert(slots_view(v@).take(i + 1) =~= slots_view(v@).take(i as int).push(
                slots_view(v@)[i as int],
            ));
        }
        i += 1;
    }
    proof {
        assert(slots_view(v@).take(n as int) =~= slots_view(v@));
    }
    out
}

fn slot_le_exec(x: &KeySlot, y: &KeySlot) -> (r: bool)
    ensures
        r == slot_le(x@, y@),
{
    if x.watch == y.watch {
        str_le(x.full.as_str(), y.full.as_str())
    } else {
        str_le(x.watch.as_str(), y.watch.as_str())
    }
}

fn find_pos(out: &Vec<KeySlot>, x: &KeySlot) -> (p: usize)
    ensures
        p <= out@.len(),
        forall|q: int| 0 <= q < p ==> slot_le(#[trigger] slots_view(out@)[q], x@),
        p < out@.len() ==> !slot_le(slots_view(out@)[p as int], x@),
{
    let n = out.len();
    let mut p: usize = 0;
    while p < n
        invariant
            n == out@.len(),
            p <= n,
            forall|q: int| 0 <= q < p ==> slot_le(#[trigger] slots_view(out@)[q], x@),
        decreases n - p,
    {
        if !slot_le_exec(&out[p], x) {
            return p;
        }
        p += 1;
    }
    p
}

proof fn lemma_slots_view_insert(s: Seq<KeySlot>, p: int, x: KeySlot)
    requires
        0 <= p <= s.len(),
    ensures
        slots_view(s.insert(p, x)) =~= slots_view(s).insert(p, x@),
{
}

/// Sorts key slots into the canonical descriptor order.
fn sort_slots(v: Vec<KeySlot>) -> (out: Vec<KeySlot>)
    ensures
        slots_view(out@) == canon_slots(slots_view(v@)),
{
    broadcast use vstd::seq_lib::group_to_multiset_ensures;
    broadcast use vstd::multiset::group_multiset_axioms;

    proof {
        lemma_slot_order_total();
        slots_view(v@).lemma_sort_by_ensures(slot_order());
    }
    let ghost orig = slots_view(v@);
    let mut rest = v;
    let mut out: Vec<KeySlot> = Vec::new();
    proof {
        assert(slots_view(out@) =~= Seq::<KeySlotV>::empty());
        assert(slots_view(out@).to_multiset().len() == 0);
        assert(slots_view(out@).to_multiset() =~= Multiset::empty());
        assert(slots_view(out@).to_multiset().add(slots_view(rest@).to_multiset())
            =~= orig.to_multiset());
    }
    while rest.len() > 0
        invariant
            sorted_by(slots_view(out@), slot_order()),
            slots_view(out@).to_multiset().add(slots_view(rest@).to_multiset())
                == orig.to_multiset(),
        decreases rest.len(),
    {
        broadcast use vstd::seq_lib::to_multiset_build;
        broadcast use vstd::seq_lib::to_multiset_insert;

        let ghost rest_before = slots_view(rest@);
        let x = rest.pop().unwrap();
        proof {
            assert(rest_before =~= slots_view(rest@).push(x@));
            assert(rest_before.to_multiset() == slots_view(rest@).push(x@).to_multiset());
            assert(rest_before.to_multiset() == slots_view(rest@).to_multiset().insert(x@));
        }
        let ghost out_before = slots_view(out@);
        let ghost leq = slot_order();
        let p = find_pos(&out, &x);
        proof {
            lemma_slot_order_total();
            assert(forall|a: KeySlotV, b: KeySlotV| #[trigger] leq(a, b) == slot_le(a, b));
            if p < out_before.len() {
                assert(leq(x@, out_before[p as int]) || leq(out_before[p as int], x@));
                assert(!slot_le(out_before[p as int], x@));
                assert(leq(x@, out_before[p as int]));
            }
        }
        out.insert(p, x);
        proof {
            assert(slots_view(out@) =~= out_before.insert(p as int, x@));
            let now = slots_view(out@);
            assert forall|a: int, b: int| 0 <= a < b < now.len() implies #[trigger] leq(
                now[a],
                now[b],
            ) by {
                if b < p {
                    assert(leq(out_before[a], out_before[b]));
                } else if a < p && b == p {
                    assert(slot_le(out_before[a], x@));
                } else if a < p && b > p {
                    assert(leq(out_before[a], out_before[b - 1]));
                } else if a == p && b > p {
                    assert(b - 1 < out_before.len());
                    assert(p < out_before.len());
                    assert(leq(x@, out_before[p as int]));
                    if b - 1 > p {
                        assert(leq(out_before[p as int], out_before[b - 1]));
                    }
                    assert(leq(x@, out_before[b - 1]));
                } else {
                    assert(leq(out_before[a - 1], out_before[b - 1]));
                }
            }
            assert(sorted_by(now, slot_order()));
            assert(now.to_multiset() == out_before.insert(p as int, x@).to_multiset());
            assert(now.to_multiset() == out_before.to_multiset().insert(x@));
            assert(now.to_multiset().add(slots_view(rest@).to_multiset()) =~= out_before.to_multiset().add(rest_before.to_multiset()));
        }
    }
    proof {
        assert(slots_view(rest@).len() == 0);
        assert(slots_view(rest@).to_multiset().len() == 0);
        assert(slots_view(rest@).to_multiset() =~= Multiset::empty());
        assert(slots_view(out@).to_multiset() =~= orig.to_multiset());
        lemma_sorted_unique(slots_view(out@), canon_slots(orig), slot_order());
    }
    out
}

/// Composes the full and watch-only descriptor texts for a scheme,
/// threshold and set of key slots. The slots are put into canonical order
/// first, so the output does not depend on the order they were supplied in.
pub fn compose_descriptor(t: AddressType, m: u64, slots: Vec<KeySlot>, change: bool) -> (r: (
    String,
    String,
))
    ensures
        r.0@ == compose_full(t, m as int, slots_view(slots@), change),
        r.1@ == compose_watch(t, m as int, slots_view(slots@), change),
{
    proof {
        reveal_strlit("/0/*");
        reveal_strlit("/1/*");
        reveal_strlit(",");
    }
    let ghost sv = slots_view(slots@);
    let sorted = sort_slots(slots);
    let ghost c = canon_slots(sv);
    let mut full = String::new();
    let mut watch = String::new();
    let scheme: &str = match t {
        AddressType::P2sh => "sh(sortedmulti(",
        AddressType::P2wsh => "wsh(sortedmulti(",
        AddressType::P2shwsh => "sh(wsh(sortedmulti(",
    };
    full.append(scheme);
    watch.append(scheme);
    let ms = u64_to_string(m);
    full.append(ms.as_str());
    watch.append(ms.as_str());
    let suffix: &str = if change {
        "/1/*"
    } else {
        "/0/*"
    };
    let n = sorted.len();
    let mut i: usize = 0;
    proof {
        assert(full_keys(c).take(0) =~= Seq::<Seq<char>>::empty());
        assert(watch_keys(c).take(0) =~= Seq::<Seq<char>>::empty());
        assert(full@ =~= scheme_open(t) + dec_str(m as int) + keys_part(
            full_keys(c).take(0),
            branch_suffix(change),
        ));
        assert(watch@ =~= scheme_open(t) + dec_str(m as int) + keys_part(
            watch_keys(c).take(0),
            branch_suffix(change),
        ));
    }
    while i < n
        invariant
            n == sorted@.len(),
            i <= n,
            c == slots_view(sorted@),
            suffix@ == branch_suffix(change),
            full@ == scheme_open(t) + dec_str(m as int) + keys_part(
                full_keys(c).take(i as int),
                branch_suffix(change),
            ),
            watch@ == scheme_open(t) + dec_str(m as int) + keys_part(
                watch_keys(c).take(i as int),
                branch_suffix(change),
            ),
        decreases n - i,
    {
        full.append(",");
        full.append(sorted[i].full.as_str());
        full.append(suffix);
        watch.append(",");
        watch.append(sorted[i].watch.as_str());
        watch.append(suffix);
        proof {
            reveal_strlit(",");
            assert(","@ =~= seq![',']);
            assert(full_keys(c).take(i + 1) =~= full_keys(c).take(i as int).push(c[i as int].full));
            assert(watch_keys(c).take(i + 1) =~= watch_keys(c).take(i as int).push(
                c[i as int].watch,
            ));
            lemma_keys_part_push(full_keys(c).take(i as int), c[i as int].full, branch_suffix(change));
            lemma_keys_part_push(
                watch_keys(c).take(i as int),
                c[i as int].watch,
                branch_suffix(change),
            );
        }
        i += 1;
    }
    let close: &str = match t {
        AddressType::P2sh => "))",
        AddressType::P2wsh => "))",
        AddressType::P2shwsh => ")))",
    };
    full.append(close);
    watch.append(close);
    proof {
        assert(full_keys(c).take(n as int) =~= full_keys(c));
        assert(watch_keys(c).take(n as int) =~= watch_keys(c));
    }
    (full, watch)
}

/// Whether the two descriptor strings compile for the network:
/// `bdk::Wallet::new` accepts them. A pure function of the inputs.
pub uninterp spec fn descriptor_ok(recv: Seq<char>, chg: Seq<char>, net: int) -> bool;

/// The address derived from the receive descriptor at an index: a pure
/// function of the descriptors, network tag and index.
pub uninterp spec fn address_at(recv: Seq<char>, chg: Seq<char>, net: int, idx: int) -> Seq<char>;

/// Whether address derivation succeeds for the descriptors, network tag
/// and index: a pure function of its arguments.
pub uninterp spec fn derivable(recv: Seq<char>, chg: Seq<char>, net: int, idx: int) -> bool;

/// Relies on bdk's `Wallet::new` over a memory database: it compiles and
/// checks the two descriptors against the network and does no I/O.
#[verifier::external_body]
pub(crate) fn descriptor_compiles(recv: &str, chg: &str, network: Network) -> (r: bool)
    ensures
        r == descriptor_ok(recv@, chg@, network.spec_tag()),
{
    let net = match network {
        Network::Regtest => bdk::bitcoin::Network::Regtest,
        Network::Testnet => bdk::bitcoin::Network::Testnet,
        Network::Mainnet => bdk::bitcoin::Network::Bitcoin,
        Network::Signet => bdk::bitcoin::Network::Signet,
    };
    bdk::Wallet::new(recv, Some(chg), net, bdk::database::MemoryDatabase::default()).is_ok()
}

/// Relies on bdk's `Wallet::get_address` with `Peek`: address derivation
/// at an index reads no chain data and is a pure function of its inputs,
/// and it can only succeed when the descriptors compile. The underlying
/// descriptor library refuses derivation indices at or above 2^31 by
/// panicking, so such indices are kept out.
#[verifier::external_body]
pub(crate) fn peek_address(recv: &str, chg: &str, network: Network, index: u32) -> (r: Option<
    String,
>)
    requires
        index < 0x8000_0000,
    ensures
        r is Some <==> derivable(recv@, chg@, network.spec_tag(), index as int),
        !descriptor_ok(recv@, chg@, network.spec_tag()) ==> r is None,
        r matches Some(a) ==> a@ == address_at(recv@, chg@, network.spec_tag(), index as int),
{
    let net = match network {
        Network::Regtest => bdk::bitcoin::Network::Regtest,
        Network::Testnet => bdk::bitcoin::Network::Testnet,
        Network::Mainnet => bdk::bitcoin::Network::Bitcoin,
        Network::Signet => bdk::bitcoin::Network::Signet,
    };
    let w = bdk::Wallet::new(recv, Some(chg), net, bdk::database::MemoryDatabase::default()).ok()?;
    let a = w.get_address(bdk::wallet::AddressIndex::Peek(index)).ok()?;
    Some(a.address.to_string())
}

} // verus!
