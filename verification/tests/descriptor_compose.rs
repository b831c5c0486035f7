use ohm::descriptor::{compose_descriptor, KeySlot};
use ohm::AddressType;

fn slot(key: &str) -> KeySlot {
    KeySlot { watch: key.to_string(), full: key.to_string() }
}

#[test]
fn compose_exact_format() {
    let (full, watch) = compose_descriptor(
        AddressType::P2wsh,
        2,
        vec![slot("b"), slot("a")],
        false,
    );
    assert_eq!(full, "wsh(sortedmulti(2,a/0/*,b/0/*))");
    assert_eq!(watch, "wsh(sortedmulti(2,a/0/*,b/0/*))");
}

#[test]
fn compose_change_branch() {
    let (full, _) = compose_descriptor(AddressType::P2sh, 1, vec![slot("k")], true);
    assert_eq!(full, "sh(sortedmulti(1,k/1/*))");
}

#[test]
fn compose_wrapped_scheme() {
    let (full, _) = compose_descriptor(AddressType::P2shwsh, 1, vec![slot("k")], false);
    assert_eq!(full, "sh(wsh(sortedmulti(1,k/0/*)))");
}

#[test]
fn compose_invariant_under_permutation() {
    let keys = ["zeta", "alpha", "mid"];
    let (f1, w1) = compose_descriptor(
        AddressType::P2wsh,
        2,
        keys.iter().map(|k| slot(k)).collect(),
        false,
    );
    let (f2, w2) = compose_descriptor(
        AddressType::P2wsh,
        2,
        keys.iter().rev().map(|k| slot(k)).collect(),
        false,
    );
    assert_eq!(f1, f2);
    assert_eq!(w1, w2);
    assert_eq!(f1, "wsh(sortedmulti(2,alpha/0/*,mid/0/*,zeta/0/*))");
}

#[test]
fn compose_separates_watch_and_full() {
    let internal = KeySlot { watch: "PUB".to_string(), full: "PRV".to_string() };
    let (full, watch) = compose_descriptor(
        AddressType::P2wsh,
        1,
        vec![internal, slot("EXT")],
        false,
    );
    assert_eq!(full, "wsh(sortedmulti(1,EXT/0/*,PRV/0/*))");
    assert_eq!(watch, "wsh(sortedmulti(1,EXT/0/*,PUB/0/*))");
    assert_eq!(watch, full.replace("PRV", "PUB"));
}
