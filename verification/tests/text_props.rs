use ohm::text::{str_eq, str_le, u64_to_string};
use ohm::OhmError;

#[test]
fn decimal_rendering_exact() {
    assert_eq!(u64_to_string(0), "0");
    assert_eq!(u64_to_string(7), "7");
    assert_eq!(u64_to_string(10), "10");
    assert_eq!(u64_to_string(40001), "40001");
    assert_eq!(u64_to_string(u64::MAX), "18446744073709551615");
}

#[test]
fn lexicographic_order() {
    assert!(str_le("", "a"));
    assert!(str_le("a", "a"));
    assert!(str_le("a", "b"));
    assert!(!str_le("b", "a"));
    assert!(str_le("abc", "abd"));
    assert!(str_le("ab", "abc"));
    assert!(!str_le("abc", "ab"));
    assert!(str_le("2N4eQ", "2N4eR"));
}

#[test]
fn string_equality() {
    assert!(str_eq("tpub", "tpub"));
    assert!(!str_eq("tpub", "tprv"));
    assert!(!str_eq("tpub", "tpubD"));
}

#[test]
fn error_messages_name_their_category() {
    assert_eq!(OhmError::InvalidArgument.message(), "invalid argument");
    assert_eq!(OhmError::NotFound.message(), "not found");
    assert_eq!(OhmError::AlreadyBound.message(), "already bound");
    assert_eq!(OhmError::Incompatible.message(), "incompatible");
    assert_eq!(OhmError::NotSaved.message(), "not saved");
    assert_eq!(OhmError::Internal.message(), "internal error");
}
