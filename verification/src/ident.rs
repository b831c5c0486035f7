use vstd::prelude::*;

verus! {

/// Whether `uuid::Uuid::parse_str` accepts the string.
pub uninterp spec fn is_valid_uuid(s: Seq<char>) -> bool;

/// Whether `email_address::EmailAddress::from_str` accepts the string.
pub uninterp spec fn is_valid_email(s: Seq<char>) -> bool;

/// Relies on uuid's `Uuid::new_v4` and `Uuid::to_string`: a fresh v4 UUID
/// renders in the canonical hyphenated form, which `Uuid::parse_str`
/// accepts. Nothing is assumed about which UUID comes out.
#[verifier::external_body]
pub(crate) fn new_uuid() -> (r: String)
    ensures
        is_valid_uuid(r@),
{
    uuid::Uuid::new_v4().to_string()
}

/// Relies on uuid's `Uuid::parse_str`: acceptance depends on the characters
/// alone.
#[verifier::external_body]
pub(crate) fn uuid_ok(s: &str) -> (r: bool)
    ensures
        r == is_valid_uuid(s@),
{
    uuid::Uuid::parse_str(s).is_ok()
}

/// Relies on email_address's `EmailAddress::from_str`: acceptance depends on
/// the characters alone.
#[verifier::external_body]
pub(crate) fn email_ok(s: &str) -> (r: bool)
    ensures
        r == is_valid_email(s@),
{
    s.parse::<email_address::EmailAddress>().is_ok()
}

/// Relies on chrono's `Utc::now`: seconds since the Unix epoch, read from
/// the clock. Nothing is assumed about the value.
#[verifier::external_body]
pub(crate) fn now_ts() -> i64 {
    chrono::Utc::now().timestamp()
}

} // verus!
