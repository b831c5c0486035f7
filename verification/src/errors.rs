use vstd::prelude::*;

verus! {

/// The error taxonomy of the engine.
///
/// Every fallible operation of the library reports one of these categories;
/// a transport maps them to its own status codes.
#[derive(Clone, Copy, Debug, PartialEq, Eq, Structural)]
pub enum OhmError {
    /// Caller-side malformed input (UUID, email, xpub, descriptor, amount,
    /// network or address-type tag).
    InvalidArgument,
    /// A referenced entity does not exist.
    NotFound,
    /// A once-settable field was set a second time.
    AlreadyBound,
    /// The chain library rejected a combine or sign request.
    Incompatible,
    /// The operation requires a persisted parent entity.
    NotSaved,
    /// Store, key-generation or descriptor-library failure.
    Internal,
}

impl OhmError {
    /// A short human-readable description of the category.
    pub fn message(self) -> (r: &'static str)
        ensures
            r@.len() > 0,
    {
        proof {
            reveal_strlit("invalid argument");
            reveal_strlit("not found");
            reveal_strlit("already bound");
            reveal_strlit("incompatible");
            reveal_strlit("not saved");
            reveal_strlit("internal error");
        }
        match self {
            OhmError::InvalidArgument => "invalid argument",
            OhmError::NotFound => "not found",
            OhmError::AlreadyBound => "already bound",
            OhmError::Incompatible => "incompatible",
            OhmError::NotSaved => "not saved",
            OhmError::Internal => "internal error",
        }
    }
}

} // verus!
