//! The two error kinds of the key material core. Both are final: a caller
//! rejects the offending key and recovers; nothing is retried or repaired.

use vstd::prelude::*;

verus! {

/// Failure of [`crate::keys::PublicKey::from_bytes`].
#[derive(Clone, Copy, Debug, PartialEq, Eq, Structural)]
pub enum DecodeError {
    /// The input ends before a field boundary, or before the number of
    /// elements its own count prefix announces.
    Truncated,
    /// An embedded element was rejected by its group's decoder.
    InvalidElement,
}

/// Failure of [`crate::keys::PublicKey::validate`]: some component of the
/// key is its group's identity element.
#[derive(Clone, Copy, Debug, PartialEq, Eq, Structural)]
pub struct MalformedKey;

} // verus!
