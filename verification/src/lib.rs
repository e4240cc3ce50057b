//! Key material for a pairing-based multi-message signature scheme.
//!
//! The library generates secret/public key pairs sized to a fixed number of
//! message slots, encodes and decodes public keys in a canonical fixed-width
//! wire format, and validates that no key component is its group's identity
//! element. The underlying elliptic-curve arithmetic comes from an outside
//! provider and is reached only through the trusted boundary in [`groups`].

pub mod codec;
pub mod errors;
pub mod groups;
pub mod keys;
