//! Trusted boundary to the group arithmetic provider (`amcl_wrapper`, curve
//! BLS12-381).
//!
//! The key material logic treats group elements as opaque values with a few
//! observable capabilities: a fixed-width byte encoding, a decoder for such
//! encodings, an identity-element test, and the commitment to a secret
//! scalar. Each capability is named by an uninterpreted spec function and
//! reached through a small `external_body` wrapper whose contract states
//! what the provider's source shows — in particular, re-encoding an encoded
//! element reproduces its bytes only for canonical elements, since the
//! provider serializes a point at infinity without normalizing its
//! coordinates.

use vstd::prelude::*;

use amcl_wrapper::errors::SerzDeserzError;
use amcl_wrapper::field_elem::FieldElement;
use amcl_wrapper::group_elem::GroupElement;
use amcl_wrapper::group_elem_g1::G1;
use amcl_wrapper::group_elem_g2::G2;

verus! {

/// Byte width of a serialized Group-A (G1) element: `GroupG1_SIZE` in the
/// provider, `2 * MODBYTES + 1` with `MODBYTES = 48` on BLS12-381.
pub const G1_ELEMENT_SIZE: usize = 97;

/// Byte width of a serialized Group-B (G2) element: `GroupG2_SIZE` in the
/// provider, `4 * MODBYTES` with `MODBYTES = 48` on BLS12-381.
pub const G2_ELEMENT_SIZE: usize = 192;

#[verifier::external_type_specification]
#[verifier::external_body]
pub struct ExG1(G1);

#[verifier::external_type_specification]
#[verifier::external_body]
pub struct ExG2(G2);

#[verifier::external_type_specification]
#[verifier::external_body]
pub struct ExFieldElement(FieldElement);

#[verifier::external_type_specification]
#[verifier::external_body]
pub struct ExSerzDeserzError(SerzDeserzError);

/// The canonical byte encoding of a G1 element, the sequence that
/// `G1::to_bytes` returns: a function of the element alone.
pub uninterp spec fn g1_bytes_of(p: G1) -> Seq<u8>;

/// The canonical byte encoding of a G2 element, the sequence that
/// `G2::to_bytes` returns: a function of the element alone.
pub uninterp spec fn g2_bytes_of(p: G2) -> Seq<u8>;

/// Whether a G1 element is the identity, as `G1::is_identity` reports it.
pub uninterp spec fn g1_is_ident(p: G1) -> bool;

/// Whether a G2 element is the identity, as `G2::is_identity` reports it.
pub uninterp spec fn g2_is_ident(p: G2) -> bool;

/// Whether a G1 element's encoding decodes and re-encodes to itself. This
/// holds of every element the provider hands back (decoded points carry
/// normalized coordinates; a decoded or freshly drawn infinity is the
/// normalized one), but not of every value reachable through its group
/// arithmetic: subtracting a point from itself leaves an infinity whose
/// stale projective coordinates encode differently from the normalized
/// infinity that decoding returns.
pub uninterp spec fn g1_canonical(p: G1) -> bool;

/// The G2 twin of [`g1_canonical`].
pub uninterp spec fn g2_canonical(p: G2) -> bool;

/// The element that `G1::from_bytes` returns on a slice of the fixed G1
/// width: a function of the bytes alone.
pub uninterp spec fn g1_decoded(b: Seq<u8>) -> G1;

/// The element that `G2::from_bytes` returns on a slice of the fixed G2
/// width: a function of the bytes alone.
pub uninterp spec fn g2_decoded(b: Seq<u8>) -> G2;

/// The commitment `s · generator_B`: what `G2::scalar_mul_const_time`
/// returns when the base is the provider's fixed Group-B generator. The
/// generator is a scheme-wide constant, so the result is a function of the
/// scalar alone.
pub uninterp spec fn commitment_of(s: FieldElement) -> G2;

/// Whether a scalar is the field's zero, as `FieldElement::is_zero`
/// reports it.
pub uninterp spec fn scalar_zero(s: FieldElement) -> bool;

/// Relies on `G1`'s derived `Clone`: the copy is the same element.
pub assume_specification[ <G1 as Clone>::clone ](p: &G1) -> (r: G1)
    ensures
        r == *p,
;

/// Relies on `G2`'s derived `Clone`: the copy is the same element.
pub assume_specification[ <G2 as Clone>::clone ](p: &G2) -> (r: G2)
    ensures
        r == *p,
;

/// Relies on `G1::to_bytes`: writes the element, uncompressed, into exactly
/// `GroupG1_SIZE` bytes, depending on the element alone.
#[verifier::external_body]
pub(crate) fn g1_encode(p: &G1) -> (r: Vec<u8>)
    ensures
        r@ == g1_bytes_of(*p),
        r@.len() == G1_ELEMENT_SIZE,
{
    p.to_bytes()
}

/// Relies on `G2::to_bytes`: writes the element, uncompressed, into exactly
/// `GroupG2_SIZE` bytes, depending on the element alone.
#[verifier::external_body]
pub(crate) fn g2_encode(p: &G2) -> (r: Vec<u8>)
    ensures
        r@ == g2_bytes_of(*p),
        r@.len() == G2_ELEMENT_SIZE,
{
    p.to_bytes()
}

/// Relies on `G1::from_bytes`: fails exactly when the slice is not
/// `GroupG1_SIZE` bytes long. The result is a function of the bytes alone,
/// is itself canonical (decoded points carry normalized coordinates), and
/// on a slice that is the encoding of a canonical element it encodes back
/// to those very bytes.
#[verifier::external_body]
pub(crate) fn g1_decode(b: &[u8]) -> (r: Result<G1, SerzDeserzError>)
    ensures
        r is Ok <==> b@.len() == G1_ELEMENT_SIZE,
        r is Ok ==> r->Ok_0 == g1_decoded(b@),
        r is Ok ==> g1_bytes_of(r->Ok_0).len() == G1_ELEMENT_SIZE,
        r is Ok ==> g1_canonical(r->Ok_0),
        forall|p: G1|
            g1_canonical(p) && #[trigger] g1_bytes_of(p) == b@ ==> g1_bytes_of(r->Ok_0) == b@,
{
    G1::from_bytes(b)
}

/// Relies on `G2::from_bytes`: fails exactly when the slice is not
/// `GroupG2_SIZE` bytes long. The result is a function of the bytes alone,
/// is itself canonical (decoded points carry normalized coordinates), and
/// on a slice that is the encoding of a canonical element it encodes back
/// to those very bytes.
#[verifier::external_body]
pub(crate) fn g2_decode(b: &[u8]) -> (r: Result<G2, SerzDeserzError>)
    ensures
        r is Ok <==> b@.len() == G2_ELEMENT_SIZE,
        r is Ok ==> r->Ok_0 == g2_decoded(b@),
        r is Ok ==> g2_bytes_of(r->Ok_0).len() == G2_ELEMENT_SIZE,
        r is Ok ==> g2_canonical(r->Ok_0),
        forall|p: G2|
            g2_canonical(p) && #[trigger] g2_bytes_of(p) == b@ ==> g2_bytes_of(r->Ok_0) == b@,
{
    G2::from_bytes(b)
}

/// Relies on `G1::is_identity`: reports whether the element is the group's
/// neutral element, depending on the element alone.
#[verifier::external_body]
pub(crate) fn g1_check_identity(p: &G1) -> (r: bool)
    ensures
        r == g1_is_ident(*p),
{
    p.is_identity()
}

/// Relies on `G2::is_identity`: reports whether the element is the group's
/// neutral element, depending on the element alone.
#[verifier::external_body]
pub(crate) fn g2_check_identity(p: &G2) -> (r: bool)
    ensures
        r == g2_is_ident(*p),
{
    p.is_identity()
}

/// Relies on `G1::random`: draws a fresh element from the provider's
/// randomness source. Nothing is promised of which element comes back, only
/// that its encoding has the fixed G1 width and that it is canonical: the
/// provider draws a nonzero scalar and multiplies the generator, so the
/// result is never a point at infinity.
#[verifier::external_body]
pub(crate) fn g1_random() -> (r: G1)
    ensures
        g1_bytes_of(r).len() == G1_ELEMENT_SIZE,
        g1_canonical(r),
{
    G1::random()
}

/// Relies on `FieldElement::random`: draws a fresh scalar from the
/// provider's randomness source. Nothing is promised of which scalar comes
/// back except that it is nonzero: the provider redraws until the value
/// modulo the group order is not zero.
#[verifier::external_body]
pub(crate) fn scalar_random() -> (r: FieldElement)
    ensures
        !scalar_zero(r),
{
    FieldElement::random()
}

/// Relies on `G2::generator` and `G2::scalar_mul_const_time`: the public
/// commitment `s · generator_B` to a secret scalar. The fixed generator
/// makes the result a function of the scalar alone. For a nonzero scalar
/// the result is a proper point, never an infinity, hence canonical;
/// nothing is promised of a zero scalar's commitment beyond its width.
#[verifier::external_body]
pub(crate) fn g2_commitment(s: &FieldElement) -> (r: G2)
    ensures
        r == commitment_of(*s),
        g2_bytes_of(r).len() == G2_ELEMENT_SIZE,
        !scalar_zero(*s) ==> g2_canonical(r),
{
    G2::generator().scalar_mul_const_time(s)
}

} // verus!
