//! The key material core: key pair generation sized to a message capacity,
//! the canonical fixed-width wire format of a public key, and structural
//! validation that rejects identity-element components.

use vstd::prelude::*;

use vstd::arithmetic::mul::lemma_mul_inequality;

use amcl_wrapper::field_elem::FieldElement;
use amcl_wrapper::group_elem_g1::G1;
use amcl_wrapper::group_elem_g2::G2;

use crate::codec::{
    be32, be32_val, g1_seq_sized, h_bytes, lemma_be32_roundtrip, lemma_h_bytes_from_chunks,
    lemma_h_bytes_index, lemma_h_bytes_len, lemma_h_bytes_push,
};
use crate::errors::{DecodeError, MalformedKey};
use crate::groups::{
    commitment_of, g1_bytes_of, g1_canonical, g1_check_identity, g1_decode, g1_decoded, g1_encode,
    g1_is_ident, g1_random, g2_bytes_of, g2_canonical, g2_check_identity, g2_commitment, g2_decode,
    g2_decoded, g2_encode, g2_is_ident, scalar_random, G1_ELEMENT_SIZE, G2_ELEMENT_SIZE,
};

verus! {

/// The private signing exponent: one scalar field element. It is never
/// serialized by this core and must never leave its owner in cleartext.
pub type SecretKey = FieldElement;

/// Offset of the big-endian 32-bit element count in a wire image.
pub const COUNT_OFFSET: usize = G2_ELEMENT_SIZE + G1_ELEMENT_SIZE;

/// Bytes of a wire image before the `h` elements: `w`, `h0` and the count.
pub const WIRE_HEADER_SIZE: usize = G2_ELEMENT_SIZE + G1_ELEMENT_SIZE + 4;

/// A public key of the multi-message signature scheme. `h.len()` is the
/// key's message capacity; the order of `h` is semantically significant,
/// position `i` serves message slot `i`.
#[derive(Clone, Debug, PartialEq)]
pub struct PublicKey {
    /// Blinding factor base: one Group-A element.
    pub h0: G1,
    /// One Group-A base per signable message slot.
    pub h: Vec<G1>,
    /// Commitment to the secret key: one Group-B element.
    pub w: G2,
}

/// The canonical wire image of a public key:
/// `w` ‖ `h0` ‖ big-endian 32-bit count of `h` ‖ each element of `h` in order.
pub open spec fn wire_bytes(k: PublicKey) -> Seq<u8> {
    g2_bytes_of(k.w) + g1_bytes_of(k.h0) + be32(k.h@.len() as u32) + h_bytes(k.h@)
}

/// Every element of the key encodes to its group's fixed width. True of
/// every key this library builds.
pub open spec fn fixed_width(k: PublicKey) -> bool {
    &&& g2_bytes_of(k.w).len() == G2_ELEMENT_SIZE
    &&& g1_bytes_of(k.h0).len() == G1_ELEMENT_SIZE
    &&& g1_seq_sized(k.h@)
}

/// Every element of the key is canonical: its encoding decodes and
/// re-encodes to itself. True of every key this library builds; a caller
/// assembling a key from raw group arithmetic can break it only with a
/// degenerate point-at-infinity representation.
pub open spec fn canonical_elements(k: PublicKey) -> bool {
    &&& g2_canonical(k.w)
    &&& g1_canonical(k.h0)
    &&& forall|i: int| 0 <= i < k.h@.len() ==> g1_canonical(#[trigger] k.h@[i])
}

/// The key has fixed-width, canonical element encodings and its message
/// capacity fits the 32-bit count prefix, so its wire image is faithful
/// and round-trips.
pub open spec fn encodable(k: PublicKey) -> bool {
    &&& fixed_width(k)
    &&& canonical_elements(k)
    &&& k.h@.len() <= u32::MAX
}

/// No component of the key is its group's identity element.
pub open spec fn well_formed_elements(k: PublicKey) -> bool {
    &&& !g1_is_ident(k.h0)
    &&& !g2_is_ident(k.w)
    &&& forall|i: int| 0 <= i < k.h@.len() ==> !g1_is_ident(#[trigger] k.h@[i])
}

/// The element count that a wire image announces in its prefix.
pub open spec fn wire_count(data: Seq<u8>) -> u32
    recommends
        data.len() >= WIRE_HEADER_SIZE,
{
    be32_val(data.subrange(COUNT_OFFSET as int, WIRE_HEADER_SIZE as int))
}

/// The byte range of element `i` in a wire image.
pub open spec fn wire_chunk(data: Seq<u8>, i: int) -> Seq<u8> {
    data.subrange(
        WIRE_HEADER_SIZE + i * G1_ELEMENT_SIZE,
        WIRE_HEADER_SIZE + (i + 1) * G1_ELEMENT_SIZE,
    )
}

/// Whether a byte sequence is long enough to decode: it reaches past the
/// count prefix and holds as many elements as that prefix announces.
pub open spec fn decodes_ok(data: Seq<u8>) -> bool {
    &&& data.len() >= WIRE_HEADER_SIZE
    &&& data.len() >= WIRE_HEADER_SIZE + wire_count(data) * G1_ELEMENT_SIZE
}

/// If the bytes of chunk `i` are the encoding of a canonical element, then
/// `e` (the element decoded from that chunk) encodes back to exactly them.
pub open spec fn chunk_reencodes(data: Seq<u8>, i: int, e: G1) -> bool {
    forall|p: G1|
        g1_canonical(p) && #[trigger] g1_bytes_of(p) == wire_chunk(data, i) ==> g1_bytes_of(e)
            == wire_chunk(data, i)
}

/// Appends all bytes of `src` to `out`.
fn push_bytes(out: &mut Vec<u8>, src: &Vec<u8>)
    ensures
        final(out)@ == old(out)@ + src@,
{
    let mut i: usize = 0;
    while i < src.len()
        invariant
            i <= src@.len(),
            out@ == old(out)@ + src@.subrange(0, i as int),
        decreases src@.len() - i,
    {
        out.push(src[i]);
        proof {
            assert(old(out)@ + src@.subrange(0, i as int) + seq![src@[i as int]] =~= old(out)@
                + src@.subrange(0, i + 1));
        }
        i = i + 1;
    }
    proof {
        assert(src@.subrange(0, src@.len() as int) =~= src@);
    }
}

impl PublicKey {
    /// The number of message slots this key supports.
    pub fn message_count(&self) -> (r: usize)
        ensures
            r == self.h@.len(),
    {
        self.h.len()
    }

    /// Serializes the key into its canonical wire image. Deterministic and
    /// total: the result is exactly `wire_bytes(self)`, of length
    /// `WIRE_HEADER_SIZE + h.len() * G1_ELEMENT_SIZE`.
    #[verifier::loop_isolation(false)]
    pub fn to_bytes(&self) -> (r: Vec<u8>)
        ensures
            r@ == wire_bytes(*self),
            r@.len() == WIRE_HEADER_SIZE + self.h@.len() * G1_ELEMENT_SIZE,
    {
        let mut out: Vec<u8> = Vec::new();
        let wb = g2_encode(&self.w);
        push_bytes(&mut out, &wb);
        let h0b = g1_encode(&self.h0);
        push_bytes(&mut out, &h0b);
        let n: u32 = #[verifier::truncate] (self.h.len() as u32);
        out.push(#[verifier::truncate] ((n >> 24) as u8));
        out.push(#[verifier::truncate] ((n >> 16) as u8));
        out.push(#[verifier::truncate] ((n >> 8) as u8));
        out.push(#[verifier::truncate] (n as u8));
        proof {
            assert(out@ =~= g2_bytes_of(self.w) + g1_bytes_of(self.h0) + be32(n));
        }
        let mut i: usize = 0;
        while i < self.h.len()
            invariant
                i <= self.h@.len(),
                out@ == g2_bytes_of(self.w) + g1_bytes_of(self.h0) + be32(n) + h_bytes(
                    self.h@.subrange(0, i as int),
                ),
                out@.len() == WIRE_HEADER_SIZE + i * G1_ELEMENT_SIZE,
            decreases self.h@.len() - i,
        {
            let eb = g1_encode(&self.h[i]);
            push_bytes(&mut out, &eb);
            proof {
                lemma_h_bytes_push(self.h@.subrange(0, i as int), self.h@[i as int]);
                assert(self.h@.subrange(0, i + 1) =~= self.h@.subrange(0, i as int).push(
                    self.h@[i as int],
                ));
                assert(out@ =~= g2_bytes_of(self.w) + g1_bytes_of(self.h0) + be32(n) + h_bytes(
                    self.h@.subrange(0, i + 1),
                ));
            }
            i = i + 1;
        }
        proof {
            assert(self.h@.subrange(0, self.h@.len() as int) =~= self.h@);
        }
        out
    }

    /// Parses a wire image back into a key, advancing over `w`, `h0`, the
    /// count, and the announced number of elements in order. Fails with
    /// `DecodeError::Truncated`, and never panics, on input too short at any
    /// field boundary — including a count prefix announcing more elements
    /// than the input holds. An element rejected by its group's decoder
    /// would surface as `DecodeError::InvalidElement`.
    ///
    /// On success every component is pinned: each is what the group decoder
    /// returns on its fixed-width chunk of the input, in order, so only the
    /// announced prefix of the input matters and trailing bytes change
    /// nothing. Decoding the wire image of an encodable key reconstructs
    /// the key: the result has the same capacity and its components encode
    /// to the same bytes, so its own wire image is the input, byte for
    /// byte.
    #[verifier::loop_isolation(false)]
    #[verifier::rlimit(60)]
    pub fn from_bytes(data: &[u8]) -> (r: Result<PublicKey, DecodeError>)
        ensures
            r is Ok <==> decodes_ok(data@),
            !decodes_ok(data@) ==> r == Err::<PublicKey, DecodeError>(DecodeError::Truncated),
            r is Ok ==> r->Ok_0.h@.len() == wire_count(data@) && encodable(r->Ok_0),
            r is Ok ==> r->Ok_0.w == g2_decoded(data@.subrange(0, G2_ELEMENT_SIZE as int))
                && r->Ok_0.h0 == g1_decoded(
                data@.subrange(G2_ELEMENT_SIZE as int, COUNT_OFFSET as int),
            ) && (forall|i: int|
                0 <= i < r->Ok_0.h@.len() ==> r->Ok_0.h@[i] == g1_decoded(
                    #[trigger] wire_chunk(data@, i),
                )),
            forall|k: PublicKey|
                encodable(k) && data@ == #[trigger] wire_bytes(k) ==> r is Ok
                    && r->Ok_0.h@.len() == k.h@.len() && g2_bytes_of(r->Ok_0.w) == g2_bytes_of(k.w)
                    && g1_bytes_of(r->Ok_0.h0) == g1_bytes_of(k.h0) && (forall|i: int|
                    0 <= i < k.h@.len() ==> g1_bytes_of(r->Ok_0.h@[i]) == g1_bytes_of(
                        #[trigger] k.h@[i],
                    )) && wire_bytes(r->Ok_0) == data@,
    {
        if data.len() < G2_ELEMENT_SIZE {
            proof {
                assert forall|k: PublicKey|
                    encodable(k) && data@ == #[trigger] wire_bytes(k) implies false by {
                    lemma_wire_accepts(k);
                }
            }
            return Err(DecodeError::Truncated);
        }
        let w = match g2_decode(&data[0..G2_ELEMENT_SIZE]) {
            Ok(p) => p,
            Err(_) => { return Err(DecodeError::InvalidElement) },
        };
        if data.len() - G2_ELEMENT_SIZE < G1_ELEMENT_SIZE {
            proof {
                assert forall|k: PublicKey|
                    encodable(k) && data@ == #[trigger] wire_bytes(k) implies false by {
                    lemma_wire_accepts(k);
                }
            }
            return Err(DecodeError::Truncated);
        }
        let h0 = match g1_decode(&data[G2_ELEMENT_SIZE..COUNT_OFFSET]) {
            Ok(p) => p,
            Err(_) => { return Err(DecodeError::InvalidElement) },
        };
        if data.len() - COUNT_OFFSET < 4 {
            proof {
                assert forall|k: PublicKey|
                    encodable(k) && data@ == #[trigger] wire_bytes(k) implies false by {
                    lemma_wire_accepts(k);
                }
            }
            return Err(DecodeError::Truncated);
        }
        let b0 = data[COUNT_OFFSET];
        let b1 = data[COUNT_OFFSET + 1];
        let b2 = data[COUNT_OFFSET + 2];
        let b3 = data[COUNT_OFFSET + 3];
        let n: u32 = ((b0 as u32) << 24) | ((b1 as u32) << 16) | ((b2 as u32) << 8) | (b3 as u32);
        proof {
            assert(data@.subrange(COUNT_OFFSET as int, WIRE_HEADER_SIZE as int) =~= seq![
                data@[COUNT_OFFSET as int],
                data@[COUNT_OFFSET + 1],
                data@[COUNT_OFFSET + 2],
                data@[COUNT_OFFSET + 3],
            ]);
            assert(n == wire_count(data@));
        }
        let n_elems: usize = n as usize;
        let mut h: Vec<G1> = Vec::new();
        let mut index: usize = WIRE_HEADER_SIZE;
        let mut j: usize = 0;
        while j < n_elems
            invariant
                j <= n_elems,
                h@.len() == j,
                index == WIRE_HEADER_SIZE + j * G1_ELEMENT_SIZE,
                index <= data@.len(),
                forall|jj: int|
                    0 <= jj < j ==> g1_bytes_of(#[trigger] h@[jj]).len() == G1_ELEMENT_SIZE,
                forall|jj: int| 0 <= jj < j ==> g1_canonical(#[trigger] h@[jj]),
                forall|jj: int|
                    0 <= jj < j ==> #[trigger] h@[jj] == g1_decoded(wire_chunk(data@, jj)),
                forall|jj: int| 0 <= jj < j ==> chunk_reencodes(data@, jj, #[trigger] h@[jj]),
            decreases n_elems - j,
        {
            if data.len() - index < G1_ELEMENT_SIZE {
                proof {
                    lemma_mul_inequality(j + 1, n_elems as int, G1_ELEMENT_SIZE as int);
                    assert(!decodes_ok(data@));
                    assert forall|k: PublicKey|
                        encodable(k) && data@ == #[trigger] wire_bytes(k) implies false by {
                        lemma_wire_accepts(k);
                    }
                }
                return Err(DecodeError::Truncated);
            }
            let e = match g1_decode(&data[index..index + G1_ELEMENT_SIZE]) {
                Ok(p) => p,
                Err(_) => { return Err(DecodeError::InvalidElement) },
            };
            proof {
                assert(data@.subrange(index as int, index + G1_ELEMENT_SIZE) == wire_chunk(
                    data@,
                    j as int,
                ));
            }
            h.push(e);
            index = index + G1_ELEMENT_SIZE;
            j = j + 1;
        }
        let key = PublicKey { h0, h, w };
        proof {
            assert(decodes_ok(data@));
            assert forall|k: PublicKey|
                encodable(k) && data@ == #[trigger] wire_bytes(k) implies key.h@.len()
                == k.h@.len() && g2_bytes_of(key.w) == g2_bytes_of(k.w) && g1_bytes_of(key.h0)
                == g1_bytes_of(k.h0) && (forall|i: int|
                0 <= i < k.h@.len() ==> g1_bytes_of(key.h@[i]) == g1_bytes_of(#[trigger] k.h@[i]))
                && wire_bytes(key) == data@ by {
                lemma_decoded_matches(data@, key, k);
            }
        }
        Ok(key)
    }

    /// Structural validation: succeeds exactly when neither `w`, nor `h0`,
    /// nor any element of `h` is its group's identity element. Necessary,
    /// not sufficient, for safe use of the key; no side effects.
    #[verifier::loop_isolation(false)]
    pub fn validate(&self) -> (r: Result<(), MalformedKey>)
        ensures
            r is Ok <==> well_formed_elements(*self),
    {
        if g1_check_identity(&self.h0) || g2_check_identity(&self.w) {
            return Err(MalformedKey);
        }
        let mut i: usize = 0;
        while i < self.h.len()
            invariant
                i <= self.h@.len(),
                forall|jj: int| 0 <= jj < i ==> !g1_is_ident(#[trigger] self.h@[jj]),
            decreases self.h@.len() - i,
        {
            if g1_check_identity(&self.h[i]) {
                return Err(MalformedKey);
            }
            i = i + 1;
        }
        Ok(())
    }
}

/// Draws a fresh key pair with capacity for `message_count` messages: a
/// random nonzero secret scalar, its Group-B commitment `w = secret ·
/// generator_B`, and `message_count + 1` random Group-A bases (`h0` and
/// `h`). Random elements are identity only with negligible probability, so
/// the result is not re-validated here; callers holding keys from
/// untrusted sources should still call `validate`.
#[verifier::loop_isolation(false)]
pub fn generate(message_count: usize) -> (r: (PublicKey, SecretKey))
    ensures
        r.0.h@.len() == message_count,
        r.0.w == commitment_of(r.1),
        fixed_width(r.0),
        canonical_elements(r.0),
{
    let secret = scalar_random();
    // The commitment base is the provider's fixed Group-B generator. In a
    // production deployment it should be an agreed setup parameter instead,
    // so that no party could have chosen it with knowledge of a trapdoor.
    let w = g2_commitment(&secret);
    let mut h: Vec<G1> = Vec::new();
    let mut i: usize = 0;
    while i < message_count
        invariant
            i <= message_count,
            h@.len() == i,
            forall|jj: int| 0 <= jj < i ==> g1_bytes_of(#[trigger] h@[jj]).len() == G1_ELEMENT_SIZE,
            forall|jj: int| 0 <= jj < i ==> g1_canonical(#[trigger] h@[jj]),
        decreases message_count - i,
    {
        h.push(g1_random());
        i = i + 1;
    }
    let h0 = g1_random();
    (PublicKey { h0, h, w }, secret)
}

/// Length contract of the wire format: a key with capacity `n` always
/// serializes to exactly `WIRE_HEADER_SIZE + n * G1_ELEMENT_SIZE` bytes.
pub proof fn lemma_wire_length(k: PublicKey)
    requires
        fixed_width(k),
    ensures
        wire_bytes(k).len() == WIRE_HEADER_SIZE + k.h@.len() * G1_ELEMENT_SIZE,
{
    lemma_h_bytes_len(k.h@);
}

/// Success half of the round trip: the wire image of any encodable key is
/// accepted by the decoder, and announces the key's own capacity.
pub proof fn lemma_wire_accepts(k: PublicKey)
    requires
        encodable(k),
    ensures
        decodes_ok(wire_bytes(k)),
        wire_count(wire_bytes(k)) == k.h@.len(),
{
    lemma_h_bytes_len(k.h@);
    assert(wire_bytes(k).subrange(COUNT_OFFSET as int, WIRE_HEADER_SIZE as int) =~= be32(
        k.h@.len() as u32,
    ));
    lemma_be32_roundtrip(k.h@.len() as u32);
}

/// Truncation rejection: no strict prefix of a wire image decodes — the
/// decoder either fails to reach the count prefix, or finds the input
/// shorter than the element count it announces.
pub proof fn lemma_truncation_rejected(k: PublicKey, m: int)
    requires
        encodable(k),
        0 <= m < wire_bytes(k).len(),
    ensures
        !decodes_ok(wire_bytes(k).subrange(0, m)),
{
    let full = wire_bytes(k);
    let pre = full.subrange(0, m);
    lemma_wire_length(k);
    lemma_wire_accepts(k);
    if m >= WIRE_HEADER_SIZE {
        assert(pre.subrange(COUNT_OFFSET as int, WIRE_HEADER_SIZE as int) =~= full.subrange(
            COUNT_OFFSET as int,
            WIRE_HEADER_SIZE as int,
        ));
        assert(wire_count(pre) == k.h@.len());
    }
}

/// Determinism of encoding: the wire image is a function of the key alone,
/// so any two byte sequences serialized from the same key are equal.
pub proof fn lemma_encoding_deterministic(k: PublicKey, r1: Seq<u8>, r2: Seq<u8>)
    requires
        r1 == wire_bytes(k),
        r2 == wire_bytes(k),
    ensures
        r1 == r2,
{
}

/// A decoded key whose components re-encode chunk for chunk matches, field
/// for field, any encodable key whose wire image the input was.
proof fn lemma_decoded_matches(data: Seq<u8>, key: PublicKey, k: PublicKey)
    requires
        encodable(k),
        data == wire_bytes(k),
        key.h@.len() == wire_count(data),
        g2_bytes_of(key.w).len() == G2_ELEMENT_SIZE,
        g1_bytes_of(key.h0).len() == G1_ELEMENT_SIZE,
        g1_seq_sized(key.h@),
        forall|p: G2|
            g2_canonical(p) && #[trigger] g2_bytes_of(p) == data.subrange(0, G2_ELEMENT_SIZE as int)
                ==> g2_bytes_of(key.w) == data.subrange(0, G2_ELEMENT_SIZE as int),
        forall|p: G1|
            g1_canonical(p) && #[trigger] g1_bytes_of(p) == data.subrange(
                G2_ELEMENT_SIZE as int,
                COUNT_OFFSET as int,
            ) ==> g1_bytes_of(key.h0) == data.subrange(
                G2_ELEMENT_SIZE as int,
                COUNT_OFFSET as int,
            ),
        forall|jj: int| 0 <= jj < key.h@.len() ==> chunk_reencodes(data, jj, #[trigger] key.h@[jj]),
    ensures
        key.h@.len() == k.h@.len(),
        g2_bytes_of(key.w) == g2_bytes_of(k.w),
        g1_bytes_of(key.h0) == g1_bytes_of(k.h0),
        forall|i: int|
            0 <= i < k.h@.len() ==> g1_bytes_of(key.h@[i]) == g1_bytes_of(#[trigger] k.h@[i]),
        wire_bytes(key) == data,
{
    lemma_wire_length(k);
    lemma_h_bytes_len(k.h@);
    lemma_be32_roundtrip(k.h@.len() as u32);
    assert(data.subrange(COUNT_OFFSET as int, WIRE_HEADER_SIZE as int) =~= be32(
        k.h@.len() as u32,
    ));
    assert(key.h@.len() == k.h@.len());
    assert(data.subrange(0, G2_ELEMENT_SIZE as int) =~= g2_bytes_of(k.w));
    assert(g2_bytes_of(key.w) == g2_bytes_of(k.w));
    assert(data.subrange(G2_ELEMENT_SIZE as int, COUNT_OFFSET as int) =~= g1_bytes_of(k.h0));
    assert(g1_bytes_of(key.h0) == g1_bytes_of(k.h0));
    let n = k.h@.len() as int;
    let tail = data.subrange(WIRE_HEADER_SIZE as int, WIRE_HEADER_SIZE + n * G1_ELEMENT_SIZE);
    assert(tail =~= h_bytes(k.h@));
    assert forall|i: int| 0 <= i < n implies wire_chunk(data, i) == g1_bytes_of(
        #[trigger] k.h@[i],
    ) by {
        lemma_mul_inequality(i + 1, n, G1_ELEMENT_SIZE as int);
        lemma_h_bytes_index(k.h@, i);
        assert(wire_chunk(data, i) =~= h_bytes(k.h@).subrange(
            i * G1_ELEMENT_SIZE,
            (i + 1) * G1_ELEMENT_SIZE,
        ));
    }
    assert forall|i: int| 0 <= i < n implies g1_bytes_of(key.h@[i]) == g1_bytes_of(
        #[trigger] k.h@[i],
    ) by {
        assert(chunk_reencodes(data, i, key.h@[i]));
        assert(g1_bytes_of(k.h@[i]) == wire_chunk(data, i));
    }
    assert forall|i: int| 0 <= i < n implies #[trigger] g1_bytes_of(key.h@[i]) == tail.subrange(
        i * G1_ELEMENT_SIZE,
        (i + 1) * G1_ELEMENT_SIZE,
    ) by {
        lemma_mul_inequality(i + 1, n, G1_ELEMENT_SIZE as int);
        assert(tail.subrange(i * G1_ELEMENT_SIZE, (i + 1) * G1_ELEMENT_SIZE) =~= wire_chunk(
            data,
            i,
        ));
        assert(wire_chunk(data, i) == g1_bytes_of(k.h@[i]));
        assert(chunk_reencodes(data, i, key.h@[i]));
        assert(g1_bytes_of(key.h@[i]) == wire_chunk(data, i));
    }
    lemma_h_bytes_from_chunks(key.h@, tail);
    assert(be32(key.h@.len() as u32) == data.subrange(COUNT_OFFSET as int, WIRE_HEADER_SIZE as int));
    assert(wire_bytes(key) =~= data);
}

} // verus!
