//! Byte-level building blocks of the public key wire format: the big-endian
//! 32-bit count and the concatenation of fixed-width element encodings.

use vstd::prelude::*;

use amcl_wrapper::group_elem_g1::G1;

use crate::groups::{g1_bytes_of, G1_ELEMENT_SIZE};

verus! {

/// The four big-endian bytes of a 32-bit count.
pub open spec fn be32(n: u32) -> Seq<u8> {
    seq![(n >> 24) as u8, (n >> 16) as u8, (n >> 8) as u8, n as u8]
}

/// The 32-bit count held by four big-endian bytes.
pub open spec fn be32_word(b0: u8, b1: u8, b2: u8, b3: u8) -> u32 {
    ((b0 as u32) << 24) | ((b1 as u32) << 16) | ((b2 as u32) << 8) | (b3 as u32)
}

/// The 32-bit count held by a four-byte sequence.
pub open spec fn be32_val(s: Seq<u8>) -> u32
    recommends
        s.len() == 4,
{
    be32_word(s[0], s[1], s[2], s[3])
}

/// Reading back the four big-endian bytes of a count yields the count.
pub proof fn lemma_be32_roundtrip(n: u32)
    ensures
        be32_val(be32(n)) == n,
{
    assert(((((n >> 24) as u8) as u32) << 24) | ((((n >> 16) as u8) as u32) << 16) | ((((n
        >> 8) as u8) as u32) << 8) | ((n as u8) as u32) == n) by (bit_vector);
}

/// Every element of the sequence encodes to the fixed G1 width.
pub open spec fn g1_seq_sized(h: Seq<G1>) -> bool {
    forall|i: int| 0 <= i < h.len() ==> (#[trigger] g1_bytes_of(h[i])).len() == G1_ELEMENT_SIZE
}

/// The encodings of a sequence of G1 elements, in order.
pub open spec fn h_bytes(h: Seq<G1>) -> Seq<u8>
    decreases h.len(),
{
    if h.len() == 0 {
        Seq::empty()
    } else {
        h_bytes(h.drop_last()) + g1_bytes_of(h.last())
    }
}

pub proof fn lemma_h_bytes_len(h: Seq<G1>)
    requires
        g1_seq_sized(h),
    ensures
        h_bytes(h).len() == h.len() * G1_ELEMENT_SIZE,
    decreases h.len(),
{
    if h.len() > 0 {
        assert(g1_seq_sized(h.drop_last()));
        lemma_h_bytes_len(h.drop_last());
    }
}

pub proof fn lemma_h_bytes_push(h: Seq<G1>, e: G1)
    ensures
        h_bytes(h.push(e)) == h_bytes(h) + g1_bytes_of(e),
{
    assert(h.push(e).drop_last() =~= h);
    assert(h.push(e).last() == e);
}

pub proof fn lemma_h_bytes_index(h: Seq<G1>, i: int)
    requires
        g1_seq_sized(h),
        0 <= i < h.len(),
    ensures
        h_bytes(h).subrange(i * G1_ELEMENT_SIZE, (i + 1) * G1_ELEMENT_SIZE) == g1_bytes_of(h[i]),
    decreases h.len(),
{
    lemma_h_bytes_len(h);
    assert(g1_seq_sized(h.drop_last()));
    lemma_h_bytes_len(h.drop_last());
    if i == h.len() - 1 {
        assert(h_bytes(h).subrange(i * G1_ELEMENT_SIZE, (i + 1) * G1_ELEMENT_SIZE) =~= g1_bytes_of(
            h.last(),
        ));
    } else {
        lemma_h_bytes_index(h.drop_last(), i);
        assert(h_bytes(h).subrange(i * G1_ELEMENT_SIZE, (i + 1) * G1_ELEMENT_SIZE)
            =~= h_bytes(h.drop_last()).subrange(i * G1_ELEMENT_SIZE, (i + 1) * G1_ELEMENT_SIZE));
    }
}

/// A byte sequence that agrees with a sized element sequence chunk for
/// chunk is its concatenated encoding.
pub proof fn lemma_h_bytes_from_chunks(h: Seq<G1>, s: Seq<u8>)
    requires
        g1_seq_sized(h),
        s.len() == h.len() * G1_ELEMENT_SIZE,
        forall|i: int|
            0 <= i < h.len() ==> #[trigger] g1_bytes_of(h[i]) == s.subrange(
                i * G1_ELEMENT_SIZE,
                (i + 1) * G1_ELEMENT_SIZE,
            ),
    ensures
        h_bytes(h) == s,
    decreases h.len(),
{
    if h.len() == 0 {
        assert(h_bytes(h) =~= s);
    } else {
        let m = h.len() - 1;
        let front = s.subrange(0, m * G1_ELEMENT_SIZE);
        assert(g1_seq_sized(h.drop_last()));
        assert forall|i: int| 0 <= i < m implies #[trigger] g1_bytes_of(h.drop_last()[i])
            == front.subrange(i * G1_ELEMENT_SIZE, (i + 1) * G1_ELEMENT_SIZE) by {
            assert(h.drop_last()[i] == h[i]);
            assert(front.subrange(i * G1_ELEMENT_SIZE, (i + 1) * G1_ELEMENT_SIZE) =~= s.subrange(
                i * G1_ELEMENT_SIZE,
                (i + 1) * G1_ELEMENT_SIZE,
            ));
        }
        lemma_h_bytes_from_chunks(h.drop_last(), front);
        assert(g1_bytes_of(h[m]) == s.subrange(m * G1_ELEMENT_SIZE, (m + 1) * G1_ELEMENT_SIZE));
        assert(h_bytes(h) =~= s);
    }
}

} // verus!
