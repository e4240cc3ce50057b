use amcl_wrapper::constants::GroupG1_SIZE;
use amcl_wrapper::group_elem::GroupElement;
use amcl_wrapper::group_elem_g1::G1;
use amcl_wrapper::group_elem_g2::G2;
use amcl_wrapper::types_g2::GroupG2_SIZE;

use bbs_keys::errors::{DecodeError, MalformedKey};
use bbs_keys::groups::{G1_ELEMENT_SIZE, G2_ELEMENT_SIZE};
use bbs_keys::keys::{generate, PublicKey, COUNT_OFFSET, WIRE_HEADER_SIZE};

#[test]
fn key_generate() {
    let (public_key, _) = generate(0);
    let bytes = public_key.to_bytes();
    assert_eq!(bytes.len(), GroupG1_SIZE + 4 + GroupG2_SIZE);

    let (public_key, _) = generate(5);
    assert_eq!(public_key.message_count(), 5);
    assert!(public_key.validate().is_ok());
    let bytes = public_key.to_bytes();
    assert_eq!(bytes.len(), GroupG1_SIZE * 6 + 4 + GroupG2_SIZE);
    let public_key_2 = PublicKey::from_bytes(bytes.as_slice()).unwrap();
    assert_eq!(public_key_2, public_key);
}

#[test]
fn element_sizes_match_provider() {
    assert_eq!(G1_ELEMENT_SIZE, GroupG1_SIZE);
    assert_eq!(G2_ELEMENT_SIZE, GroupG2_SIZE);
    assert_eq!(COUNT_OFFSET, GroupG2_SIZE + GroupG1_SIZE);
    assert_eq!(WIRE_HEADER_SIZE, GroupG2_SIZE + GroupG1_SIZE + 4);
}

#[test]
fn round_trip_all_sizes() {
    for n in [0usize, 1, 5, 100] {
        let (public_key, _) = generate(n);
        let bytes = public_key.to_bytes();
        let decoded = PublicKey::from_bytes(bytes.as_slice()).unwrap();
        assert_eq!(decoded.w, public_key.w);
        assert_eq!(decoded.h0, public_key.h0);
        assert_eq!(decoded.h, public_key.h);
        assert_eq!(decoded, public_key);
    }
}

#[test]
fn encoding_length_contract() {
    for n in [0usize, 1, 2, 5, 100] {
        let (public_key, _) = generate(n);
        let bytes = public_key.to_bytes();
        assert_eq!(bytes.len(), G2_ELEMENT_SIZE + G1_ELEMENT_SIZE + 4 + n * G1_ELEMENT_SIZE);
    }
}

#[test]
fn honest_generation_validates() {
    for n in [0usize, 1, 5] {
        for _ in 0..5 {
            let (public_key, _) = generate(n);
            assert!(public_key.validate().is_ok());
        }
    }
}

#[test]
fn message_count_matches() {
    for n in [0usize, 1, 5, 100] {
        let (public_key, _) = generate(n);
        assert_eq!(public_key.message_count(), n);
    }
}

#[test]
fn truncation_rejected_at_every_point() {
    let (public_key, _) = generate(2);
    let bytes = public_key.to_bytes();
    for m in 0..bytes.len() {
        let r = PublicKey::from_bytes(&bytes[0..m]);
        assert_eq!(r, Err(DecodeError::Truncated));
    }
}

#[test]
fn count_prefix_claiming_too_many_elements_rejected() {
    let (public_key, _) = generate(1);
    let mut bytes = public_key.to_bytes();
    // Announce two elements while only one follows.
    bytes[COUNT_OFFSET + 3] = 2;
    let r = PublicKey::from_bytes(bytes.as_slice());
    assert_eq!(r, Err(DecodeError::Truncated));
}

#[test]
fn identity_component_rejected() {
    let (public_key, _) = generate(3);

    let mut bad = public_key.clone();
    bad.h0 = G1::identity();
    assert_eq!(bad.validate(), Err(MalformedKey));
    assert_eq!(bad.w, public_key.w);
    assert_eq!(bad.h, public_key.h);

    let mut bad = public_key.clone();
    bad.w = G2::identity();
    assert_eq!(bad.validate(), Err(MalformedKey));
    assert_eq!(bad.h0, public_key.h0);
    assert_eq!(bad.h, public_key.h);

    for i in 0..3 {
        let mut bad = public_key.clone();
        bad.h[i] = G1::identity();
        assert_eq!(bad.validate(), Err(MalformedKey));
        assert_eq!(bad.w, public_key.w);
        assert_eq!(bad.h0, public_key.h0);
    }

    assert!(public_key.validate().is_ok());
}

#[test]
fn encoding_deterministic() {
    let (public_key, _) = generate(4);
    let first = public_key.to_bytes();
    let second = public_key.to_bytes();
    assert_eq!(first, second);
}

#[test]
fn wire_layout() {
    let (public_key, _) = generate(7);
    let bytes = public_key.to_bytes();
    // Big-endian 32-bit element count sits right after w and h0.
    assert_eq!(&bytes[COUNT_OFFSET..COUNT_OFFSET + 4], &[0u8, 0, 0, 7]);
    // The w and h0 fields hold the elements' own canonical encodings.
    assert_eq!(&bytes[0..G2_ELEMENT_SIZE], public_key.w.to_bytes().as_slice());
    assert_eq!(
        &bytes[G2_ELEMENT_SIZE..COUNT_OFFSET],
        public_key.h0.to_bytes().as_slice()
    );
    // Element i of h occupies the i-th fixed-width chunk after the header.
    for i in 0..7 {
        let start = WIRE_HEADER_SIZE + i * G1_ELEMENT_SIZE;
        assert_eq!(
            &bytes[start..start + G1_ELEMENT_SIZE],
            public_key.h[i].to_bytes().as_slice()
        );
    }
}

#[test]
fn scenario_sizes() {
    let (public_key, _) = generate(0);
    let bytes = public_key.to_bytes();
    assert_eq!(bytes.len(), G2_ELEMENT_SIZE + G1_ELEMENT_SIZE + 4);

    let (public_key, _) = generate(5);
    let bytes = public_key.to_bytes();
    assert_eq!(bytes.len(), G2_ELEMENT_SIZE + 6 * G1_ELEMENT_SIZE + 4);
    assert_eq!(public_key.message_count(), 5);
}

#[test]
fn decode_ignores_trailing_bytes() {
    let (public_key, _) = generate(2);
    let mut bytes = public_key.to_bytes();
    bytes.push(0xAB);
    let decoded = PublicKey::from_bytes(bytes.as_slice()).unwrap();
    assert_eq!(decoded, public_key);
}

#[test]
fn non_canonical_chunk_decodes_to_identity() {
    let (public_key, _) = generate(0);
    let mut bytes = public_key.to_bytes();
    // Zero the h0 field: not the encoding of any proper point; the
    // provider's decoder maps it to the identity element.
    for i in G2_ELEMENT_SIZE..COUNT_OFFSET {
        bytes[i] = 0;
    }
    let decoded = PublicKey::from_bytes(bytes.as_slice()).unwrap();
    assert!(decoded.h0.is_identity());
    assert_eq!(decoded.validate(), Err(MalformedKey));
}

#[test]
fn degenerate_infinity_component_is_still_caught() {
    let (public_key, _) = generate(1);
    let mut bad = public_key.clone();
    // A point at infinity with stale projective coordinates: it encodes
    // differently from the normalized infinity, so its encoding is not
    // canonical, but decoding still yields an identity element that
    // validation rejects.
    let g = G1::generator();
    bad.h0 = &g - &g;
    assert!(bad.h0.is_identity());
    assert_eq!(bad.validate(), Err(MalformedKey));
    let decoded = PublicKey::from_bytes(bad.to_bytes().as_slice()).unwrap();
    assert!(decoded.h0.is_identity());
    assert_eq!(decoded.validate(), Err(MalformedKey));
}
