//! Group operations of BLS12-381 on compressed encodings.
//!
//! Points of G1 are held as their 48-byte compressed encodings and points of
//! G2 as their 96-byte ones. What the group operations return is named here
//! and computed by the `bls12_381` crate.
use vstd::prelude::*;
use crate::scalar::Scalar;

verus! {

/// The bytes are the compressed encoding of a point of the G1 subgroup.
pub uninterp spec fn g1_valid(b: Seq<u8>) -> bool;

/// The bytes are the compressed encoding of a point of the G2 subgroup.
pub uninterp spec fn g2_valid(b: Seq<u8>) -> bool;

/// The encoding of the G1 generator multiplied by `s`.
pub uninterp spec fn g1_base_mul(s: nat) -> Seq<u8>;

/// The encoding of the G1 point `p` multiplied by `s`.
pub uninterp spec fn g1_mul(p: Seq<u8>, s: nat) -> Seq<u8>;

/// The encoding of the G2 point `q` multiplied by `s`.
pub uninterp spec fn g2_mul(q: Seq<u8>, s: nat) -> Seq<u8>;

/// `e(p1, q1) == e(p2, q2)` for the pairing `e` of BLS12-381.
pub uninterp spec fn pairing_eq(p1: Seq<u8>, q1: Seq<u8>, p2: Seq<u8>, q2: Seq<u8>) -> bool;

/// The SHA-512 digest of `d`.
pub uninterp spec fn sha512_of(d: Seq<u8>) -> Seq<u8>;

/// Relies on sha2::Sha512::digest: the 64-byte digest of the input.
#[verifier::external_body]
pub(crate) fn sha512(d: &[u8; 48]) -> (r: [u8; 64])
    ensures
        r@ == sha512_of(d@),
{
    <sha2::Sha512 as sha2::Digest>::digest(d).into()
}

/// Relies on bls12_381::G1Affine::from_compressed, which succeeds exactly on
/// encodings of points of the subgroup.
#[verifier::external_body]
pub(crate) fn g1_decodes(b: &[u8; 48]) -> (r: bool)
    ensures
        r == g1_valid(b@),
{
    bool::from(bls12_381::G1Affine::from_compressed(b).is_some())
}

/// Relies on bls12_381::G2Affine::from_compressed, which succeeds exactly on
/// encodings of points of the subgroup.
#[verifier::external_body]
pub(crate) fn g2_decodes(b: &[u8; 96]) -> (r: bool)
    ensures
        r == g2_valid(b@),
{
    bool::from(bls12_381::G2Affine::from_compressed(b).is_some())
}

/// Relies on bls12_381's `G1Affine::generator() * Scalar`, compressed: a
/// point of the subgroup that depends on the scalar alone.
#[verifier::external_body]
pub(crate) fn g1_base_times(s: &Scalar) -> (r: [u8; 48])
    requires
        s.wf(),
    ensures
        r@ == g1_base_mul(s.value()),
        g1_valid(r@),
{
    let x = bls12_381::Scalar::from_bytes(&s.bytes).unwrap();
    bls12_381::G1Affine::from(bls12_381::G1Affine::generator() * x).to_compressed()
}

/// Relies on bls12_381's `G1Affine * Scalar`, compressed.
#[verifier::external_body]
pub(crate) fn g1_times(p: &[u8; 48], s: &Scalar) -> (r: [u8; 48])
    requires
        g1_valid(p@),
        s.wf(),
    ensures
        r@ == g1_mul(p@, s.value()),
        g1_valid(r@),
{
    let x = bls12_381::Scalar::from_bytes(&s.bytes).unwrap();
    let a = bls12_381::G1Affine::from_compressed(p).unwrap();
    bls12_381::G1Affine::from(a * x).to_compressed()
}

/// Relies on bls12_381's `G2Affine * Scalar`, compressed.
#[verifier::external_body]
pub(crate) fn g2_times(q: &[u8; 96], s: &Scalar) -> (r: [u8; 96])
    requires
        g2_valid(q@),
        s.wf(),
    ensures
        r@ == g2_mul(q@, s.value()),
        g2_valid(r@),
{
    let x = bls12_381::Scalar::from_bytes(&s.bytes).unwrap();
    let a = bls12_381::G2Affine::from_compressed(q).unwrap();
    bls12_381::G2Affine::from(a * x).to_compressed()
}

/// Relies on bls12_381::G1Affine::generator, compressed: the generator,
/// which is the generator multiplied by one.
#[verifier::external_body]
pub(crate) fn g1_generator() -> (r: [u8; 48])
    ensures
        r@ == g1_base_mul(1),
        g1_valid(r@),
{
    bls12_381::G1Affine::generator().to_compressed()
}

/// Relies on bls12_381::pairing, twice, and the equality of its results.
#[verifier::external_body]
pub(crate) fn pairings_equal(p1: &[u8; 48], q1: &[u8; 96], p2: &[u8; 48], q2: &[u8; 96]) -> (r: bool)
    requires
        g1_valid(p1@),
        g2_valid(q1@),
        g1_valid(p2@),
        g2_valid(q2@),
    ensures
        r == pairing_eq(p1@, q1@, p2@, q2@),
{
    let a = bls12_381::G1Affine::from_compressed(p1).unwrap();
    let b = bls12_381::G2Affine::from_compressed(q1).unwrap();
    let c = bls12_381::G1Affine::from_compressed(p2).unwrap();
    let d = bls12_381::G2Affine::from_compressed(q2).unwrap();
    bls12_381::pairing(&a, &b) == bls12_381::pairing(&c, &d)
}

} // verus!
