//! Points of the BLS12-381 G1 group. A `GroupElement` holds the canonical
//! compressed serialization of a point; the group operations are delegated
//! to the curve library behind trusted wrappers. Canonical serialization
//! is injective, so the byte view identifies the point, and the results of
//! the group operations are named as functions of the operand bytes.

use vstd::prelude::*;
use crate::scalar::{Scalar, limb_bytes};
use ark_bls12_381::{Fr, G1Projective};
use ark_ff::PrimeField;
use ark_serialize::{CanonicalSerialize, CanonicalDeserialize};
use ark_std::Zero;
use ark_ec::hashing::HashToCurve;
use ark_ec::hashing::curve_maps::wb::WBMap;
use ark_ec::hashing::map_to_curve_hasher::MapToCurveBasedHasher;
use ark_ff::field_hashers::DefaultFieldHasher;

verus! {

/// The canonical compressed serialization of the sum of the two points
/// with the given canonical serializations (a point that does not
/// deserialize counts as the identity, so this is total).
pub uninterp spec fn pt_sum(a: Seq<u8>, b: Seq<u8>) -> Seq<u8>;

/// The canonical compressed serialization of the point with the given
/// canonical serialization, multiplied by the scalar with the given
/// canonical value.
pub uninterp spec fn pt_scale(p: Seq<u8>, k: int) -> Seq<u8>;

/// The canonical compressed serialization of the point that the
/// hash-to-curve construction (IETF hash-to-curve with SHA-256 over the
/// fixed domain tag) assigns to a message.
pub uninterp spec fn pt_of_hash(msg: Seq<u8>) -> Seq<u8>;

/// Whether the hash-to-curve construction succeeds on a message: its
/// outcome is deterministic in the message alone, so success is a pure
/// predicate of the message.
pub uninterp spec fn hash_ok(msg: Seq<u8>) -> bool;

/// The canonical compressed serialization of the group identity: the
/// leading byte holds the compression flag (bit seven) and the
/// point-at-infinity flag (bit six), and the remaining bytes of the
/// zero x-coordinate are zero.
pub open spec fn pt_identity() -> Seq<u8> {
    Seq::new(48, |i: int| if i == 0 { 192u8 } else { 0u8 })
}

/// A point of G1, as its canonical compressed 48-byte serialization.
#[derive(Debug)]
pub struct GroupElement {
    bytes: Vec<u8>,
}

impl View for GroupElement {
    type V = Seq<u8>;

    /// The canonical compressed serialization of the point.
    closed spec fn view(&self) -> Seq<u8> {
        self.bytes@
    }
}

impl GroupElement {
    /// An equal point.
    pub fn dup(&self) -> (r: GroupElement)
        ensures
            r@ == self@,
    {
        let r = GroupElement { bytes: self.bytes.clone() };
        proof {
            assert(r@ =~= self@);
        }
        r
    }

    /// The canonical compressed serialization.
    pub fn to_bytes(&self) -> (r: Vec<u8>)
        ensures
            r@ == self@,
    {
        let r = self.bytes.clone();
        proof {
            assert(r@ =~= self@);
        }
        r
    }
}

/// Whether two group elements are the same point: canonical serialization
/// is injective, so byte equality is point equality.
pub fn ge_eq(a: &GroupElement, b: &GroupElement) -> (r: bool)
    ensures
        r == (a@ == b@),
{
    if a.bytes.len() != b.bytes.len() {
        proof {
            assert(a@.len() != b@.len());
        }
        return false;
    }
    let n = a.bytes.len();
    let mut i: usize = 0;
    while i < n
        invariant
            i <= n,
            n == a.bytes@.len() == b.bytes@.len(),
            forall|j: int| 0 <= j < i ==> a.bytes@[j] == b.bytes@[j],
        decreases n - i,
    {
        if a.bytes[i] != b.bytes[i] {
            return false;
        }
        i += 1;
    }
    proof {
        assert(a@ =~= b@);
    }
    true
}

/// Relies on the compressed serialization of the zero point of
/// `ark_bls12_381::G1Projective`: the identity is written as a zero
/// x-coordinate under the compression and point-at-infinity flags of
/// the leading byte, 48 bytes in all.
#[verifier::external_body]
pub fn ge_identity() -> (r: GroupElement)
    ensures
        r@ == pt_identity(),
{
    let mut out = Vec::new();
    G1Projective::zero().serialize_compressed(&mut out).unwrap();
    GroupElement { bytes: out }
}

/// Relies on point addition of `ark_bls12_381::G1Projective` and on
/// canonical compressed (de)serialization of `ark_serialize`; compressed
/// G1 points serialize to 48 bytes.
#[verifier::external_body]
pub fn ge_add(a: &GroupElement, b: &GroupElement) -> (r: GroupElement)
    ensures
        r@ == pt_sum(a@, b@),
        r@.len() == 48,
{
    let pa = G1Projective::deserialize_compressed(&a.bytes[..]).unwrap_or(G1Projective::zero());
    let pb = G1Projective::deserialize_compressed(&b.bytes[..]).unwrap_or(G1Projective::zero());
    let mut out = Vec::new();
    (pa + pb).serialize_compressed(&mut out).unwrap();
    GroupElement { bytes: out }
}

/// Relies on scalar multiplication of `ark_bls12_381::G1Projective` and
/// on canonical compressed (de)serialization of `ark_serialize`.
#[verifier::external_body]
pub fn ge_scale(p: &GroupElement, k: &Scalar) -> (r: GroupElement)
    ensures
        r@ == pt_scale(p@, k@),
        r@.len() == 48,
{
    let pp = G1Projective::deserialize_compressed(&p.bytes[..]).unwrap_or(G1Projective::zero());
    let kk = <Fr as PrimeField>::from_le_bytes_mod_order(&limb_bytes(k));
    let mut out = Vec::new();
    (pp * kk).serialize_compressed(&mut out).unwrap();
    GroupElement { bytes: out }
}

/// Relies on the IETF hash-to-curve construction of `ark_ec` (SHA-256
/// field hasher and the Wahby-Boneh map for G1) under a fixed domain
/// tag: a deterministic map from messages to subgroup points, whose
/// error paths also depend on the message alone, so success itself is
/// the pure predicate `hash_ok`.
#[verifier::external_body]
pub fn hash_to_group(msg: &[u8]) -> (r: Option<GroupElement>)
    ensures
        r is Some <==> hash_ok(msg@),
        match r {
            Some(g) => g@ == pt_of_hash(msg@) && g@.len() == 48,
            None => true,
        },
{
    let hasher = match <MapToCurveBasedHasher<G1Projective, DefaultFieldHasher<sha2::Sha256, 128>, WBMap<ark_bls12_381::g1::Config>> as HashToCurve<G1Projective>>::new(b"BULLETPROOF_GENERATORS_BLS12381G1") {
        Ok(h) => h,
        Err(_) => return None,
    };
    let affine = match hasher.hash(msg) {
        Ok(p) => p,
        Err(_) => return None,
    };
    let mut out = Vec::new();
    ark_ec::AffineRepr::into_group(affine).serialize_compressed(&mut out).unwrap();
    Some(GroupElement { bytes: out })
}

} // verus!
