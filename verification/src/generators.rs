//! Deterministic "nothing-up-my-sleeve" generator derivation: each
//! generator is the hash-to-curve image of `label || "||" || i`, so a
//! generator vector is a pure function of its label and length. Also the
//! verifier-side rescaling of the `h` generators by inverse powers of a
//! challenge.

use vstd::prelude::*;
use crate::RangeProofError;
use crate::scalar::{Scalar, finv, fpow, fmul, scalar_one, scalar_mul, scalar_inverse, scalar_eq,
    scalar_zero, lemma_inverse_unique, lemma_fpow_zero};
use crate::group::{GroupElement, ge_scale, hash_to_group, pt_of_hash, pt_scale, hash_ok};

verus! {

/// The decimal digits of `n`, as ASCII bytes.
pub open spec fn dec_rep(n: nat) -> Seq<u8>
    decreases n,
{
    if n < 10 {
        seq![(48 + n) as u8]
    } else {
        dec_rep(n / 10).push((48 + n % 10) as u8)
    }
}

/// The hash-to-curve input for generator `i` of a label:
/// `label || "||" || decimal(i)`.
pub open spec fn gen_input(label: Seq<u8>, i: nat) -> Seq<u8> {
    label + seq![124u8, 124u8] + dec_rep(i)
}

/// The decimal digits of `n`, as ASCII bytes.
pub fn dec_bytes(n: u64) -> (r: Vec<u8>)
    ensures
        r@ == dec_rep(n as nat),
    decreases n,
{
    if n < 10 {
        let mut r: Vec<u8> = Vec::new();
        r.push(48 + n as u8);
        return r;
    }
    let mut r = dec_bytes(n / 10);
    r.push(48 + (n % 10) as u8);
    r
}

/// Derives the generator vector for `(label, count)`: element `i` is the
/// hash-to-curve image of `label || "||" || i`. A pure function of the
/// inputs; it succeeds exactly when hash-to-curve succeeds on every
/// element's input, and a failure, a fatal configuration error, never
/// yields a partial vector.
pub fn derive(label: &[u8], count: usize) -> (r: Option<Vec<GroupElement>>)
    ensures
        r is Some <==> forall|i: int|
            0 <= i < count ==> #[trigger] hash_ok(gen_input(label@, i as nat)),
        r matches Some(v) ==> v@.len() == count && forall|i: int|
            0 <= i < count ==> (#[trigger] v@[i]@) == pt_of_hash(gen_input(label@, i as nat))
                && v@[i]@.len() == 48,
{
    let mut v: Vec<GroupElement> = Vec::new();
    let mut i: usize = 0;
    while i < count
        invariant
            i <= count,
            v@.len() == i,
            forall|j: int| 0 <= j < i ==> #[trigger] hash_ok(gen_input(label@, j as nat)),
            forall|j: int| 0 <= j < i ==> (#[trigger] v@[j]@) == pt_of_hash(
                gen_input(label@, j as nat),
            ) && v@[j]@.len() == 48,
        decreases count - i,
    {
        let mut msg: Vec<u8> = Vec::new();
        msg.extend_from_slice(label);
        msg.push(124);
        msg.push(124);
        let mut digits = dec_bytes(i as u64);
        msg.append(&mut digits);
        proof {
            assert(msg@ =~= gen_input(label@, i as nat));
        }
        match hash_to_group(msg.as_slice()) {
            Some(g) => {
                v.push(g);
            },
            None => {
                proof {
                    let wi: int = i as int;
                    assert(!hash_ok(gen_input(label@, wi as nat)));
                    assert(!(forall|j: int|
                        0 <= j < count ==> #[trigger] hash_ok(gen_input(label@, j as nat))));
                }
                return None;
            },
        }
        i += 1;
    }
    Some(v)
}

/// Generator derivation is deterministic: two vectors whose elements are
/// the hash-to-curve images for the same label and count are
/// byte-identical.
pub proof fn lemma_derive_deterministic(
    label: Seq<u8>,
    count: nat,
    v1: Seq<GroupElement>,
    v2: Seq<GroupElement>,
)
    requires
        v1.len() == count && v2.len() == count,
        forall|i: int| 0 <= i < count ==> (#[trigger] v1[i]@) == pt_of_hash(
            gen_input(label, i as nat),
        ),
        forall|i: int| 0 <= i < count ==> (#[trigger] v2[i]@) == pt_of_hash(
            gen_input(label, i as nat),
        ),
    ensures
        crate::commitment::gviews(v1) == crate::commitment::gviews(v2),
{
    assert(crate::commitment::gviews(v1) =~= crate::commitment::gviews(v2));
}

/// Rescales `h[i]` by `y^(-i)`, the inverse powers of the challenge `y`;
/// fails with `DegenerateChallenge` exactly when the challenge `y` is
/// zero, the forbidden value that has no inverse.
pub fn get_h_prime(h_vec: &Vec<GroupElement>, y: &Scalar) -> (r: Result<
    Vec<GroupElement>,
    RangeProofError,
>)
    ensures
        r.is_ok() <==> y@ != 0,
        r matches Ok(v) ==> v@.len() == h_vec@.len() && forall|i: int|
            0 <= i < v@.len() ==> (#[trigger] v@[i]@) == pt_scale(
                h_vec@[i]@,
                fpow(finv(y@), i as nat),
            ),
        r matches Err(e) ==> e == RangeProofError::DegenerateChallenge,
{
    let zero = scalar_zero();
    if scalar_eq(y, &zero) {
        return Err(RangeProofError::DegenerateChallenge);
    }
    let y_inv = scalar_inverse(y);
    proof {
        crate::scalar::lemma_scalar_range(y_inv);
        lemma_inverse_unique(y@, y_inv@);
        lemma_fpow_zero(finv(y@));
    }
    let n = h_vec.len();
    let mut v: Vec<GroupElement> = Vec::new();
    let mut exp = scalar_one();
    let mut i: usize = 0;
    while i < n
        invariant
            i <= n,
            n == h_vec@.len(),
            y_inv@ == finv(y@),
            exp@ == fpow(finv(y@), i as nat),
            v@.len() == i,
            forall|j: int| 0 <= j < i ==> (#[trigger] v@[j]@) == pt_scale(
                h_vec@[j]@,
                fpow(finv(y@), j as nat),
            ),
        decreases n - i,
    {
        v.push(ge_scale(&h_vec[i], &exp));
        exp = scalar_mul(&y_inv, &exp);
        i += 1;
    }
    Ok(v)
}

/// Each generator multiplied by the scalar `k`.
pub fn scale_points(v: &Vec<GroupElement>, k: &Scalar) -> (r: Vec<GroupElement>)
    ensures
        r@.len() == v@.len(),
        forall|i: int| 0 <= i < r@.len() ==> (#[trigger] r@[i]@) == pt_scale(v@[i]@, k@),
{
    let n = v.len();
    let mut r: Vec<GroupElement> = Vec::new();
    let mut i: usize = 0;
    while i < n
        invariant
            i <= n,
            n == v@.len(),
            r@.len() == i,
            forall|j: int| 0 <= j < i ==> (#[trigger] r@[j]@) == pt_scale(v@[j]@, k@),
        decreases n - i,
    {
        r.push(ge_scale(&v[i], k));
        i += 1;
    }
    r
}

/// Elementwise sum of two generator vectors of equal length.
pub fn add_point_vectors(a: &Vec<GroupElement>, b: &Vec<GroupElement>) -> (r: Vec<GroupElement>)
    requires
        a@.len() == b@.len(),
    ensures
        r@.len() == a@.len(),
        forall|i: int| 0 <= i < r@.len() ==> (#[trigger] r@[i]@) == crate::group::pt_sum(
            a@[i]@,
            b@[i]@,
        ),
{
    let n = a.len();
    let mut r: Vec<GroupElement> = Vec::new();
    let mut i: usize = 0;
    while i < n
        invariant
            i <= n,
            n == a@.len() == b@.len(),
            r@.len() == i,
            forall|j: int| 0 <= j < i ==> (#[trigger] r@[j]@) == crate::group::pt_sum(
                a@[j]@,
                b@[j]@,
            ),
        decreases n - i,
    {
        r.push(crate::group::ge_add(&a[i], &b[i]));
        i += 1;
    }
    r
}

} // verus!
