//! Field-vector primitives: Hadamard product, inner product, constant and
//! power vectors, bit encoding of a secret, all specified elementwise over
//! the integer values of the scalars.

use vstd::prelude::*;
use vstd::arithmetic::power2::pow2;
use vstd::bits::lemma_u64_shr_is_div;
use crate::scalar::{Scalar, fadd, fsub, fmul, fpow, scalar_add, scalar_sub, scalar_mul,
    scalar_zero, scalar_one, scalar_from_u64};

verus! {

/// The integer values of a sequence of scalars.
pub open spec fn views(v: Seq<Scalar>) -> Seq<int> {
    Seq::new(v.len(), |i: int| v[i]@)
}

/// Field inner product of two integer-valued vectors of equal length.
pub open spec fn ip(a: Seq<int>, b: Seq<int>) -> int
    decreases a.len(),
{
    if a.len() == 0 {
        0
    } else {
        fadd(ip(a.drop_last(), b.drop_last()), fmul(a.last(), b.last()))
    }
}

pub proof fn lemma_views_subrange(v: Seq<Scalar>, i: int, j: int)
    requires
        0 <= i <= j <= v.len(),
    ensures
        views(v.subrange(i, j)) == views(v).subrange(i, j),
{
    assert(views(v.subrange(i, j)) =~= views(v).subrange(i, j));
}

/// Bit `i` of `v` (little-endian).
pub open spec fn bit_of(v: u64, i: nat) -> int {
    (v as int / pow2(i) as int) % 2
}

/// Hadamard (elementwise) product.
pub fn hadamard(a: &Vec<Scalar>, b: &Vec<Scalar>) -> (r: Vec<Scalar>)
    requires
        a@.len() == b@.len(),
    ensures
        r@.len() == a@.len(),
        forall|i: int| 0 <= i < r@.len() ==> r@[i]@ == fmul(a@[i]@, b@[i]@),
{
    let n = a.len();
    let mut r: Vec<Scalar> = Vec::new();
    let mut i: usize = 0;
    while i < n
        invariant
            i <= n,
            n == a@.len() == b@.len(),
            r@.len() == i,
            forall|j: int| 0 <= j < i ==> r@[j]@ == fmul(a@[j]@, b@[j]@),
        decreases n - i,
    {
        r.push(scalar_mul(&a[i], &b[i]));
        i += 1;
    }
    r
}

/// Elementwise sum.
pub fn add_vectors(a: &Vec<Scalar>, b: &Vec<Scalar>) -> (r: Vec<Scalar>)
    requires
        a@.len() == b@.len(),
    ensures
        r@.len() == a@.len(),
        forall|i: int| 0 <= i < r@.len() ==> r@[i]@ == fadd(a@[i]@, b@[i]@),
{
    let n = a.len();
    let mut r: Vec<Scalar> = Vec::new();
    let mut i: usize = 0;
    while i < n
        invariant
            i <= n,
            n == a@.len() == b@.len(),
            r@.len() == i,
            forall|j: int| 0 <= j < i ==> r@[j]@ == fadd(a@[j]@, b@[j]@),
        decreases n - i,
    {
        r.push(scalar_add(&a[i], &b[i]));
        i += 1;
    }
    r
}

/// Each element multiplied by the scalar `x`.
pub fn scale_vector(a: &Vec<Scalar>, x: &Scalar) -> (r: Vec<Scalar>)
    ensures
        r@.len() == a@.len(),
        forall|i: int| 0 <= i < r@.len() ==> r@[i]@ == fmul(a@[i]@, x@),
{
    let n = a.len();
    let mut r: Vec<Scalar> = Vec::new();
    let mut i: usize = 0;
    while i < n
        invariant
            i <= n,
            n == a@.len(),
            r@.len() == i,
            forall|j: int| 0 <= j < i ==> r@[j]@ == fmul(a@[j]@, x@),
        decreases n - i,
    {
        r.push(scalar_mul(&a[i], x));
        i += 1;
    }
    r
}

/// Field inner product.
pub fn inner_product(a: &Vec<Scalar>, b: &Vec<Scalar>) -> (r: Scalar)
    requires
        a@.len() == b@.len(),
    ensures
        r@ == ip(views(a@), views(b@)),
{
    let n = a.len();
    let mut acc = scalar_zero();
    let mut i: usize = 0;
    while i < n
        invariant
            i <= n,
            n == a@.len() == b@.len(),
            acc@ == ip(views(a@).take(i as int), views(b@).take(i as int)),
        decreases n - i,
    {
        let term = scalar_mul(&a[i], &b[i]);
        acc = scalar_add(&acc, &term);
        proof {
            assert(views(a@).take(i + 1).drop_last() =~= views(a@).take(i as int));
            assert(views(b@).take(i + 1).drop_last() =~= views(b@).take(i as int));
            assert(views(a@).take(i + 1).last() == a@[i as int]@);
            assert(views(b@).take(i + 1).last() == b@[i as int]@);
        }
        i += 1;
    }
    proof {
        assert(views(a@).take(n as int) =~= views(a@));
        assert(views(b@).take(n as int) =~= views(b@));
    }
    acc
}

/// The all-ones vector of length `n`.
pub fn ones(n: usize) -> (r: Vec<Scalar>)
    ensures
        r@.len() == n,
        forall|i: int| 0 <= i < n ==> r@[i]@ == 1,
{
    let mut r: Vec<Scalar> = Vec::new();
    let mut i: usize = 0;
    while i < n
        invariant
            i <= n,
            r@.len() == i,
            forall|j: int| 0 <= j < i ==> r@[j]@ == 1,
        decreases n - i,
    {
        r.push(scalar_one());
        i += 1;
    }
    r
}

/// The vector `[1, y, y^2, ..., y^(n-1)]` of powers of `y`.
pub fn y_pows(y: &Scalar, n: usize) -> (r: Vec<Scalar>)
    ensures
        r@.len() == n,
        forall|i: int| 0 <= i < n ==> r@[i]@ == fpow(y@, i as nat),
{
    let mut r: Vec<Scalar> = Vec::new();
    let mut cur = scalar_one();
    proof {
        crate::scalar::lemma_fpow_zero(y@);
    }
    let mut i: usize = 0;
    while i < n
        invariant
            i <= n,
            r@.len() == i,
            cur@ == fpow(y@, i as nat),
            forall|j: int| 0 <= j < i ==> r@[j]@ == fpow(y@, j as nat),
        decreases n - i,
    {
        r.push(cur);
        cur = scalar_mul(y, &cur);
        i += 1;
    }
    r
}

/// The vector `[1, 2, 4, ..., 2^(n-1)]` of powers of two.
pub fn twos(n: usize) -> (r: Vec<Scalar>)
    ensures
        r@.len() == n,
        forall|i: int| 0 <= i < n ==> r@[i]@ == fpow(2, i as nat),
{
    let two = scalar_from_u64(2);
    y_pows(&two, n)
}

/// The little-endian `n`-bit decomposition of `v` as field elements;
/// for `v < 2^n` this encodes `v` exactly.
pub fn encode_bits(v: u64, n: usize) -> (r: Vec<Scalar>)
    requires
        n <= 64,
    ensures
        r@.len() == n,
        forall|i: int| 0 <= i < n ==> r@[i]@ == bit_of(v, i as nat),
{
    let mut r: Vec<Scalar> = Vec::new();
    let mut i: usize = 0;
    while i < n
        invariant
            i <= n,
            n <= 64,
            r@.len() == i,
            forall|j: int| 0 <= j < i ==> r@[j]@ == bit_of(v, j as nat),
        decreases n - i,
    {
        let shifted: u64 = v >> (i as u64);
        let bit: u64 = shifted & 1;
        proof {
            lemma_u64_shr_is_div(v, i as u64);
            assert(shifted & 1 == shifted % 2) by (bit_vector);
        }
        r.push(scalar_from_u64(bit));
        i += 1;
    }
    r
}

/// `aR = aL - 1^n`: one subtracted from each element, in the field.
pub fn sub_one(a_l: &Vec<Scalar>) -> (r: Vec<Scalar>)
    ensures
        r@.len() == a_l@.len(),
        forall|i: int| 0 <= i < r@.len() ==> r@[i]@ == fsub(a_l@[i]@, 1),
{
    let one = scalar_one();
    let n = a_l.len();
    let mut r: Vec<Scalar> = Vec::new();
    let mut i: usize = 0;
    while i < n
        invariant
            i <= n,
            n == a_l@.len(),
            one@ == 1,
            r@.len() == i,
            forall|j: int| 0 <= j < i ==> r@[j]@ == fsub(a_l@[j]@, 1),
        decreases n - i,
    {
        r.push(scalar_sub(&a_l[i], &one));
        i += 1;
    }
    r
}

/// A vector of `n` freshly sampled random scalars.
pub fn random_scalars(n: usize) -> (r: Vec<Scalar>)
    ensures
        r@.len() == n,
{
    let mut r: Vec<Scalar> = Vec::new();
    let mut i: usize = 0;
    while i < n
        invariant
            i <= n,
            r@.len() == i,
        decreases n - i,
    {
        r.push(crate::scalar::scalar_random());
        i += 1;
    }
    r
}

} // verus!
