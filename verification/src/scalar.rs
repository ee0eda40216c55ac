//! The scalar field of BLS12-381, modelled as integers modulo the group
//! order. A `Scalar` holds the four little-endian base-2^64 limbs of the
//! canonical representative; all field arithmetic is delegated to the
//! curve library behind trusted wrappers whose contracts speak about the
//! integer value of the limbs.

use vstd::prelude::*;
use vstd::arithmetic::div_mod::lemma_small_mod;
use vstd::arithmetic::power::pow;
use ark_bls12_381::Fr;
use ark_ff::PrimeField;

verus! {

/// 2^64, the weight of one limb.
pub open spec fn two_64() -> int {
    18446744073709551616
}

/// Order of the BLS12-381 scalar field: a 255-bit prime, written from its
/// four little-endian base-2^64 limbs.
pub open spec fn fr_order() -> int {
    0xffffffff00000001
        + 0x53bda402fffe5bfe * two_64()
        + 0x3339d80809a1d805 * two_64() * two_64()
        + 0x73eda753299d7d48 * two_64() * two_64() * two_64()
}

/// Field addition on canonical representatives.
pub open spec fn fadd(a: int, b: int) -> int {
    (a + b) % fr_order()
}

/// Field subtraction on canonical representatives.
pub open spec fn fsub(a: int, b: int) -> int {
    (a - b) % fr_order()
}

/// Field multiplication on canonical representatives.
pub open spec fn fmul(a: int, b: int) -> int {
    (a * b) % fr_order()
}

/// Field exponentiation by a natural number.
pub open spec fn fpow(a: int, e: nat) -> int
    decreases e,
{
    if e == 0 {
        1int % fr_order()
    } else {
        fmul(a, fpow(a, (e - 1) as nat))
    }
}

/// The multiplicative inverse of `a` in the field, when one exists; field
/// inverses are unique, so this picks the canonical representative.
pub open spec fn finv(a: int) -> int {
    choose|b: int| 0 <= b < fr_order() && #[trigger] ((a * b) % fr_order()) == 1
}

/// The little-endian value of a byte sequence.
pub open spec fn le_val(s: Seq<u8>) -> int
    decreases s.len(),
{
    if s.len() == 0 {
        0
    } else {
        s[0] + 256 * le_val(s.skip(1))
    }
}

/// The 32 little-endian bytes of an integer in `[0, 2^256)`.
pub open spec fn le_bytes_32(v: int) -> Seq<u8> {
    Seq::new(32, |i: int| ((v / pow(256, i as nat)) % 256) as u8)
}

/// An element of the scalar field, held as the four little-endian
/// base-2^64 limbs of its canonical (fully reduced) representative.
#[derive(Clone, Copy, Debug, PartialEq, Eq, Structural)]
pub struct Scalar {
    w0: u64,
    w1: u64,
    w2: u64,
    w3: u64,
}

impl Scalar {
    /// The integer encoded by the limbs, little-endian in base 2^64.
    pub closed spec fn limb_value(self) -> int {
        self.w0 as int
            + self.w1 as int * two_64()
            + self.w2 as int * two_64() * two_64()
            + self.w3 as int * two_64() * two_64() * two_64()
    }
}

impl View for Scalar {
    type V = int;

    /// The field element represented, as an integer in `[0, fr_order())`.
    closed spec fn view(&self) -> int {
        self.limb_value() % fr_order()
    }
}

pub proof fn lemma_one_mod_order()
    ensures
        1int % fr_order() == 1,
{
    lemma_small_mod(1nat, fr_order() as nat);
}

pub proof fn lemma_fpow_zero(a: int)
    ensures
        fpow(a, 0) == 1,
{
    lemma_one_mod_order();
}

/// Inverses in the field are unique: any `b` in range whose product
/// with `a` is one is `finv(a)`.
pub proof fn lemma_inverse_unique(a: int, b: int)
    requires
        0 <= b < fr_order(),
        (a * b) % fr_order() == 1,
    ensures
        b == finv(a),
        (a * finv(a)) % fr_order() == 1,
        0 <= finv(a) < fr_order(),
{
    let q = fr_order();
    let c = finv(a);
    assert(0 <= c < q && (a * c) % q == 1) by {
        assert(0 <= b < q && #[trigger] ((a * b) % q) == 1);
    }
    // b == b * (a*c) mod q == (b*a) * c mod q == c mod q == c
    assert((b * (a * c)) % q == (b * ((a * c) % q)) % q) by {
        vstd::arithmetic::div_mod::lemma_mul_mod_noop_right(b, a * c, q);
    }
    assert((b * 1) % q == b) by {
        lemma_small_mod(b as nat, q as nat);
    }
    assert(b * (a * c) == (a * b) * c) by {
        vstd::arithmetic::mul::lemma_mul_is_associative(b, a, c);
        vstd::arithmetic::mul::lemma_mul_is_commutative(b, a);
    }
    assert(((a * b) * c) % q == (((a * b) % q) * c) % q) by {
        vstd::arithmetic::div_mod::lemma_mul_mod_noop_left(a * b, c, q);
    }
    assert((1 * c) % q == c) by {
        lemma_small_mod(c as nat, q as nat);
    }
}

pub proof fn lemma_order_positive()
    ensures
        fr_order() > 18446744073709551616,
{
}

/// `fmul` distributes over `fadd`.
pub proof fn lemma_fmul_fadd(a: int, b: int, c: int)
    ensures
        fmul(a, fadd(b, c)) == fadd(fmul(a, b), fmul(a, c)),
{
    let q = fr_order();
    lemma_order_positive();
    vstd::arithmetic::div_mod::lemma_mul_mod_noop_right(a, b + c, q);
    vstd::arithmetic::mul::lemma_mul_is_distributive_add(a, b, c);
    vstd::arithmetic::div_mod::lemma_add_mod_noop(a * b, a * c, q);
}

/// `fmul` distributes over `fsub`.
pub proof fn lemma_fmul_fsub(a: int, b: int, c: int)
    ensures
        fmul(a, fsub(b, c)) == fsub(fmul(a, b), fmul(a, c)),
{
    let q = fr_order();
    lemma_order_positive();
    vstd::arithmetic::div_mod::lemma_mul_mod_noop_right(a, b - c, q);
    vstd::arithmetic::mul::lemma_mul_is_distributive_sub(a, b, c);
    vstd::arithmetic::div_mod::lemma_sub_mod_noop(a * b, a * c, q);
}

/// Adding two telescoping differences.
pub proof fn lemma_fsub_chain(a: int, b: int, c: int)
    ensures
        fadd(fsub(a, b), fsub(c, a)) == fsub(c, b),
{
    let q = fr_order();
    lemma_order_positive();
    vstd::arithmetic::div_mod::lemma_add_mod_noop(a - b, c - a, q);
}

/// Multiplying by a known inverse of `d` cancels a multiplication by `d`.
pub proof fn lemma_fmul_cancel(d: int, i: int, s: int)
    requires
        0 <= s < fr_order(),
        (d * i) % fr_order() == 1,
    ensures
        fmul(i, fmul(d, s)) == s,
{
    let q = fr_order();
    lemma_order_positive();
    assert((i * ((d * s) % q)) % q == (i * (d * s)) % q) by {
        vstd::arithmetic::div_mod::lemma_mul_mod_noop_right(i, d * s, q);
    }
    assert(i * (d * s) == (i * d) * s) by {
        vstd::arithmetic::mul::lemma_mul_is_associative(i, d, s);
    }
    assert(((i * d) * s) % q == (((i * d) % q) * s) % q) by {
        vstd::arithmetic::div_mod::lemma_mul_mod_noop_left(i * d, s, q);
    }
    assert((i * d) % q == 1) by {
        vstd::arithmetic::mul::lemma_mul_is_commutative(i, d);
    }
    assert((1 * s) % q == s) by {
        lemma_small_mod(s as nat, q as nat);
    }
}

/// Congruent summands give congruent sums.
pub proof fn lemma_cong_add(a: int, a1: int, b: int, b1: int)
    requires
        a % fr_order() == a1 % fr_order(),
        b % fr_order() == b1 % fr_order(),
    ensures
        (a + b) % fr_order() == (a1 + b1) % fr_order(),
{
    let q = fr_order();
    lemma_order_positive();
    vstd::arithmetic::div_mod::lemma_add_mod_noop(a, b, q);
    vstd::arithmetic::div_mod::lemma_add_mod_noop(a1, b1, q);
}

/// Congruent operands give congruent differences.
pub proof fn lemma_cong_sub(a: int, a1: int, b: int, b1: int)
    requires
        a % fr_order() == a1 % fr_order(),
        b % fr_order() == b1 % fr_order(),
    ensures
        (a - b) % fr_order() == (a1 - b1) % fr_order(),
{
    let q = fr_order();
    lemma_order_positive();
    vstd::arithmetic::div_mod::lemma_sub_mod_noop(a, b, q);
    vstd::arithmetic::div_mod::lemma_sub_mod_noop(a1, b1, q);
}

/// Congruent factors give congruent products.
pub proof fn lemma_cong_mul(a: int, a1: int, b: int, b1: int)
    requires
        a % fr_order() == a1 % fr_order(),
        b % fr_order() == b1 % fr_order(),
    ensures
        (a * b) % fr_order() == (a1 * b1) % fr_order(),
{
    let q = fr_order();
    lemma_order_positive();
    vstd::arithmetic::div_mod::lemma_mul_mod_noop_general(a, b, q);
    vstd::arithmetic::div_mod::lemma_mul_mod_noop_general(a1, b1, q);
}

/// `fpow` stays in the canonical range.
pub proof fn lemma_fpow_range(a: int, e: nat)
    ensures
        0 <= fpow(a, e) < fr_order(),
{
    lemma_order_positive();
    if e == 0 {
        lemma_one_mod_order();
    } else {
        vstd::arithmetic::div_mod::lemma_mod_division_less_than_divisor(
            a * fpow(a, (e - 1) as nat),
            fr_order(),
        );
    }
}

/// Powers of one are one.
pub proof fn lemma_fpow_one_base(e: nat)
    ensures
        fpow(1, e) == 1,
    decreases e,
{
    lemma_order_positive();
    lemma_one_mod_order();
    if e > 0 {
        lemma_fpow_one_base((e - 1) as nat);
        lemma_small_mod(1nat, fr_order() as nat);
    }
}

pub proof fn lemma_scalar_range(s: Scalar)
    ensures
        0 <= s@ < fr_order(),
{
    vstd::arithmetic::div_mod::lemma_mod_division_less_than_divisor(
        s.limb_value(),
        fr_order(),
    );
}

/// The 32 little-endian bytes of the limbs, fed by the trusted wrappers
/// to `ark_ff::PrimeField::from_le_bytes_mod_order`.
pub(crate) fn limb_bytes(s: &Scalar) -> (r: Vec<u8>)
    ensures
        r@.len() == 32,
{
    let mut out: Vec<u8> = Vec::new();
    let mut i: usize = 0;
    while i < 4
        invariant
            i <= 4,
            out@.len() == 8 * i,
        decreases 4 - i,
    {
        let mut w: u64 = if i == 0 {
            s.w0
        } else if i == 1 {
            s.w1
        } else if i == 2 {
            s.w2
        } else {
            s.w3
        };
        let mut k: usize = 0;
        while k < 8
            invariant
                k <= 8,
                out@.len() == 8 * i + k,
            decreases 8 - k,
        {
            out.push(w as u8);
            w = w >> 8u64;
            k += 1;
        }
        i += 1;
    }
    out
}

/// Relies on field addition of `ark_bls12_381::Fr`, which adds the
/// represented integers modulo the field order; `into_bigint` yields the
/// canonical limbs of the sum.
#[verifier::external_body]
pub fn scalar_add(a: &Scalar, b: &Scalar) -> (r: Scalar)
    ensures
        r@ == fadd(a@, b@),
{
    let av = <Fr as PrimeField>::from_le_bytes_mod_order(&limb_bytes(a));
    let bv = <Fr as PrimeField>::from_le_bytes_mod_order(&limb_bytes(b));
    let bi = <Fr as PrimeField>::into_bigint(av + bv);
    Scalar { w0: bi.0[0], w1: bi.0[1], w2: bi.0[2], w3: bi.0[3] }
}

/// Relies on field subtraction of `ark_bls12_381::Fr`, which subtracts
/// the represented integers modulo the field order.
#[verifier::external_body]
pub fn scalar_sub(a: &Scalar, b: &Scalar) -> (r: Scalar)
    ensures
        r@ == fsub(a@, b@),
{
    let av = <Fr as PrimeField>::from_le_bytes_mod_order(&limb_bytes(a));
    let bv = <Fr as PrimeField>::from_le_bytes_mod_order(&limb_bytes(b));
    let bi = <Fr as PrimeField>::into_bigint(av - bv);
    Scalar { w0: bi.0[0], w1: bi.0[1], w2: bi.0[2], w3: bi.0[3] }
}

/// Relies on field multiplication of `ark_bls12_381::Fr`, which
/// multiplies the represented integers modulo the field order.
#[verifier::external_body]
pub fn scalar_mul(a: &Scalar, b: &Scalar) -> (r: Scalar)
    ensures
        r@ == fmul(a@, b@),
{
    let av = <Fr as PrimeField>::from_le_bytes_mod_order(&limb_bytes(a));
    let bv = <Fr as PrimeField>::from_le_bytes_mod_order(&limb_bytes(b));
    let bi = <Fr as PrimeField>::into_bigint(av * bv);
    Scalar { w0: bi.0[0], w1: bi.0[1], w2: bi.0[2], w3: bi.0[3] }
}

/// Relies on `ark_ff::Field::inverse`: for a nonzero element it returns
/// the multiplicative inverse, the unique element whose product with the
/// input is one.
#[verifier::external_body]
pub fn scalar_inverse(a: &Scalar) -> (r: Scalar)
    requires
        a@ != 0,
    ensures
        (a@ * r@) % fr_order() == 1,
{
    let av = <Fr as PrimeField>::from_le_bytes_mod_order(&limb_bytes(a));
    let bi = <Fr as PrimeField>::into_bigint(ark_ff::Field::inverse(&av).unwrap());
    Scalar { w0: bi.0[0], w1: bi.0[1], w2: bi.0[2], w3: bi.0[3] }
}

/// Relies on equality of `ark_bls12_381::Fr`, which compares the
/// represented integers.
#[verifier::external_body]
pub fn scalar_eq(a: &Scalar, b: &Scalar) -> (r: bool)
    ensures
        r == (a@ == b@),
{
    let av = <Fr as PrimeField>::from_le_bytes_mod_order(&limb_bytes(a));
    let bv = <Fr as PrimeField>::from_le_bytes_mod_order(&limb_bytes(b));
    av == bv
}

/// Relies on `ark_ff::BigInteger::to_bytes_le` after `into_bigint`: the
/// 32 little-endian bytes of the canonical representative.
#[verifier::external_body]
pub fn scalar_to_bytes(a: &Scalar) -> (r: Vec<u8>)
    ensures
        r@ == le_bytes_32(a@),
        r@.len() == 32,
{
    let av = <Fr as PrimeField>::from_le_bytes_mod_order(&limb_bytes(a));
    ark_ff::BigInteger::to_bytes_le(&<Fr as PrimeField>::into_bigint(av))
}

/// Relies on `ark_ff::PrimeField::from_le_bytes_mod_order`: interprets
/// the bytes as a little-endian integer and reduces it mod the order.
#[verifier::external_body]
pub fn scalar_from_le_bytes(bytes: &[u8]) -> (r: Scalar)
    ensures
        r@ == le_val(bytes@) % fr_order(),
{
    let v = <Fr as PrimeField>::from_le_bytes_mod_order(bytes);
    let bi = <Fr as PrimeField>::into_bigint(v);
    Scalar { w0: bi.0[0], w1: bi.0[1], w2: bi.0[2], w3: bi.0[3] }
}

/// Relies on `ark_std::UniformRand` with the thread-local CSPRNG of the
/// `rand` crate; nothing is promised of the outcome beyond its range.
#[verifier::external_body]
pub fn scalar_random() -> (r: Scalar)
    ensures
        0 <= r@ < fr_order(),
{
    let v = <Fr as ark_std::UniformRand>::rand(&mut rand::thread_rng());
    let bi = <Fr as PrimeField>::into_bigint(v);
    Scalar { w0: bi.0[0], w1: bi.0[1], w2: bi.0[2], w3: bi.0[3] }
}

/// The scalar with the given small value.
pub fn scalar_from_u64(v: u64) -> (r: Scalar)
    ensures
        r@ == v as int,
{
    let r = Scalar { w0: v, w1: 0, w2: 0, w3: 0 };
    proof {
        lemma_small_mod(v as nat, fr_order() as nat);
    }
    r
}

/// The additive identity of the field.
pub fn scalar_zero() -> (r: Scalar)
    ensures
        r@ == 0,
{
    scalar_from_u64(0)
}

/// The multiplicative identity of the field.
pub fn scalar_one() -> (r: Scalar)
    ensures
        r@ == 1,
{
    scalar_from_u64(1)
}

} // verus!
