//! The range-proof polynomials: the vector polynomials `l(X)`, `r(X)`,
//! the coefficients of `t(X) = <l(X), r(X)>`, and the `delta(y, z)`
//! correction term. `delta` is specified as the brute-force summation and
//! computed by the closed-form geometric sum, with the equality proved.

use vstd::prelude::*;
use vstd::arithmetic::div_mod::{lemma_small_mod, lemma_add_mod_noop, lemma_mod_add_multiples_vanish,
    lemma_mod_division_less_than_divisor};
use crate::scalar::{Scalar, fr_order, fadd, fsub, fmul, fpow, scalar_add, scalar_sub,
    scalar_mul, scalar_one, scalar_zero, scalar_from_u64, scalar_eq, scalar_inverse,
    lemma_fpow_zero, lemma_one_mod_order, lemma_order_positive, lemma_fmul_fadd, lemma_fmul_fsub,
    lemma_fsub_chain, lemma_fmul_cancel, lemma_fpow_range, lemma_fpow_one_base,
    lemma_scalar_range};
use crate::vector::{ip, views, inner_product, bit_of};
use vstd::arithmetic::power::pow;
use vstd::arithmetic::power2::pow2;

verus! {

/// The geometric sum `1 + y + ... + y^(n-1)` in the field.
pub open spec fn sum_pows(y: int, n: nat) -> int
    decreases n,
{
    if n == 0 {
        0
    } else {
        fadd(sum_pows(y, (n - 1) as nat), fpow(y, (n - 1) as nat))
    }
}

/// `delta(y, z) = (z - z^2) * sum_{i<n} y^i  -  z^3 * (2^n - 1)`,
/// written with the brute-force summation.
pub open spec fn delta_spec(y: int, z: int, n: nat) -> int {
    fsub(
        fmul(fsub(z, fmul(z, z)), sum_pows(y, n)),
        fmul(fmul(fmul(z, z), z), fsub(fpow(2, n), 1)),
    )
}

pub proof fn lemma_sum_pows_range(y: int, n: nat)
    ensures
        0 <= sum_pows(y, n) < fr_order(),
{
    lemma_order_positive();
    if n == 0 {
    } else {
        lemma_mod_division_less_than_divisor(
            sum_pows(y, (n - 1) as nat) + fpow(y, (n - 1) as nat),
            fr_order(),
        );
    }
}

/// The geometric progression identity:
/// `(y - 1) * (1 + y + ... + y^(n-1)) == y^n - 1` in the field.
pub proof fn lemma_geom_progression(y: int, n: nat)
    ensures
        fmul(fsub(y, 1), sum_pows(y, n)) == fsub(fpow(y, n), 1),
    decreases n,
{
    let q = fr_order();
    lemma_order_positive();
    lemma_one_mod_order();
    if n == 0 {
        assert(fmul(fsub(y, 1), 0) == 0) by {
            lemma_small_mod(0nat, q as nat);
        }
        assert(fsub(fpow(y, 0), 1) == 0) by {
            lemma_small_mod(0nat, q as nat);
        }
    } else {
        lemma_geom_progression(y, (n - 1) as nat);
        let d = fsub(y, 1);
        let s = sum_pows(y, (n - 1) as nat);
        let p = fpow(y, (n - 1) as nat);
        lemma_fpow_range(y, (n - 1) as nat);
        assert(fmul(d, sum_pows(y, n)) == fadd(fmul(d, s), fmul(d, p))) by {
            lemma_fmul_fadd(d, s, p);
        }
        assert(fmul(d, p) == fsub(fmul(p, y), fmul(p, 1))) by {
            lemma_fmul_fsub(p, y, 1);
            assert(p * d == d * p);
        }
        assert(fmul(p, y) == fpow(y, n)) by {
            assert(p * y == y * p);
        }
        assert(fmul(p, 1) == p) by {
            lemma_small_mod(p as nat, q as nat);
        }
        assert(fadd(fsub(fpow(y, (n - 1) as nat), 1), fsub(fpow(y, n), fpow(y, (n - 1) as nat)))
            == fsub(fpow(y, n), 1)) by {
            lemma_fsub_chain(fpow(y, (n - 1) as nat), 1, fpow(y, n));
        }
    }
}

/// The geometric sum of ones: `sum_{i<n} 1^i == n` in the field.
pub proof fn lemma_sum_pows_one(n: nat)
    ensures
        sum_pows(1, n) == n as int % fr_order(),
    decreases n,
{
    let q = fr_order();
    lemma_order_positive();
    lemma_one_mod_order();
    if n == 0 {
        lemma_small_mod(0nat, q as nat);
    } else {
        lemma_sum_pows_one((n - 1) as nat);
        lemma_fpow_one_base((n - 1) as nat);
        assert(((n - 1) % q + 1int % q) % q == ((n - 1) + 1int) % q) by {
            lemma_add_mod_noop(n - 1, 1int, q);
        }
        assert((1int) % q == 1);
    }
}

/// A canonical value other than one stays nonzero after subtracting one.
pub proof fn lemma_sub_one_nonzero(y: int)
    requires
        0 <= y < fr_order(),
        y != 1,
    ensures
        fsub(y, 1) != 0,
{
    let q = fr_order();
    lemma_order_positive();
    if y == 0 {
        assert((q + (-1)) % q == (-1) % q) by {
            lemma_mod_add_multiples_vanish(-1, q);
        }
        assert((q - 1) % q == q - 1) by {
            lemma_small_mod((q - 1) as nat, q as nat);
        }
    } else {
        assert((y - 1) % q == y - 1) by {
            lemma_small_mod((y - 1) as nat, q as nat);
        }
    }
}

/// The plain-integer sum of powers `1 + y + ... + y^(n-1)`, unreduced.
pub open spec fn psum(y: int, n: nat) -> int
    decreases n,
{
    if n == 0 {
        0
    } else {
        psum(y, (n - 1) as nat) + pow(y, (n - 1) as nat)
    }
}

/// `delta` as a plain-integer expression, unreduced.
pub open spec fn delta_int(y: int, z: int, n: nat) -> int {
    (z - z * z) * psum(y, n) - ((z * z) * z) * (pow(2, n) - 1)
}

/// The integer encoded by the low `k` bits of `v`.
pub open spec fn lowbits(v: u64, k: nat) -> int {
    (v as int) % (pow2(k) as int)
}

/// `fpow` is the reduction of the plain-integer power.
pub proof fn lemma_fpow_is_pow(y: int, e: nat)
    ensures
        fpow(y, e) == pow(y, e) % fr_order(),
    decreases e,
{
    let q = fr_order();
    lemma_order_positive();
    if e == 0 {
        vstd::arithmetic::power::lemma_pow0(y);
    } else {
        lemma_fpow_is_pow(y, (e - 1) as nat);
        let prev = pow(y, (e - 1) as nat);
        assert((y * (prev % q)) % q == (y * prev) % q) by {
            vstd::arithmetic::div_mod::lemma_mul_mod_noop_right(y, prev, q);
        }
        assert(pow(y, e) == y * prev) by {
            reveal(vstd::arithmetic::power::pow);
        }
    }
}

/// `sum_pows` is the reduction of the plain-integer power sum.
pub proof fn lemma_sum_pows_is_psum(y: int, n: nat)
    ensures
        sum_pows(y, n) == psum(y, n) % fr_order(),
    decreases n,
{
    let q = fr_order();
    lemma_order_positive();
    if n == 0 {
        lemma_small_mod(0nat, q as nat);
    } else {
        lemma_sum_pows_is_psum(y, (n - 1) as nat);
        lemma_fpow_is_pow(y, (n - 1) as nat);
        let s1 = sum_pows(y, (n - 1) as nat);
        let p1 = fpow(y, (n - 1) as nat);
        vstd::arithmetic::div_mod::lemma_mod_twice(psum(y, (n - 1) as nat), q);
        vstd::arithmetic::div_mod::lemma_mod_twice(pow(y, (n - 1) as nat), q);
        crate::scalar::lemma_cong_add(
            s1,
            psum(y, (n - 1) as nat),
            p1,
            pow(y, (n - 1) as nat),
        );
    }
}

/// `delta_spec` is the reduction of the plain-integer `delta_int`.
pub proof fn lemma_delta_is_int(y: int, z: int, n: nat)
    ensures
        delta_spec(y, z, n) == delta_int(y, z, n) % fr_order(),
{
    let q = fr_order();
    lemma_order_positive();
    lemma_one_mod_order();
    lemma_sum_pows_is_psum(y, n);
    lemma_fpow_is_pow(2, n);
    vstd::arithmetic::div_mod::lemma_mod_twice(z * z, q);
    vstd::arithmetic::div_mod::lemma_mod_twice(psum(y, n), q);
    vstd::arithmetic::div_mod::lemma_mod_twice(pow(2, n), q);
    // the z - z^2 factor
    crate::scalar::lemma_cong_sub(z, z, fmul(z, z), z * z);
    vstd::arithmetic::div_mod::lemma_mod_twice(z - z * z, q);
    // its product with the power sum
    crate::scalar::lemma_cong_mul(fsub(z, fmul(z, z)), z - z * z, sum_pows(y, n), psum(y, n));
    vstd::arithmetic::div_mod::lemma_mod_twice((z - z * z) * psum(y, n), q);
    // the z^3 factor
    crate::scalar::lemma_cong_mul(fmul(z, z), z * z, z, z);
    vstd::arithmetic::div_mod::lemma_mod_twice((z * z) * z, q);
    // 2^n - 1
    crate::scalar::lemma_cong_sub(fpow(2, n), pow(2, n), 1, 1);
    vstd::arithmetic::div_mod::lemma_mod_twice(pow(2, n) - 1, q);
    // its product with z^3
    crate::scalar::lemma_cong_mul(
        fmul(fmul(z, z), z),
        (z * z) * z,
        fsub(fpow(2, n), 1),
        pow(2, n) - 1,
    );
    vstd::arithmetic::div_mod::lemma_mod_twice(((z * z) * z) * (pow(2, n) - 1), q);
    // the outer difference
    crate::scalar::lemma_cong_sub(
        fmul(fsub(z, fmul(z, z)), sum_pows(y, n)),
        (z - z * z) * psum(y, n),
        fmul(fmul(fmul(z, z), z), fsub(fpow(2, n), 1)),
        ((z * z) * z) * (pow(2, n) - 1),
    );
}

/// Splitting off the next bit: the low `k+1` bits are the low `k` bits
/// plus bit `k` weighted by `2^k`; and a bit is zero or one.
pub proof fn lemma_lowbits_step(v: u64, k: nat)
    requires
        k < 64,
    ensures
        lowbits(v, (k + 1) as nat) == lowbits(v, k) + pow2(k) * bit_of(v, k),
        bit_of(v, k) == 0 || bit_of(v, k) == 1,
{
    let p = pow2(k) as int;
    let vi = v as int;
    vstd::arithmetic::power2::lemma_pow2_pos(k);
    vstd::arithmetic::power2::lemma_pow2_unfold((k + 1) as nat);
    let q0 = vi / p;
    let r = vi % p;
    vstd::arithmetic::div_mod::lemma_fundamental_div_mod(vi, p);
    vstd::arithmetic::div_mod::lemma_mod_division_less_than_divisor(vi, p);
    vstd::arithmetic::div_mod::lemma_div_pos_is_pos(vi, p);
    let b = q0 % 2;
    let q2 = q0 / 2;
    vstd::arithmetic::div_mod::lemma_fundamental_div_mod(q0, 2);
    vstd::arithmetic::div_mod::lemma_mod_division_less_than_divisor(q0, 2);
    assert(vi == (2 * p) * q2 + (p * b + r)) by (nonlinear_arith)
        requires
            vi == p * q0 + r,
            q0 == 2 * q2 + b,
    ;
    assert(0 <= p * b + r < 2 * p) by (nonlinear_arith)
        requires
            0 <= b < 2,
            0 <= r < p,
            p > 0,
    ;
    vstd::arithmetic::div_mod::lemma_fundamental_div_mod_converse_mod(
        vi,
        2 * p,
        q2,
        p * b + r,
    );
}

/// The plain-integer step of the range identity: adding the next bit's
/// term extends the bit value, the power sum and the power of two.
proof fn lemma_fold_step_identity(low1: int, ps1: int, py: int, p2: int, z: int, b: int)
    requires
        b == 0 || b == 1,
    ensures
        low1 * (z * z) + ((z - z * z) * ps1 - ((z * z) * z) * (p2 - 1)) + (b - z) * (py * ((b - 1)
            + z) + (z * z) * p2) == (low1 + p2 * b) * (z * z) + ((z - z * z) * (ps1 + py) - ((z
            * z) * z) * ((2 * p2) - 1)),
{
    let zz = z * z;
    // expand the groupings shared by both sides
    assert((low1 + p2 * b) * zz == low1 * zz + (p2 * b) * zz) by {
        vstd::arithmetic::mul::lemma_mul_is_distributive_add_other_way(zz, low1, p2 * b);
    }
    assert((z - zz) * (ps1 + py) == (z - zz) * ps1 + (z - zz) * py) by {
        vstd::arithmetic::mul::lemma_mul_is_distributive_add(z - zz, ps1, py);
    }
    assert((zz * z) * ((2 * p2) - 1) == (zz * z) * (2 * p2) - (zz * z)) by {
        vstd::arithmetic::mul::lemma_mul_is_distributive_sub(zz * z, 2 * p2, 1);
    }
    assert((zz * z) * (p2 - 1) == (zz * z) * p2 - (zz * z)) by {
        vstd::arithmetic::mul::lemma_mul_is_distributive_sub(zz * z, p2, 1);
    }
    assert((zz * z) * (2 * p2) == (zz * z) * p2 + (zz * z) * p2) by {
        vstd::arithmetic::mul::lemma_mul_is_distributive_add(zz * z, p2, p2);
    }
    assert((z - zz) * py == z * py - zz * py) by {
        vstd::arithmetic::mul::lemma_mul_is_distributive_sub_other_way(py, z, zz);
    }
    // regroup the cubic monomials
    assert(z * (py * z) == zz * py) by {
        vstd::arithmetic::mul::lemma_mul_is_associative(z, py, z);
        vstd::arithmetic::mul::lemma_mul_is_commutative(z, py);
        vstd::arithmetic::mul::lemma_mul_is_associative(py, z, z);
        vstd::arithmetic::mul::lemma_mul_is_commutative(py, z * z);
    }
    assert(z * (zz * p2) == (zz * z) * p2) by {
        vstd::arithmetic::mul::lemma_mul_is_associative(z, zz, p2);
        vstd::arithmetic::mul::lemma_mul_is_commutative(z, zz);
    }
    if b == 0 {
        // the bit term is (-z) * (py*(z-1) + zz*p2)
        assert(py * ((0 - 1) + z) == py * z - py) by {
            vstd::arithmetic::mul::lemma_mul_is_distributive_sub(py, z, 1);
        }
        assert((0 - z) * (py * z - py + zz * p2) == (0 - z) * (py * z - py) + (0 - z) * (zz * p2))
            by {
            vstd::arithmetic::mul::lemma_mul_is_distributive_add(0 - z, py * z - py, zz * p2);
        }
        assert((0 - z) * (py * z - py) == (0 - z) * (py * z) - (0 - z) * py) by {
            vstd::arithmetic::mul::lemma_mul_is_distributive_sub(0 - z, py * z, py);
        }
        assert((0 - z) * (py * z) == 0 - z * (py * z)) by {
            vstd::arithmetic::mul::lemma_mul_is_distributive_sub_other_way(py * z, 0, z);
        }
        assert((0 - z) * py == 0 - z * py) by {
            vstd::arithmetic::mul::lemma_mul_is_distributive_sub_other_way(py, 0, z);
        }
        assert((0 - z) * (zz * p2) == 0 - z * (zz * p2)) by {
            vstd::arithmetic::mul::lemma_mul_is_distributive_sub_other_way(zz * p2, 0, z);
        }
        assert((b - z) * (py * ((b - 1) + z) + (z * z) * p2) == z * py - zz * py - (zz * z)
            * p2);
        assert(p2 * b == 0) by {
            vstd::arithmetic::mul::lemma_mul_basics(p2);
        }
        assert((low1 + p2 * b) * (z * z) == low1 * zz) by {
            vstd::arithmetic::mul::lemma_mul_is_distributive_add_other_way(zz, low1, p2 * b);
        }
    } else {
        // the bit term is (1-z) * (py*z + zz*p2)
        assert(py * ((1 - 1) + z) == py * z);
        let w = py * z + zz * p2;
        assert((1 - z) * w == w - z * w) by {
            vstd::arithmetic::mul::lemma_mul_is_distributive_sub_other_way(w, 1, z);
        }
        assert(z * w == z * (py * z) + z * (zz * p2)) by {
            vstd::arithmetic::mul::lemma_mul_is_distributive_add(z, py * z, zz * p2);
        }
        assert((b - z) * (py * ((b - 1) + z) + (z * z) * p2) == py * z + zz * p2 - zz * py - (zz
            * z) * p2);
        assert(p2 * b == p2) by {
            vstd::arithmetic::mul::lemma_mul_basics(p2);
        }
        assert((low1 + p2 * b) * (z * z) == low1 * zz + p2 * zz) by {
            vstd::arithmetic::mul::lemma_mul_is_distributive_add_other_way(zz, low1, p2 * b);
        }
        assert(zz * p2 == p2 * zz) by {
            vstd::arithmetic::mul::lemma_mul_is_commutative(zz, p2);
        }
    }
}

/// The first `k` terms of `<l0, r0>` equal the reduction of
/// `lowbits(v, k) * z^2 + delta_int(y, z, k)`.
proof fn lemma_t0_partial(l0: Seq<int>, r0: Seq<int>, v: u64, y: int, z: int, n: nat, k: nat)
    requires
        k <= n <= 64,
        l0.len() == n,
        r0.len() == n,
        forall|i: int| 0 <= i < n ==> l0[i] == fsub(bit_of(v, i as nat), z),
        forall|i: int| 0 <= i < n ==> r0[i] == fadd(
            fmul(fpow(y, i as nat), fadd(fsub(bit_of(v, i as nat), 1), z)),
            fmul(fmul(z, z), fpow(2, i as nat)),
        ),
    ensures
        ip(l0.take(k as int), r0.take(k as int)) == (lowbits(v, k) * (z * z) + delta_int(
            y,
            z,
            k,
        )) % fr_order(),
    decreases k,
{
    let q = fr_order();
    lemma_order_positive();
    if k == 0 {
        assert(l0.take(0) =~= Seq::<int>::empty());
        assert(r0.take(0) =~= Seq::<int>::empty());
        assert(ip(l0.take(0), r0.take(0)) == 0);
        vstd::arithmetic::power2::lemma2_to64();
        vstd::arithmetic::div_mod::lemma_fundamental_div_mod_converse_mod(v as int, 1, v as int, 0);
        assert(lowbits(v, 0) == 0);
        vstd::arithmetic::power::lemma_pow0(2);
        assert(psum(y, 0) == 0);
        assert(delta_int(y, z, 0) == (z - z * z) * 0 - ((z * z) * z) * (pow(2, 0) - 1));
        assert(delta_int(y, z, 0) == 0);
        lemma_small_mod(0nat, q as nat);
        assert((lowbits(v, 0) * (z * z) + delta_int(y, z, 0)) % q == 0);
    } else {
        let jn = (k - 1) as nat;
        let j = jn as int;
        lemma_t0_partial(l0, r0, v, y, z, n, jn);
        assert(l0.take(k as int).drop_last() =~= l0.take(j));
        assert(r0.take(k as int).drop_last() =~= r0.take(j));
        assert(l0.take(k as int).last() == l0[j]);
        assert(r0.take(k as int).last() == r0[j]);
        lemma_lowbits_step(v, jn);
        vstd::arithmetic::power2::lemma_pow2(jn);
        let b = bit_of(v, jn);
        let low1 = lowbits(v, jn);
        let ps1 = psum(y, jn);
        let py = pow(y, jn);
        let p2 = pow(2, jn);
        let li = b - z;
        let ri = py * ((b - 1) + z) + (z * z) * p2;
        // the current element is the reduction of (li, ri)
        assert(l0[j] % q == li % q) by {
            vstd::arithmetic::div_mod::lemma_mod_twice(li, q);
        }
        assert(r0[j] % q == ri % q) by {
            lemma_fpow_is_pow(y, jn);
            lemma_fpow_is_pow(2, jn);
            vstd::arithmetic::div_mod::lemma_mod_twice(py, q);
            vstd::arithmetic::div_mod::lemma_mod_twice(p2, q);
            vstd::arithmetic::div_mod::lemma_mod_twice(b - 1, q);
            crate::scalar::lemma_cong_add(fsub(b, 1), b - 1, z, z);
            vstd::arithmetic::div_mod::lemma_mod_twice((b - 1) + z, q);
            crate::scalar::lemma_cong_mul(fpow(y, jn), py, fadd(fsub(b, 1), z), (b - 1) + z);
            vstd::arithmetic::div_mod::lemma_mod_twice(py * ((b - 1) + z), q);
            vstd::arithmetic::div_mod::lemma_mod_twice(z * z, q);
            crate::scalar::lemma_cong_mul(fmul(z, z), z * z, fpow(2, jn), p2);
            vstd::arithmetic::div_mod::lemma_mod_twice((z * z) * p2, q);
            crate::scalar::lemma_cong_add(
                fmul(fpow(y, jn), fadd(fsub(b, 1), z)),
                py * ((b - 1) + z),
                fmul(fmul(z, z), fpow(2, jn)),
                (z * z) * p2,
            );
            vstd::arithmetic::div_mod::lemma_mod_twice(ri, q);
        }
        // fold the element into the reduced partial sum
        let t_prev = low1 * (z * z) + delta_int(y, z, jn);
        assert(fmul(l0[j], r0[j]) == (li * ri) % q) by {
            crate::scalar::lemma_cong_mul(l0[j], li, r0[j], ri);
        }
        assert(ip(l0.take(k as int), r0.take(k as int)) == (t_prev + li * ri) % q) by {
            vstd::arithmetic::div_mod::lemma_mod_twice(t_prev, q);
            vstd::arithmetic::div_mod::lemma_mod_twice(li * ri, q);
            crate::scalar::lemma_cong_add(
                ip(l0.take(j), r0.take(j)),
                t_prev,
                fmul(l0[j], r0[j]),
                li * ri,
            );
        }
        // the plain-integer step: one more bit, one more power of y,
        // one more doubling of 2^k
        lemma_fold_step_identity(low1, ps1, py, p2, z, b);
        assert(pow(2, k) == 2 * p2) by {
            reveal(vstd::arithmetic::power::pow);
        }
        assert(psum(y, k) == ps1 + py);
        assert(lowbits(v, k) == low1 + p2 * b);
        assert(delta_int(y, z, k) == (z - z * z) * (ps1 + py) - ((z * z) * z) * ((2 * p2) - 1));
        assert(lowbits(v, k) * (z * z) == (low1 + p2 * b) * (z * z));
        assert(t_prev + li * ri == lowbits(v, k) * (z * z) + delta_int(y, z, k));
    }
}

/// The plain-integer sum of elementwise products of the first `k`
/// entries.
pub open spec fn isum(a: Seq<int>, b: Seq<int>, k: nat) -> int
    decreases k,
{
    if k == 0 {
        0
    } else {
        isum(a, b, (k - 1) as nat) + a[k - 1] * b[k - 1]
    }
}

/// The field inner product is the reduction of the plain-integer sum of
/// products.
pub proof fn lemma_ip_is_isum(a: Seq<int>, b: Seq<int>, k: nat)
    requires
        k <= a.len(),
        k <= b.len(),
    ensures
        ip(a.take(k as int), b.take(k as int)) == isum(a, b, k) % fr_order(),
    decreases k,
{
    let q = fr_order();
    lemma_order_positive();
    if k == 0 {
        assert(a.take(0) =~= Seq::<int>::empty());
        assert(b.take(0) =~= Seq::<int>::empty());
        lemma_small_mod(0nat, q as nat);
    } else {
        let j = (k - 1) as int;
        lemma_ip_is_isum(a, b, (k - 1) as nat);
        assert(a.take(k as int).drop_last() =~= a.take(j));
        assert(b.take(k as int).drop_last() =~= b.take(j));
        vstd::arithmetic::div_mod::lemma_mod_twice(isum(a, b, (k - 1) as nat), q);
        vstd::arithmetic::div_mod::lemma_mod_twice(a[j] * b[j], q);
        crate::scalar::lemma_cong_add(
            ip(a.take(j), b.take(j)),
            isum(a, b, (k - 1) as nat),
            fmul(a[j], b[j]),
            a[j] * b[j],
        );
    }
}

/// The first `k` terms of `<l(x), r(x)>` are the reduction of the
/// plain-integer partial sums of `t0 + t1*x + t2*x^2`.
proof fn lemma_t_poly_partial(
    l0: Seq<int>,
    l1: Seq<int>,
    r0: Seq<int>,
    r1: Seq<int>,
    el: Seq<int>,
    er: Seq<int>,
    x: int,
    n: nat,
    k: nat,
)
    requires
        k <= n,
        l0.len() == n && l1.len() == n && r0.len() == n && r1.len() == n,
        el.len() == n && er.len() == n,
        forall|i: int| 0 <= i < n ==> el[i] == fadd(l0[i], fmul(l1[i], x)),
        forall|i: int| 0 <= i < n ==> er[i] == fadd(r0[i], fmul(r1[i], x)),
    ensures
        ip(el.take(k as int), er.take(k as int)) == (isum(l0, r0, k) + (isum(l0, r1, k) + isum(
            l1,
            r0,
            k,
        )) * x + isum(l1, r1, k) * (x * x)) % fr_order(),
    decreases k,
{
    let q = fr_order();
    lemma_order_positive();
    if k == 0 {
        assert(el.take(0) =~= Seq::<int>::empty());
        assert(er.take(0) =~= Seq::<int>::empty());
        assert(ip(el.take(0), er.take(0)) == 0);
        assert((0int + 0int) * x == 0 && 0int * (x * x) == 0) by {
            vstd::arithmetic::mul::lemma_mul_basics(x);
            vstd::arithmetic::mul::lemma_mul_basics(x * x);
        }
        lemma_small_mod(0nat, q as nat);
    } else {
        let jn = (k - 1) as nat;
        let j = jn as int;
        lemma_t_poly_partial(l0, l1, r0, r1, el, er, x, n, jn);
        assert(el.take(k as int).drop_last() =~= el.take(j));
        assert(er.take(k as int).drop_last() =~= er.take(j));
        let s0 = isum(l0, r0, jn);
        let s1 = isum(l0, r1, jn) + isum(l1, r0, jn);
        let s2 = isum(l1, r1, jn);
        let t_prev = s0 + s1 * x + s2 * (x * x);
        let eli = l0[j] + l1[j] * x;
        let eri = r0[j] + r1[j] * x;
        // the current elements are reductions of the integer evaluations
        assert(el[j] % q == eli % q) by {
            vstd::arithmetic::div_mod::lemma_mod_twice(l0[j], q);
            vstd::arithmetic::div_mod::lemma_mod_twice(l1[j] * x, q);
            crate::scalar::lemma_cong_add(l0[j], l0[j], fmul(l1[j], x), l1[j] * x);
            vstd::arithmetic::div_mod::lemma_mod_twice(eli, q);
        }
        assert(er[j] % q == eri % q) by {
            vstd::arithmetic::div_mod::lemma_mod_twice(r0[j], q);
            vstd::arithmetic::div_mod::lemma_mod_twice(r1[j] * x, q);
            crate::scalar::lemma_cong_add(r0[j], r0[j], fmul(r1[j], x), r1[j] * x);
            vstd::arithmetic::div_mod::lemma_mod_twice(eri, q);
        }
        assert(ip(el.take(k as int), er.take(k as int)) == (t_prev + eli * eri) % q) by {
            crate::scalar::lemma_cong_mul(el[j], eli, er[j], eri);
            vstd::arithmetic::div_mod::lemma_mod_twice(t_prev, q);
            vstd::arithmetic::div_mod::lemma_mod_twice(eli * eri, q);
            crate::scalar::lemma_cong_add(
                ip(el.take(j), er.take(j)),
                t_prev,
                fmul(el[j], er[j]),
                eli * eri,
            );
        }
        // the plain-integer step: one more product of linear polynomials
        lemma_poly_step_identity(s0, s1, s2, l0[j], l1[j], r0[j], r1[j], x);
        assert(isum(l0, r0, k) == s0 + l0[j] * r0[j]);
        assert(isum(l0, r1, k) + isum(l1, r0, k) == s1 + (l0[j] * r1[j] + l1[j] * r0[j]));
        assert(isum(l1, r1, k) == s2 + l1[j] * r1[j]);
        assert(t_prev + eli * eri == isum(l0, r0, k) + (isum(l0, r1, k) + isum(l1, r0, k)) * x
            + isum(l1, r1, k) * (x * x));
    }
}

/// The plain-integer step of the polynomial identity: one more product
/// of two linear polynomials in `x`.
proof fn lemma_poly_step_identity(
    s0: int,
    s1: int,
    s2: int,
    a0: int,
    a1: int,
    b0: int,
    b1: int,
    x: int,
)
    ensures
        (s0 + s1 * x + s2 * (x * x)) + (a0 + a1 * x) * (b0 + b1 * x) == (s0 + a0 * b0) + (s1 + (a0
            * b1 + a1 * b0)) * x + (s2 + a1 * b1) * (x * x),
{
    let u = a0 + a1 * x;
    // expand the product into four monomials
    assert(u * (b0 + b1 * x) == u * b0 + u * (b1 * x)) by {
        vstd::arithmetic::mul::lemma_mul_is_distributive_add(u, b0, b1 * x);
    }
    assert(u * b0 == a0 * b0 + (a1 * x) * b0) by {
        vstd::arithmetic::mul::lemma_mul_is_distributive_add_other_way(b0, a0, a1 * x);
    }
    assert(u * (b1 * x) == a0 * (b1 * x) + (a1 * x) * (b1 * x)) by {
        vstd::arithmetic::mul::lemma_mul_is_distributive_add_other_way(b1 * x, a0, a1 * x);
    }
    // regroup the monomials
    assert((a1 * x) * b0 == (a1 * b0) * x) by {
        vstd::arithmetic::mul::lemma_mul_is_associative(a1, x, b0);
        vstd::arithmetic::mul::lemma_mul_is_commutative(x, b0);
        vstd::arithmetic::mul::lemma_mul_is_associative(a1, b0, x);
    }
    assert(a0 * (b1 * x) == (a0 * b1) * x) by {
        vstd::arithmetic::mul::lemma_mul_is_associative(a0, b1, x);
    }
    assert((a1 * x) * (b1 * x) == (a1 * b1) * (x * x)) by {
        vstd::arithmetic::mul::lemma_mul_is_associative(a1, x, b1 * x);
        vstd::arithmetic::mul::lemma_mul_is_associative(x, b1, x);
        vstd::arithmetic::mul::lemma_mul_is_commutative(x, b1);
        vstd::arithmetic::mul::lemma_mul_is_associative(b1, x, x);
        vstd::arithmetic::mul::lemma_mul_is_associative(a1, b1, x * x);
    }
    // expand the right-hand side groupings
    assert((s1 + (a0 * b1 + a1 * b0)) * x == s1 * x + ((a0 * b1) * x + (a1 * b0) * x)) by {
        vstd::arithmetic::mul::lemma_mul_is_distributive_add_other_way(
            x,
            s1,
            a0 * b1 + a1 * b0,
        );
        vstd::arithmetic::mul::lemma_mul_is_distributive_add_other_way(x, a0 * b1, a1 * b0);
    }
    assert((s2 + a1 * b1) * (x * x) == s2 * (x * x) + (a1 * b1) * (x * x)) by {
        vstd::arithmetic::mul::lemma_mul_is_distributive_add_other_way(x * x, s2, a1 * b1);
    }
}

/// The soundness-critical polynomial identity: evaluating the vector
/// polynomials at `x` and taking the inner product gives exactly
/// `t0 + t1*x + t2*x^2` with `t0 = <l0,r0>`, `t1 = <l0,r1> + <l1,r0>`,
/// `t2 = <l1,r1>` — that is, `t(x) = <l(x), r(x)>`.
pub proof fn lemma_t_poly_identity(
    l0: Seq<int>,
    l1: Seq<int>,
    r0: Seq<int>,
    r1: Seq<int>,
    el: Seq<int>,
    er: Seq<int>,
    x: int,
    n: nat,
)
    requires
        l0.len() == n && l1.len() == n && r0.len() == n && r1.len() == n,
        el.len() == n && er.len() == n,
        forall|i: int| 0 <= i < n ==> el[i] == fadd(l0[i], fmul(l1[i], x)),
        forall|i: int| 0 <= i < n ==> er[i] == fadd(r0[i], fmul(r1[i], x)),
    ensures
        ip(el, er) == fadd(
            fadd(ip(l0, r0), fmul(fadd(ip(l0, r1), ip(l1, r0)), x)),
            fmul(ip(l1, r1), fmul(x, x)),
        ),
{
    let q = fr_order();
    lemma_order_positive();
    lemma_t_poly_partial(l0, l1, r0, r1, el, er, x, n, n);
    assert(el.take(n as int) =~= el);
    assert(er.take(n as int) =~= er);
    assert(l0.take(n as int) =~= l0);
    assert(l1.take(n as int) =~= l1);
    assert(r0.take(n as int) =~= r0);
    assert(r1.take(n as int) =~= r1);
    lemma_ip_is_isum(l0, r0, n);
    lemma_ip_is_isum(l0, r1, n);
    lemma_ip_is_isum(l1, r0, n);
    lemma_ip_is_isum(l1, r1, n);
    let s0 = isum(l0, r0, n);
    let s1 = isum(l0, r1, n) + isum(l1, r0, n);
    let s2 = isum(l1, r1, n);
    // reduce the right-hand side to the same integer expression
    assert(fadd(ip(l0, r1), ip(l1, r0)) == s1 % q) by {
        vstd::arithmetic::div_mod::lemma_mod_twice(isum(l0, r1, n), q);
        vstd::arithmetic::div_mod::lemma_mod_twice(isum(l1, r0, n), q);
        crate::scalar::lemma_cong_add(
            ip(l0, r1),
            isum(l0, r1, n),
            ip(l1, r0),
            isum(l1, r0, n),
        );
    }
    assert(fmul(fadd(ip(l0, r1), ip(l1, r0)), x) == (s1 * x) % q) by {
        vstd::arithmetic::div_mod::lemma_mod_twice(s1, q);
        vstd::arithmetic::div_mod::lemma_mod_twice(x, q);
        crate::scalar::lemma_cong_mul(fadd(ip(l0, r1), ip(l1, r0)), s1, x, x);
    }
    assert(fmul(ip(l1, r1), fmul(x, x)) == (s2 * (x * x)) % q) by {
        vstd::arithmetic::div_mod::lemma_mod_twice(s2, q);
        vstd::arithmetic::div_mod::lemma_mod_twice(x * x, q);
        crate::scalar::lemma_cong_mul(ip(l1, r1), s2, fmul(x, x), x * x);
    }
    assert(fadd(ip(l0, r0), fmul(fadd(ip(l0, r1), ip(l1, r0)), x)) == (s0 + s1 * x) % q) by {
        vstd::arithmetic::div_mod::lemma_mod_twice(s0, q);
        vstd::arithmetic::div_mod::lemma_mod_twice(s1 * x, q);
        crate::scalar::lemma_cong_add(
            ip(l0, r0),
            s0,
            fmul(fadd(ip(l0, r1), ip(l1, r0)), x),
            s1 * x,
        );
    }
    assert(fadd(fadd(ip(l0, r0), fmul(fadd(ip(l0, r1), ip(l1, r0)), x)), fmul(ip(l1, r1), fmul(x, x)))
        == (s0 + s1 * x + s2 * (x * x)) % q) by {
        vstd::arithmetic::div_mod::lemma_mod_twice(s0 + s1 * x, q);
        vstd::arithmetic::div_mod::lemma_mod_twice(s2 * (x * x), q);
        crate::scalar::lemma_cong_add(
            fadd(ip(l0, r0), fmul(fadd(ip(l0, r1), ip(l1, r0)), x)),
            s0 + s1 * x,
            fmul(ip(l1, r1), fmul(x, x)),
            s2 * (x * x),
        );
    }
}

/// The range constraint sits in one field equation: for the honest bit
/// decomposition of `v < 2^n`, the constant coefficient
/// `t0 = <l0, r0>` of `t(X)` equals `v*z^2 + delta(y, z, n)`, the value
/// the verifier checks against the public commitment.
pub proof fn lemma_t0_range_identity(l0: Seq<int>, r0: Seq<int>, v: u64, y: int, z: int, n: nat)
    requires
        n <= 64,
        (v as nat) < pow2(n),
        l0.len() == n,
        r0.len() == n,
        forall|i: int| 0 <= i < n ==> l0[i] == fsub(bit_of(v, i as nat), z),
        forall|i: int| 0 <= i < n ==> r0[i] == fadd(
            fmul(fpow(y, i as nat), fadd(fsub(bit_of(v, i as nat), 1), z)),
            fmul(fmul(z, z), fpow(2, i as nat)),
        ),
    ensures
        ip(l0, r0) == fadd(fmul(v as int, fmul(z, z)), delta_spec(y, z, n)),
{
    let q = fr_order();
    lemma_order_positive();
    lemma_t0_partial(l0, r0, v, y, z, n, n);
    assert(l0.take(n as int) =~= l0);
    assert(r0.take(n as int) =~= r0);
    assert(lowbits(v, n) == v as int) by {
        vstd::arithmetic::power2::lemma_pow2_pos(n);
        lemma_small_mod(v as nat, pow2(n));
    }
    lemma_delta_is_int(y, z, n);
    assert(fmul(v as int, fmul(z, z)) == ((v as int) * (z * z)) % q) by {
        vstd::arithmetic::div_mod::lemma_mod_twice(z * z, q);
        vstd::arithmetic::div_mod::lemma_mod_twice(v as int, q)
        ;
        lemma_small_mod(v as nat, q as nat);
        crate::scalar::lemma_cong_mul(v as int, v as int, fmul(z, z), z * z);
    }
    assert(fadd(fmul(v as int, fmul(z, z)), delta_spec(y, z, n)) == ((v as int) * (z * z)
        + delta_int(y, z, n)) % q) by {
        vstd::arithmetic::div_mod::lemma_mod_twice((v as int) * (z * z), q);
        vstd::arithmetic::div_mod::lemma_mod_twice(delta_int(y, z, n), q);
        crate::scalar::lemma_cong_add(
            fmul(v as int, fmul(z, z)),
            (v as int) * (z * z),
            delta_spec(y, z, n),
            delta_int(y, z, n),
        );
    }
}

/// `b` raised to the power `e` in the field.
pub fn scalar_pow(b: &Scalar, e: usize) -> (r: Scalar)
    ensures
        r@ == fpow(b@, e as nat),
{
    let mut r = scalar_one();
    proof {
        lemma_fpow_zero(b@);
    }
    let mut i: usize = 0;
    while i < e
        invariant
            i <= e,
            r@ == fpow(b@, i as nat),
        decreases e - i,
    {
        r = scalar_mul(b, &r);
        i += 1;
    }
    r
}

/// The geometric sum `1 + base + ... + base^(n-1)`, by direct summation.
pub fn geom_sum(base: &Scalar, n: usize) -> (r: Scalar)
    ensures
        r@ == sum_pows(base@, n as nat),
{
    let mut sum = scalar_zero();
    let mut cur = scalar_one();
    proof {
        lemma_fpow_zero(base@);
    }
    let mut i: usize = 0;
    while i < n
        invariant
            i <= n,
            sum@ == sum_pows(base@, i as nat),
            cur@ == fpow(base@, i as nat),
        decreases n - i,
    {
        sum = scalar_add(&sum, &cur);
        cur = scalar_mul(base, &cur);
        i += 1;
    }
    sum
}

/// `delta(y, z, n)`: computed with the closed-form geometric sum
/// (`n` itself when `y == 1`, `(y^n - 1)/(y - 1)` otherwise), and proved
/// equal to the brute-force summation `delta_spec`.
pub fn delta(y: &Scalar, z: &Scalar, n: usize) -> (r: Scalar)
    ensures
        r@ == delta_spec(y@, z@, n as nat),
{
    let one = scalar_one();
    let sum_y: Scalar;
    if scalar_eq(y, &one) {
        sum_y = scalar_from_u64(n as u64);
        proof {
            lemma_sum_pows_one(n as nat);
            lemma_order_positive();
            lemma_small_mod(n as nat, fr_order() as nat);
        }
    } else {
        proof {
            lemma_scalar_range(*y);
            lemma_sub_one_nonzero(y@);
        }
        let d = scalar_sub(y, &one);
        let d_inv = scalar_inverse(&d);
        let y_pow_n = scalar_pow(y, n);
        let num = scalar_sub(&y_pow_n, &one);
        sum_y = scalar_mul(&num, &d_inv);
        proof {
            let q = fr_order();
            let s = sum_pows(y@, n as nat);
            lemma_sum_pows_range(y@, n as nat);
            lemma_geom_progression(y@, n as nat);
            lemma_fmul_cancel(d@, d_inv@, s);
            assert(fmul(num@, d_inv@) == fmul(d_inv@, fmul(d@, s))) by {
                assert(num@ == fmul(d@, s));
                assert(num@ * d_inv@ == d_inv@ * num@);
            }
        }
    }
    let two = scalar_from_u64(2);
    let two_pow_n = scalar_pow(&two, n);
    let sum_two = scalar_sub(&two_pow_n, &one);
    let z_sq = scalar_mul(z, z);
    let z_cu = scalar_mul(&z_sq, z);
    let lead = scalar_sub(z, &z_sq);
    let term1 = scalar_mul(&lead, &sum_y);
    let term2 = scalar_mul(&z_cu, &sum_two);
    scalar_sub(&term1, &term2)
}

/// The coefficient vectors of `l(X)` and `r(X)`:
/// `l0 = aL - z*1`, `l1 = sL`,
/// `r0 = y^n o (aR + z*1) + z^2 * 2^n`, `r1 = y^n o sR`.
pub fn build_l_r(
    a_l: &Vec<Scalar>,
    s_l: &Vec<Scalar>,
    a_r: &Vec<Scalar>,
    s_r: &Vec<Scalar>,
    y: &Scalar,
    z: &Scalar,
) -> (r: (Vec<Scalar>, Vec<Scalar>, Vec<Scalar>, Vec<Scalar>))
    requires
        a_l@.len() == s_l@.len() == a_r@.len() == s_r@.len(),
    ensures
        r.0@.len() == a_l@.len() && r.1@.len() == a_l@.len() && r.2@.len() == a_l@.len()
            && r.3@.len() == a_l@.len(),
        forall|i: int| 0 <= i < a_l@.len() ==> (#[trigger] r.0@[i]@) == fsub(a_l@[i]@, z@),
        forall|i: int| 0 <= i < a_l@.len() ==> (#[trigger] r.1@[i]@) == s_l@[i]@,
        forall|i: int| 0 <= i < a_l@.len() ==> (#[trigger] r.2@[i]@) == fadd(
            fmul(fpow(y@, i as nat), fadd(a_r@[i]@, z@)),
            fmul(fmul(z@, z@), fpow(2, i as nat)),
        ),
        forall|i: int| 0 <= i < a_l@.len() ==> (#[trigger] r.3@[i]@) == fmul(
            s_r@[i]@,
            fpow(y@, i as nat),
        ),
{
    let n = a_l.len();
    let z_sq = scalar_mul(z, z);
    let two = scalar_from_u64(2);
    let mut l0: Vec<Scalar> = Vec::new();
    let mut l1: Vec<Scalar> = Vec::new();
    let mut r0: Vec<Scalar> = Vec::new();
    let mut r1: Vec<Scalar> = Vec::new();
    let mut y_pow = scalar_one();
    let mut two_pow = scalar_one();
    proof {
        lemma_fpow_zero(y@);
        lemma_fpow_zero(2);
    }
    let mut i: usize = 0;
    while i < n
        invariant
            i <= n,
            n == a_l@.len() == s_l@.len() == a_r@.len() == s_r@.len(),
            l0@.len() == i && l1@.len() == i && r0@.len() == i && r1@.len() == i,
            z_sq@ == fmul(z@, z@),
            two@ == 2,
            y_pow@ == fpow(y@, i as nat),
            two_pow@ == fpow(2, i as nat),
            forall|j: int| 0 <= j < i ==> (#[trigger] l0@[j]@) == fsub(a_l@[j]@, z@),
            forall|j: int| 0 <= j < i ==> (#[trigger] l1@[j]@) == s_l@[j]@,
            forall|j: int| 0 <= j < i ==> (#[trigger] r0@[j]@) == fadd(
                fmul(fpow(y@, j as nat), fadd(a_r@[j]@, z@)),
                fmul(fmul(z@, z@), fpow(2, j as nat)),
            ),
            forall|j: int| 0 <= j < i ==> (#[trigger] r1@[j]@) == fmul(
                s_r@[j]@,
                fpow(y@, j as nat),
            ),
        decreases n - i,
    {
        l0.push(scalar_sub(&a_l[i], z));
        l1.push(s_l[i]);
        let inner = scalar_add(&a_r[i], z);
        let weighted = scalar_mul(&y_pow, &inner);
        let correction = scalar_mul(&z_sq, &two_pow);
        r0.push(scalar_add(&weighted, &correction));
        r1.push(scalar_mul(&s_r[i], &y_pow));
        y_pow = scalar_mul(y, &y_pow);
        two_pow = scalar_mul(&two, &two_pow);
        i += 1;
    }
    (l0, l1, r0, r1)
}

/// The vector polynomial evaluated at `x`: `v0 + v1 * x`, elementwise.
pub fn evaluate_at(v0: &Vec<Scalar>, v1: &Vec<Scalar>, x: &Scalar) -> (r: Vec<Scalar>)
    requires
        v0@.len() == v1@.len(),
    ensures
        r@.len() == v0@.len(),
        forall|i: int| 0 <= i < r@.len() ==> (#[trigger] r@[i]@) == fadd(
            v0@[i]@,
            fmul(v1@[i]@, x@),
        ),
{
    let n = v0.len();
    let mut r: Vec<Scalar> = Vec::new();
    let mut i: usize = 0;
    while i < n
        invariant
            i <= n,
            n == v0@.len() == v1@.len(),
            r@.len() == i,
            forall|j: int| 0 <= j < i ==> (#[trigger] r@[j]@) == fadd(
                v0@[j]@,
                fmul(v1@[j]@, x@),
            ),
        decreases n - i,
    {
        let scaled = scalar_mul(&v1[i], x);
        r.push(scalar_add(&v0[i], &scaled));
        i += 1;
    }
    r
}

/// The coefficients of `t(X) = <l(X), r(X)> = t0 + t1*X + t2*X^2`:
/// `t0 = <l0,r0>`, `t1 = <l0,r1> + <l1,r0>`, `t2 = <l1,r1>`.
pub fn t_coeffs(
    l0: &Vec<Scalar>,
    l1: &Vec<Scalar>,
    r0: &Vec<Scalar>,
    r1: &Vec<Scalar>,
) -> (r: (Scalar, Scalar, Scalar))
    requires
        l0@.len() == l1@.len() == r0@.len() == r1@.len(),
    ensures
        r.0@ == ip(views(l0@), views(r0@)),
        r.1@ == fadd(ip(views(l0@), views(r1@)), ip(views(l1@), views(r0@))),
        r.2@ == ip(views(l1@), views(r1@)),
{
    let t0 = inner_product(l0, r0);
    let t1a = inner_product(l0, r1);
    let t1b = inner_product(l1, r0);
    let t1 = scalar_add(&t1a, &t1b);
    let t2 = inner_product(l1, r1);
    (t0, t1, t2)
}

} // verus!
