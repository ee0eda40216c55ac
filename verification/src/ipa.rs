//! The inner-product argument: the recursive halving protocol that
//! compresses the opening of a commitment `P = g^a * h^b * u^<a,b>` into
//! `log2(n)` pairs of points plus two final scalars. The prover folds the
//! vectors round by round under Fiat-Shamir challenges; the verifier
//! reconstructs the fold coefficients for every original index and checks
//! one combined equation. Both directions are pinned to spec-level traces
//! of the same rounds.

use vstd::prelude::*;
use vstd::arithmetic::power2::pow2;
use vstd::bits::lemma_u64_shr_is_div;
use crate::RangeProofError;
use crate::scalar::{Scalar, fadd, fmul, finv, fr_order, scalar_mul, scalar_inverse, scalar_one,
    lemma_one_mod_order, lemma_inverse_unique, lemma_scalar_range};
use crate::vector::{ip, views, inner_product, add_vectors, scale_vector};
use crate::group::{GroupElement, pt_sum, pt_scale, ge_add, ge_scale, ge_eq};
use crate::commitment::{gviews, msm, blinded_commitment, commit, commit_blinded};
use crate::generators::{scale_points, add_point_vectors};
use crate::transcript::{Transcript, msg_frame, challenge_from};

verus! {

/// Whether `n` is a power of two.
pub open spec fn is_pow2(n: nat) -> bool
    decreases n,
{
    if n == 0 {
        false
    } else if n == 1 {
        true
    } else {
        n % 2 == 0 && is_pow2(n / 2)
    }
}

/// The base-two logarithm of a power of two.
pub open spec fn log2(n: nat) -> nat
    decreases n,
{
    if n <= 1 {
        0
    } else {
        1 + log2(n / 2)
    }
}

/// Whether `n` is a power of two.
pub fn check_pow2(n: usize) -> (r: bool)
    ensures
        r == is_pow2(n as nat),
    decreases n,
{
    if n == 0 {
        false
    } else if n == 1 {
        true
    } else if n % 2 == 1 {
        false
    } else {
        check_pow2(n / 2)
    }
}

/// The base-two logarithm, rounded down.
pub fn log2_floor(n: usize) -> (r: usize)
    ensures
        r == log2(n as nat),
        r <= 64,
        n >= 1 ==> pow2(r as nat) <= n as nat,
    decreases n,
{
    if n <= 1 {
        proof {
            vstd::arithmetic::power2::lemma2_to64();
        }
        0
    } else {
        let rest = log2_floor(n / 2);
        proof {
            vstd::arithmetic::power2::lemma_pow2_unfold((rest + 1) as nat);
            assert(pow2((rest + 1) as nat) == 2 * pow2(rest as nat));
            if rest + 1 > 64 {
                vstd::arithmetic::power2::lemma2_to64();
                vstd::arithmetic::power2::lemma2_to64_rest();
                vstd::arithmetic::power2::lemma_pow2_strictly_increases(64, (rest + 1) as nat);
                assert(false);
            }
        }
        1 + rest
    }
}

/// The transcript labels of the argument's messages.
pub open spec fn l_label() -> Seq<u8> {
    seq![76u8]
}

pub open spec fn r_label() -> Seq<u8> {
    seq![82u8]
}

pub open spec fn x_label() -> Seq<u8> {
    seq![120u8]
}

/// The prover-side state of the argument after some rounds: the current
/// (folded) vectors, the transcript bytes, and the points sent so far.
pub ghost struct IpaTrace {
    pub a: Seq<int>,
    pub b: Seq<int>,
    pub g: Seq<Seq<u8>>,
    pub h: Seq<Seq<u8>>,
    pub t: Seq<u8>,
    pub ls: Seq<Seq<u8>>,
    pub rs: Seq<Seq<u8>>,
    pub ok: bool,
}

/// One prover round: split in halves, send `L` and `R`, draw the
/// challenge from the transcript, fold every vector to half length.
pub open spec fn ipa_round(s: IpaTrace, u: Seq<u8>) -> IpaTrace {
    let m = s.a.len() as int;
    let mid = m / 2;
    let a_lo = s.a.subrange(0, mid);
    let a_hi = s.a.subrange(mid, m);
    let b_lo = s.b.subrange(0, mid);
    let b_hi = s.b.subrange(mid, m);
    let g_lo = s.g.subrange(0, mid);
    let g_hi = s.g.subrange(mid, m);
    let h_lo = s.h.subrange(0, mid);
    let h_hi = s.h.subrange(mid, m);
    let c_l = ip(a_lo, b_hi);
    let c_r = ip(a_hi, b_lo);
    let l_pt = blinded_commitment(u, c_l, g_hi, a_lo, h_lo, b_hi);
    let r_pt = blinded_commitment(u, c_r, g_lo, a_hi, h_hi, b_lo);
    let t1 = s.t + msg_frame(l_label(), l_pt) + msg_frame(r_label(), r_pt);
    match challenge_from(t1, x_label(), 0) {
        Some(pr) => {
        let x = pr.0;
        let xi = finv(x);
        IpaTrace {
            a: Seq::new(mid as nat, |i: int| fadd(fmul(a_lo[i], x), fmul(a_hi[i], xi))),
            b: Seq::new(mid as nat, |i: int| fadd(fmul(b_lo[i], xi), fmul(b_hi[i], x))),
            g: Seq::new(mid as nat, |i: int| pt_sum(pt_scale(g_lo[i], xi), pt_scale(g_hi[i], x))),
            h: Seq::new(mid as nat, |i: int| pt_sum(pt_scale(h_lo[i], x), pt_scale(h_hi[i], xi))),
            t: t1 + pr.1,
            ls: s.ls.push(l_pt),
            rs: s.rs.push(r_pt),
            ok: s.ok,
        }
        },
        None => IpaTrace {
            a: s.a,
            b: s.b,
            g: s.g,
            h: s.h,
            t: s.t,
            ls: s.ls,
            rs: s.rs,
            ok: false,
        },
    }
}

/// The prover's state after `k` rounds from the given start.
pub open spec fn ipa_prove_trace(
    g: Seq<Seq<u8>>,
    h: Seq<Seq<u8>>,
    u: Seq<u8>,
    a: Seq<int>,
    b: Seq<int>,
    t0: Seq<u8>,
    k: nat,
) -> IpaTrace
    decreases k,
{
    if k == 0 {
        IpaTrace { a, b, g, h, t: t0, ls: Seq::empty(), rs: Seq::empty(), ok: true }
    } else {
        ipa_round(ipa_prove_trace(g, h, u, a, b, t0, (k - 1) as nat), u)
    }
}

/// An inner-product argument proof: `log2(n)` rounds' `(L, R)` pairs and
/// the two scalars left after the last fold.
#[derive(Debug)]
pub struct InnerProductProof {
    pub l_points: Vec<GroupElement>,
    pub r_points: Vec<GroupElement>,
    pub a: Scalar,
    pub b: Scalar,
}

/// A failed round never recovers: once a trace is not ok, every later
/// trace is not ok.
proof fn lemma_trace_stays_failed(
    g: Seq<Seq<u8>>,
    h: Seq<Seq<u8>>,
    u: Seq<u8>,
    a: Seq<int>,
    b: Seq<int>,
    t0: Seq<u8>,
    k1: nat,
    k2: nat,
)
    requires
        k1 <= k2,
        !ipa_prove_trace(g, h, u, a, b, t0, k1).ok,
    ensures
        !ipa_prove_trace(g, h, u, a, b, t0, k2).ok,
    decreases k2,
{
    if k2 > k1 {
        lemma_trace_stays_failed(g, h, u, a, b, t0, k1, (k2 - 1) as nat);
    }
}

/// The two halves of a scalar vector.
pub fn split_scalars(v: &Vec<Scalar>, mid: usize) -> (r: (Vec<Scalar>, Vec<Scalar>))
    requires
        mid <= v@.len(),
    ensures
        r.0@ == v@.subrange(0, mid as int),
        r.1@ == v@.subrange(mid as int, v@.len() as int),
{
    let n = v.len();
    let mut lo: Vec<Scalar> = Vec::new();
    let mut hi: Vec<Scalar> = Vec::new();
    let mut i: usize = 0;
    while i < mid
        invariant
            i <= mid <= n,
            n == v@.len(),
            lo@.len() == i,
            forall|j: int| 0 <= j < i ==> lo@[j] == v@[j],
        decreases mid - i,
    {
        lo.push(v[i]);
        i += 1;
    }
    let mut k: usize = mid;
    while k < n
        invariant
            mid <= k <= n,
            n == v@.len(),
            hi@.len() == k - mid,
            forall|j: int| 0 <= j < k - mid ==> hi@[j] == v@[mid + j],
        decreases n - k,
    {
        hi.push(v[k]);
        k += 1;
    }
    proof {
        assert(lo@ =~= v@.subrange(0, mid as int));
        assert(hi@ =~= v@.subrange(mid as int, v@.len() as int));
    }
    (lo, hi)
}

/// The two halves of a generator vector.
pub fn split_points(v: &Vec<GroupElement>, mid: usize) -> (r: (Vec<GroupElement>, Vec<GroupElement>))
    requires
        mid <= v@.len(),
    ensures
        gviews(r.0@) == gviews(v@).subrange(0, mid as int),
        gviews(r.1@) == gviews(v@).subrange(mid as int, v@.len() as int),
        r.0@.len() == mid,
        r.1@.len() == v@.len() - mid,
{
    let n = v.len();
    let mut lo: Vec<GroupElement> = Vec::new();
    let mut hi: Vec<GroupElement> = Vec::new();
    let mut i: usize = 0;
    while i < mid
        invariant
            i <= mid <= n,
            n == v@.len(),
            lo@.len() == i,
            forall|j: int| 0 <= j < i ==> (#[trigger] lo@[j]@) == v@[j]@,
        decreases mid - i,
    {
        lo.push(v[i].dup());
        i += 1;
    }
    let mut k: usize = mid;
    while k < n
        invariant
            mid <= k <= n,
            n == v@.len(),
            hi@.len() == k - mid,
            forall|j: int| 0 <= j < k - mid ==> (#[trigger] hi@[j]@) == v@[mid + j]@,
        decreases n - k,
    {
        hi.push(v[k].dup());
        k += 1;
    }
    proof {
        assert(gviews(lo@) =~= gviews(v@).subrange(0, mid as int));
        assert(gviews(hi@) =~= gviews(v@).subrange(mid as int, v@.len() as int));
    }
    (lo, hi)
}

/// An equal-valued copy of a scalar vector.
pub fn copy_scalars(v: &Vec<Scalar>) -> (r: Vec<Scalar>)
    ensures
        r@ == v@,
{
    let (lo, _hi) = split_scalars(v, v.len());
    proof {
        assert(lo@ =~= v@);
    }
    lo
}

/// An equal-valued copy of a generator vector.
pub fn copy_points(v: &Vec<GroupElement>) -> (r: Vec<GroupElement>)
    ensures
        gviews(r@) == gviews(v@),
        r@.len() == v@.len(),
{
    let (lo, _hi) = split_points(v, v.len());
    proof {
        assert(gviews(lo@) =~= gviews(v@));
    }
    lo
}

/// The prover side of the inner-product argument: `log2(n)` rounds, each
/// sending `L` and `R`, drawing the round challenge from the transcript,
/// and folding all four vectors to half length; the result carries the
/// `(L, R)` pairs and the two final scalars. The whole output and the
/// final transcript are pinned to the spec-level trace of the rounds;
/// the only failure is `DegenerateChallenge`, when some round's
/// challenge cannot be drawn.
pub fn ipa_prove(
    g: &Vec<GroupElement>,
    h: &Vec<GroupElement>,
    u: &GroupElement,
    a: &Vec<Scalar>,
    b: &Vec<Scalar>,
    transcript: &mut Transcript,
) -> (r: Result<InnerProductProof, RangeProofError>)
    requires
        g@.len() == h@.len() && a@.len() == g@.len() && b@.len() == g@.len(),
        g@.len() >= 1,
        is_pow2(g@.len() as nat),
    ensures
        ({
            let tr = ipa_prove_trace(
                gviews(g@),
                gviews(h@),
                u@,
                views(a@),
                views(b@),
                old(transcript)@,
                log2(g@.len() as nat),
            );
            &&& r.is_ok() <==> tr.ok
            &&& (r matches Ok(p) ==> {
                &&& gviews(p.l_points@) == tr.ls
                &&& gviews(p.r_points@) == tr.rs
                &&& p.l_points@.len() == log2(g@.len() as nat)
                &&& p.r_points@.len() == log2(g@.len() as nat)
                &&& tr.a.len() == 1 && tr.b.len() == 1
                &&& p.a@ == tr.a[0] && p.b@ == tr.b[0]
                &&& final(transcript)@ == tr.t
            })
            &&& (r matches Err(e) ==> e == RangeProofError::DegenerateChallenge)
        }),
        old(transcript)@.is_prefix_of(final(transcript)@),
{
    let ghost g0 = gviews(g@);
    let ghost h0 = gviews(h@);
    let ghost u0 = u@;
    let ghost a0 = views(a@);
    let ghost b0 = views(b@);
    let ghost t0 = old(transcript)@;
    let n = g.len();
    let log_n = log2_floor(n);
    let mut cur_a = copy_scalars(a);
    let mut cur_b = copy_scalars(b);
    let mut cur_g = copy_points(g);
    let mut cur_h = copy_points(h);
    let mut ls: Vec<GroupElement> = Vec::new();
    let mut rs: Vec<GroupElement> = Vec::new();
    let mut m = n;
    let mut j: usize = 0;
    proof {
        assert(t0 =~= t0.subrange(0, t0.len() as int));
    }
    while m > 1
        invariant
            1 <= m <= n,
            log_n == log2(n as nat) && log_n <= 64,
            j <= log2(n as nat),
            is_pow2(m as nat),
            log2(m as nat) + j == log2(n as nat),
            ({
                let tr = ipa_prove_trace(g0, h0, u0, a0, b0, t0, j as nat);
                &&& tr.ok
                &&& views(cur_a@) == tr.a && views(cur_b@) == tr.b
                &&& gviews(cur_g@) == tr.g && gviews(cur_h@) == tr.h
                &&& transcript@ == tr.t
                &&& gviews(ls@) == tr.ls && gviews(rs@) == tr.rs
                &&& cur_a@.len() == m && cur_b@.len() == m
                &&& cur_g@.len() == m && cur_h@.len() == m
                &&& ls@.len() == j && rs@.len() == j
            }),
            old(transcript)@ == t0,
            t0.is_prefix_of(transcript@),
            u@ == u0,
            n == g@.len(),
            g0 == gviews(g@) && h0 == gviews(h@) && a0 == views(a@) && b0 == views(b@),
        decreases m,
    {
        let ghost tr = ipa_prove_trace(g0, h0, u0, a0, b0, t0, j as nat);
        let mid = m / 2;
        let (a_lo, a_hi) = split_scalars(&cur_a, mid);
        let (b_lo, b_hi) = split_scalars(&cur_b, mid);
        let (g_lo, g_hi) = split_points(&cur_g, mid);
        let (h_lo, h_hi) = split_points(&cur_h, mid);
        proof {
            crate::vector::lemma_views_subrange(cur_a@, 0, mid as int);
            crate::vector::lemma_views_subrange(cur_a@, mid as int, m as int);
            crate::vector::lemma_views_subrange(cur_b@, 0, mid as int);
            crate::vector::lemma_views_subrange(cur_b@, mid as int, m as int);
        }
        let c_l = inner_product(&a_lo, &b_hi);
        let c_r = inner_product(&a_hi, &b_lo);
        let l_pt = match commit_blinded(u, &c_l, &g_hi, &a_lo, &h_lo, &b_hi) {
            Ok(c) => c,
            Err(_) => vstd::pervasive::unreached(),
        };
        let r_pt = match commit_blinded(u, &c_r, &g_lo, &a_hi, &h_hi, &b_lo) {
            Ok(c) => c,
            Err(_) => vstd::pervasive::unreached(),
        };
        let lab_l: Vec<u8> = vec![76];
        let lab_r: Vec<u8> = vec![82];
        let lab_x: Vec<u8> = vec![120];
        proof {
            assert(lab_l@ =~= l_label());
            assert(lab_r@ =~= r_label());
            assert(lab_x@ =~= x_label());
        }
        transcript.append_point(lab_l.as_slice(), &l_pt);
        transcript.append_point(lab_r.as_slice(), &r_pt);
        let ghost t1 = transcript@;
        proof {
            let m_i = tr.a.len() as int;
            let mid_i = m_i / 2;
            assert(views(a_lo@) == tr.a.subrange(0, mid_i));
            assert(views(a_hi@) == tr.a.subrange(mid_i, m_i));
            assert(views(b_lo@) == tr.b.subrange(0, mid_i));
            assert(views(b_hi@) == tr.b.subrange(mid_i, m_i));
            assert(gviews(g_lo@) == tr.g.subrange(0, mid_i));
            assert(gviews(g_hi@) == tr.g.subrange(mid_i, m_i));
            assert(gviews(h_lo@) == tr.h.subrange(0, mid_i));
            assert(gviews(h_hi@) == tr.h.subrange(mid_i, m_i));
            assert(l_pt@ == blinded_commitment(
                u0,
                ip(tr.a.subrange(0, mid_i), tr.b.subrange(mid_i, m_i)),
                tr.g.subrange(mid_i, m_i),
                tr.a.subrange(0, mid_i),
                tr.h.subrange(0, mid_i),
                tr.b.subrange(mid_i, m_i),
            ));
            assert(r_pt@ == blinded_commitment(
                u0,
                ip(tr.a.subrange(mid_i, m_i), tr.b.subrange(0, mid_i)),
                tr.g.subrange(0, mid_i),
                tr.a.subrange(mid_i, m_i),
                tr.h.subrange(mid_i, m_i),
                tr.b.subrange(0, mid_i),
            ));
            assert(t1 == tr.t + msg_frame(l_label(), l_pt@) + msg_frame(r_label(), r_pt@));
            crate::transcript::lemma_prefix_extend(t0, tr.t, msg_frame(l_label(), l_pt@));
            crate::transcript::lemma_prefix_extend(
                t0,
                tr.t + msg_frame(l_label(), l_pt@),
                msg_frame(r_label(), r_pt@),
            );
        }
        let x = match transcript.challenge_scalar(lab_x.as_slice()) {
            Ok(x) => x,
            Err(e) => {
                proof {
                    let tr1 = ipa_prove_trace(g0, h0, u0, a0, b0, t0, (j + 1) as nat);
                    assert(!tr1.ok);
                    lemma_trace_stays_failed(
                        g0,
                        h0,
                        u0,
                        a0,
                        b0,
                        t0,
                        (j + 1) as nat,
                        log2(n as nat),
                    );
                }
                return Err(e);
            },
        };
        let x_inv = scalar_inverse(&x);
        proof {
            lemma_scalar_range(x_inv);
            lemma_inverse_unique(x@, x_inv@);
        }
        let new_a = add_vectors(&scale_vector(&a_lo, &x), &scale_vector(&a_hi, &x_inv));
        let new_b = add_vectors(&scale_vector(&b_lo, &x_inv), &scale_vector(&b_hi, &x));
        let new_g = add_point_vectors(&scale_points(&g_lo, &x_inv), &scale_points(&g_hi, &x));
        let new_h = add_point_vectors(&scale_points(&h_lo, &x), &scale_points(&h_hi, &x_inv));
        ls.push(l_pt);
        rs.push(r_pt);
        cur_a = new_a;
        cur_b = new_b;
        cur_g = new_g;
        cur_h = new_h;
        proof {
            let tr1 = ipa_prove_trace(g0, h0, u0, a0, b0, t0, (j + 1) as nat);
            assert(tr1 == ipa_round(tr, u0));
            assert(views(cur_a@) =~= tr1.a);
            assert(views(cur_b@) =~= tr1.b);
            assert(gviews(cur_g@) =~= tr1.g);
            assert(gviews(cur_h@) =~= tr1.h);
            assert(gviews(ls@) =~= tr1.ls);
            assert(gviews(rs@) =~= tr1.rs);
            assert(t0.is_prefix_of(transcript@)) by {
                assert(forall|i: int| 0 <= i < t0.len() ==> t0[i] == transcript@[i]);
                assert(t0 =~= transcript@.subrange(0, t0.len() as int));
            };
        }
        m = mid;
        j += 1;
    }
    proof {
        assert(log2(1nat) == 0);
        assert(j == log2(n as nat));
    }
    let final_a = cur_a[0];
    let final_b = cur_b[0];
    Ok(InnerProductProof { l_points: ls, r_points: rs, a: final_a, b: final_b })
}

/// Bit `j` of `i` (little-endian).
pub open spec fn nat_bit(i: nat, j: nat) -> bool {
    (i / pow2(j)) % 2 == 1
}

/// The first `cnt` factors (little-endian bit first) of the fold
/// coefficient of original index `i`: bit `j` of `i` picks the round
/// `len-1-j` challenge when set, its inverse when clear.
pub open spec fn s_partial(xs: Seq<int>, i: nat, cnt: nat) -> int
    decreases cnt,
{
    if cnt == 0 {
        1int % fr_order()
    } else {
        let j = (cnt - 1) as nat;
        let x = xs[xs.len() - 1 - j];
        let f = if nat_bit(i, j) {
            x
        } else {
            finv(x)
        };
        fmul(s_partial(xs, i, j), f)
    }
}

/// The fold coefficient `s_i` of original index `i` under the round
/// challenges `xs`: the product of `x_j` or `x_j^(-1)` over all rounds,
/// the sign given by the bits of `i`.
pub open spec fn s_coeff(xs: Seq<int>, i: nat) -> int {
    s_partial(xs, i, xs.len())
}

/// As `s_partial`, with every factor inverted.
pub open spec fn s_inv_partial(xs: Seq<int>, i: nat, cnt: nat) -> int
    decreases cnt,
{
    if cnt == 0 {
        1int % fr_order()
    } else {
        let j = (cnt - 1) as nat;
        let x = xs[xs.len() - 1 - j];
        let f = if nat_bit(i, j) {
            finv(x)
        } else {
            x
        };
        fmul(s_inv_partial(xs, i, j), f)
    }
}

/// The inverse fold coefficient `s_i^(-1)`, as the product of the
/// inverted factors.
pub open spec fn s_coeff_inv(xs: Seq<int>, i: nat) -> int {
    s_inv_partial(xs, i, xs.len())
}

/// The elementwise multiplicative inverse; every element must be
/// nonzero.
pub fn inverse_the_vector(v: &Vec<Scalar>) -> (r: Vec<Scalar>)
    requires
        forall|i: int| 0 <= i < v@.len() ==> (#[trigger] v@[i]@) != 0,
    ensures
        r@.len() == v@.len(),
        forall|i: int| 0 <= i < v@.len() ==> (#[trigger] r@[i]@) == finv(v@[i]@),
{
    let n = v.len();
    let mut r: Vec<Scalar> = Vec::new();
    let mut i: usize = 0;
    while i < n
        invariant
            i <= n,
            n == v@.len(),
            forall|k: int| 0 <= k < n ==> (#[trigger] v@[k]@) != 0,
            r@.len() == i,
            forall|k: int| 0 <= k < i ==> (#[trigger] r@[k]@) == finv(v@[k]@),
        decreases n - i,
    {
        let inv = scalar_inverse(&v[i]);
        proof {
            lemma_scalar_range(inv);
            lemma_inverse_unique(v@[i as int]@, inv@);
        }
        r.push(inv);
        i += 1;
    }
    r
}

/// `n` below `2^k` has logarithm below `k`.
pub proof fn lemma_log2_bound(n: nat, k: nat)
    requires
        n < pow2(k),
        k >= 1,
    ensures
        log2(n) < k,
    decreases n,
{
    if n > 1 {
        vstd::arithmetic::power2::lemma_pow2_unfold(k);
        if k == 1 {
            vstd::arithmetic::power2::lemma2_to64();
            assert(false);
        } else {
            lemma_log2_bound(n / 2, (k - 1) as nat);
        }
    }
}

/// The fold coefficients `s_i` (and, swapped, their inverses) for every
/// original index `i in [0, n)`, from the round challenges.
pub fn compute_s_vector(challenges: &Vec<Scalar>, n: usize) -> (r: Vec<Scalar>)
    requires
        is_pow2(n as nat),
        challenges@.len() == log2(n as nat),
        challenges@.len() < 64,
        forall|k: int| 0 <= k < challenges@.len() ==> (#[trigger] challenges@[k]@) != 0,
    ensures
        r@.len() == n,
        forall|i: int| 0 <= i < n ==> (#[trigger] r@[i]@) == s_coeff(
            views(challenges@),
            i as nat,
        ),
{
    let (s, _s_inv) = compute_s_vectors(challenges, n);
    s
}

/// Both fold-coefficient vectors at once: `s` and the elementwise
/// inverse products.
pub fn compute_s_vectors(challenges: &Vec<Scalar>, n: usize) -> (r: (Vec<Scalar>, Vec<Scalar>))
    requires
        is_pow2(n as nat),
        challenges@.len() == log2(n as nat),
        challenges@.len() < 64,
        forall|k: int| 0 <= k < challenges@.len() ==> (#[trigger] challenges@[k]@) != 0,
    ensures
        r.0@.len() == n && r.1@.len() == n,
        forall|i: int| 0 <= i < n ==> (#[trigger] r.0@[i]@) == s_coeff(
            views(challenges@),
            i as nat,
        ),
        forall|i: int| 0 <= i < n ==> (#[trigger] r.1@[i]@) == s_coeff_inv(
            views(challenges@),
            i as nat,
        ),
{
    let log_n = challenges.len();
    let inv_ch = inverse_the_vector(challenges);
    let mut s: Vec<Scalar> = Vec::new();
    let mut s_inv: Vec<Scalar> = Vec::new();
    let mut i: usize = 0;
    while i < n
        invariant
            i <= n,
            log_n == challenges@.len() < 64,
            inv_ch@.len() == log_n,
            forall|k: int| 0 <= k < log_n ==> (#[trigger] inv_ch@[k]@) == finv(challenges@[k]@),
            s@.len() == i && s_inv@.len() == i,
            forall|k: int| 0 <= k < i ==> (#[trigger] s@[k]@) == s_coeff(
                views(challenges@),
                k as nat,
            ),
            forall|k: int| 0 <= k < i ==> (#[trigger] s_inv@[k]@) == s_coeff_inv(
                views(challenges@),
                k as nat,
            ),
        decreases n - i,
    {
        let mut acc = scalar_one();
        let mut acc_inv = scalar_one();
        proof {
            lemma_one_mod_order();
        }
        let iv = i as u64;
        let mut j: usize = 0;
        while j < log_n
            invariant
                j <= log_n,
                log_n == challenges@.len() < 64,
                iv == i as u64,
                i <= n,
                inv_ch@.len() == log_n,
                forall|k: int| 0 <= k < log_n ==> (#[trigger] inv_ch@[k]@) == finv(
                    challenges@[k]@,
                ),
                acc@ == s_partial(views(challenges@), i as nat, j as nat),
                acc_inv@ == s_inv_partial(views(challenges@), i as nat, j as nat),
            decreases log_n - j,
        {
            let idx = log_n - 1 - j;
            let shifted: u64 = iv >> (j as u64);
            let bit: u64 = shifted & 1;
            proof {
                lemma_u64_shr_is_div(iv, j as u64);
                assert(shifted & 1 == shifted % 2) by (bit_vector);
                assert(views(challenges@)[views(challenges@).len() - 1 - j as nat]
                    == challenges@[idx as int]@);
            }
            if bit == 1 {
                acc = scalar_mul(&acc, &challenges[idx]);
                acc_inv = scalar_mul(&acc_inv, &inv_ch[idx]);
            } else {
                acc = scalar_mul(&acc, &inv_ch[idx]);
                acc_inv = scalar_mul(&acc_inv, &challenges[idx]);
            }
            j += 1;
        }
        s.push(acc);
        s_inv.push(acc_inv);
        i += 1;
    }
    (s, s_inv)
}

/// The verifier-side state after recomputing some rounds' challenges:
/// the transcript, the accumulated commitment
/// `P' = P + sum_j (L_j * x_j^2 + R_j * x_j^-2)`, and the challenges.
pub ghost struct VerifyTrace {
    pub t: Seq<u8>,
    pub p: Seq<u8>,
    pub xs: Seq<int>,
    pub ok: bool,
}

/// One verifier round: append the round's `L` and `R`, draw the round
/// challenge, fold it into the accumulated commitment.
pub open spec fn verify_round(s: VerifyTrace, lv: Seq<u8>, rv: Seq<u8>) -> VerifyTrace {
    let t1 = s.t + msg_frame(l_label(), lv) + msg_frame(r_label(), rv);
    match challenge_from(t1, x_label(), 0) {
        Some(pr) => {
            let x = pr.0;
            let xi = finv(x);
            VerifyTrace {
                t: t1 + pr.1,
                p: pt_sum(pt_sum(pt_scale(lv, fmul(x, x)), s.p), pt_scale(rv, fmul(xi, xi))),
                xs: s.xs.push(x),
                ok: s.ok,
            }
        },
        None => VerifyTrace { t: s.t, p: s.p, xs: s.xs, ok: false },
    }
}

/// The verifier's state after the first `k` rounds.
pub open spec fn verify_trace(
    ls: Seq<Seq<u8>>,
    rs: Seq<Seq<u8>>,
    t0: Seq<u8>,
    p0: Seq<u8>,
    k: nat,
) -> VerifyTrace
    decreases k,
{
    if k == 0 {
        VerifyTrace { t: t0, p: p0, xs: Seq::empty(), ok: true }
    } else {
        verify_round(verify_trace(ls, rs, t0, p0, (k - 1) as nat), ls[k - 1], rs[k - 1])
    }
}

proof fn lemma_verify_trace_stays_failed(
    ls: Seq<Seq<u8>>,
    rs: Seq<Seq<u8>>,
    t0: Seq<u8>,
    p0: Seq<u8>,
    k1: nat,
    k2: nat,
)
    requires
        k1 <= k2,
        !verify_trace(ls, rs, t0, p0, k1).ok,
    ensures
        !verify_trace(ls, rs, t0, p0, k2).ok,
    decreases k2,
{
    if k2 > k1 {
        lemma_verify_trace_stays_failed(ls, rs, t0, p0, k1, (k2 - 1) as nat);
    }
}

/// The verifier's replay reads only the first `j` of the proof's
/// `(L, R)` pairs, so two proofs that agree on those agree on the
/// replayed state.
proof fn lemma_verify_trace_prefix(
    ls1: Seq<Seq<u8>>,
    rs1: Seq<Seq<u8>>,
    ls2: Seq<Seq<u8>>,
    rs2: Seq<Seq<u8>>,
    t0: Seq<u8>,
    p0: Seq<u8>,
    j: nat,
)
    requires
        forall|i: int| 0 <= i < j ==> ls1[i] == ls2[i] && rs1[i] == rs2[i],
    ensures
        verify_trace(ls1, rs1, t0, p0, j) == verify_trace(ls2, rs2, t0, p0, j),
    decreases j,
{
    if j > 0 {
        lemma_verify_trace_prefix(ls1, rs1, ls2, rs2, t0, p0, (j - 1) as nat);
    }
}

/// The Fiat-Shamir replay law of the argument: when the prover's `k`
/// rounds all drew their challenges, the verifier's replay over the
/// prover's `(L, R)` pairs from the same starting transcript draws the
/// same challenges and ends on the byte-identical transcript, whatever
/// commitment it folds.
pub proof fn lemma_replay_transcript(
    g: Seq<Seq<u8>>,
    h: Seq<Seq<u8>>,
    u: Seq<u8>,
    a: Seq<int>,
    b: Seq<int>,
    t0: Seq<u8>,
    p0: Seq<u8>,
    k: nat,
)
    requires
        ipa_prove_trace(g, h, u, a, b, t0, k).ok,
    ensures
        ({
            let tr = ipa_prove_trace(g, h, u, a, b, t0, k);
            let vt = verify_trace(tr.ls, tr.rs, t0, p0, k);
            &&& tr.ls.len() == k && tr.rs.len() == k
            &&& vt.ok
            &&& vt.t == tr.t
        }),
    decreases k,
{
    if k > 0 {
        let trp = ipa_prove_trace(g, h, u, a, b, t0, (k - 1) as nat);
        let tr = ipa_prove_trace(g, h, u, a, b, t0, k);
        assert(trp.ok);
        lemma_replay_transcript(g, h, u, a, b, t0, p0, (k - 1) as nat);
        lemma_verify_trace_prefix(tr.ls, tr.rs, trp.ls, trp.rs, t0, p0, (k - 1) as nat);
        assert(verify_trace(tr.ls, tr.rs, t0, p0, k) == verify_round(
            verify_trace(tr.ls, tr.rs, t0, p0, (k - 1) as nat),
            tr.ls[k - 1],
            tr.rs[k - 1],
        ));
    }
}

/// The base-case acceptance equation: with the fold coefficients from
/// the challenges, `P' == g_eff*a + h_eff*b + u*(a*b)` where
/// `g_eff = sum g_i*s_i` and `h_eff = sum h_i*s_i^(-1)`.
pub open spec fn ipa_check(
    g: Seq<Seq<u8>>,
    h: Seq<Seq<u8>>,
    u: Seq<u8>,
    p_final: Seq<u8>,
    xs: Seq<int>,
    a: int,
    b: int,
) -> bool {
    let n = g.len();
    let s = Seq::new(n, |i: int| s_coeff(xs, i as nat));
    let s_inv = Seq::new(n, |i: int| s_coeff_inv(xs, i as nat));
    let g_eff = msm(g, s);
    let h_eff = msm(h, s_inv);
    p_final == pt_sum(pt_sum(pt_scale(g_eff, a), pt_scale(h_eff, b)), pt_scale(u, fmul(a, b)))
}

/// The verifier side of the inner-product argument: recompute every
/// round's challenge from the transcript (appending the proof's `L` and
/// `R` exactly as the prover did), accumulate
/// `P' = P + sum (L_j*x_j^2 + R_j*x_j^-2)`, reconstruct the fold
/// coefficients for every original index, and accept exactly when the
/// base-case equation holds. Malformed shapes and degenerate challenge
/// chains are errors; a false equation is the outcome `Ok(false)`.
pub fn ipa_verify(
    g: &Vec<GroupElement>,
    h: &Vec<GroupElement>,
    u: &GroupElement,
    p_commit: &GroupElement,
    proof: &InnerProductProof,
    transcript: &mut Transcript,
) -> (r: Result<bool, RangeProofError>)
    ensures
        ({
            let n = g@.len();
            let k = log2(n as nat);
            let vt = verify_trace(
                gviews(proof.l_points@),
                gviews(proof.r_points@),
                old(transcript)@,
                p_commit@,
                k,
            );
            &&& (g@.len() != h@.len() ==> r == Err::<bool, RangeProofError>(
                RangeProofError::LengthMismatch,
            ))
            &&& (g@.len() == h@.len() && !is_pow2(n as nat) ==> r == Err::<
                bool,
                RangeProofError,
            >(RangeProofError::InvalidSize))
            &&& (g@.len() == h@.len() && is_pow2(n as nat) && (proof.l_points@.len() != k
                || proof.r_points@.len() != k) ==> r == Err::<bool, RangeProofError>(
                RangeProofError::ProofMalformed,
            ))
            &&& (g@.len() == h@.len() && is_pow2(n as nat) && proof.l_points@.len() == k
                && proof.r_points@.len() == k ==> {
                &&& (!vt.ok ==> r == Err::<bool, RangeProofError>(
                    RangeProofError::DegenerateChallenge,
                ))
                &&& (vt.ok ==> (r matches Ok(acc) && acc == ipa_check(
                    gviews(g@),
                    gviews(h@),
                    u@,
                    vt.p,
                    vt.xs,
                    proof.a@,
                    proof.b@,
                ) && final(transcript)@ == vt.t))
            })
        }),
{
    if g.len() != h.len() {
        return Err(RangeProofError::LengthMismatch);
    }
    let n = g.len();
    if !check_pow2(n) {
        return Err(RangeProofError::InvalidSize);
    }
    let log_n = log2_floor(n);
    if proof.l_points.len() != log_n || proof.r_points.len() != log_n {
        return Err(RangeProofError::ProofMalformed);
    }
    proof {
        vstd::arithmetic::power2::lemma2_to64();
        vstd::arithmetic::power2::lemma2_to64_rest();
        lemma_log2_bound(n as nat, 64);
    }
    let ghost ls0 = gviews(proof.l_points@);
    let ghost rs0 = gviews(proof.r_points@);
    let ghost t0 = old(transcript)@;
    let ghost p0 = p_commit@;
    let mut challenges: Vec<Scalar> = Vec::new();
    let mut p_acc = p_commit.dup();
    let mut j: usize = 0;
    while j < log_n
        invariant
            j <= log_n,
            n == g@.len() == h@.len(),
            is_pow2(n as nat),
            log_n == log2(n as nat) && log_n < 64,
            proof.l_points@.len() == log_n && proof.r_points@.len() == log_n,
            ls0 == gviews(proof.l_points@) && rs0 == gviews(proof.r_points@),
            t0 == old(transcript)@ && p0 == p_commit@,
            ({
                let vt = verify_trace(ls0, rs0, t0, p0, j as nat);
                &&& vt.ok
                &&& transcript@ == vt.t
                &&& p_acc@ == vt.p
                &&& views(challenges@) == vt.xs
                &&& challenges@.len() == j
            }),
            forall|k: int| 0 <= k < challenges@.len() ==> (#[trigger] challenges@[k]@) != 0,
        decreases log_n - j,
    {
        let ghost vt = verify_trace(ls0, rs0, t0, p0, j as nat);
        let lab_l: Vec<u8> = vec![76];
        let lab_r: Vec<u8> = vec![82];
        let lab_x: Vec<u8> = vec![120];
        proof {
            assert(lab_l@ =~= l_label());
            assert(lab_r@ =~= r_label());
            assert(lab_x@ =~= x_label());
        }
        transcript.append_point(lab_l.as_slice(), &proof.l_points[j]);
        transcript.append_point(lab_r.as_slice(), &proof.r_points[j]);
        proof {
            assert(transcript@ == vt.t + msg_frame(l_label(), ls0[j as int]) + msg_frame(
                r_label(),
                rs0[j as int],
            ));
        }
        let x = match transcript.challenge_scalar(lab_x.as_slice()) {
            Ok(x) => x,
            Err(e) => {
                proof {
                    assert(!verify_trace(ls0, rs0, t0, p0, (j + 1) as nat).ok);
                    lemma_verify_trace_stays_failed(
                        ls0,
                        rs0,
                        t0,
                        p0,
                        (j + 1) as nat,
                        log2(n as nat),
                    );
                }
                return Err(e);
            },
        };
        let x_sq = scalar_mul(&x, &x);
        let x_inv = scalar_inverse(&x);
        proof {
            lemma_scalar_range(x_inv);
            lemma_inverse_unique(x@, x_inv@);
        }
        let xi_sq = scalar_mul(&x_inv, &x_inv);
        let l_term = ge_scale(&proof.l_points[j], &x_sq);
        let r_term = ge_scale(&proof.r_points[j], &xi_sq);
        p_acc = ge_add(&ge_add(&l_term, &p_acc), &r_term);
        challenges.push(x);
        proof {
            let vt1 = verify_trace(ls0, rs0, t0, p0, (j + 1) as nat);
            assert(vt1 == verify_round(vt, ls0[j as int], rs0[j as int]));
            assert(views(challenges@) =~= vt1.xs);
        }
        j += 1;
    }
    let (s, s_inv) = compute_s_vectors(&challenges, n);
    let g_eff = match commit(g, &s) {
        Ok(c) => c,
        Err(_) => vstd::pervasive::unreached(),
    };
    let h_eff = match commit(h, &s_inv) {
        Ok(c) => c,
        Err(_) => vstd::pervasive::unreached(),
    };
    let c = scalar_mul(&proof.a, &proof.b);
    let g_term = ge_scale(&g_eff, &proof.a);
    let h_term = ge_scale(&h_eff, &proof.b);
    let u_term = ge_scale(u, &c);
    let rhs = ge_add(&ge_add(&g_term, &h_term), &u_term);
    let accept = ge_eq(&p_acc, &rhs);
    proof {
        let vt = verify_trace(ls0, rs0, t0, p0, log2(n as nat));
        assert(views(s@) =~= Seq::new(g@.len(), |i: int| s_coeff(vt.xs, i as nat)));
        assert(views(s_inv@) =~= Seq::new(g@.len(), |i: int| s_coeff_inv(vt.xs, i as nat)));
    }
    Ok(accept)
}

} // verus!
