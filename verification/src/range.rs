//! The range-proof protocol: proving that a committed value lies in
//! `[0, 2^n)`. The prover commits to the bit decomposition, answers the
//! `y`, `z`, `x` challenges with the evaluated polynomial vectors, and
//! either ships them raw (linear mode) or compresses the opening with the
//! inner-product argument (logarithmic mode). The verifier reruns the
//! identical transcript and checks the commitment equations.

use vstd::prelude::*;
use crate::RangeProofError;
use crate::scalar::{Scalar, fadd, fsub, fmul, fpow, finv, scalar_add, scalar_sub, scalar_mul,
    scalar_zero, scalar_one, scalar_from_u64, scalar_eq, scalar_random, lemma_fpow_zero};
use crate::vector::{ip, views, bit_of, inner_product, encode_bits, sub_one, random_scalars};
use crate::group::{GroupElement, pt_sum, pt_scale, pt_of_hash, hash_ok, ge_add, ge_scale, ge_eq};
use crate::commitment::{gviews, msm, blinded_commitment, commit, commit_blinded};
use crate::generators::{get_h_prime, gen_input, dec_rep, dec_bytes};
use crate::poly::{delta, delta_spec, build_l_r, evaluate_at, t_coeffs};
use crate::transcript::{Transcript, msg_frame, challenge_from};
use crate::ipa::{InnerProductProof, ipa_prove, ipa_verify, ipa_check, verify_trace,
    ipa_prove_trace, is_pow2, log2, check_pow2, log2_floor};

verus! {

/// The transcript labels of the protocol's messages.
pub open spec fn n_label() -> Seq<u8> {
    seq![110u8]
}

pub open spec fn v_label() -> Seq<u8> {
    seq![86u8]
}

pub open spec fn a_label() -> Seq<u8> {
    seq![65u8]
}

pub open spec fn s_label() -> Seq<u8> {
    seq![83u8]
}

pub open spec fn t1_label() -> Seq<u8> {
    seq![84u8, 49u8]
}

pub open spec fn t2_label() -> Seq<u8> {
    seq![84u8, 50u8]
}

pub open spec fn y_label() -> Seq<u8> {
    seq![121u8]
}

pub open spec fn z_label() -> Seq<u8> {
    seq![122u8]
}

pub open spec fn x_rp_label() -> Seq<u8> {
    seq![88u8]
}

/// The transcript and the `y`, `z` challenges after the first commit
/// phase (`n`, `V`, `A`, `S` appended, `y` and `z` drawn).
pub ghost struct PhaseYz {
    pub y: int,
    pub z: int,
    pub t: Seq<u8>,
    pub ok: bool,
}

pub open spec fn phase_yz(t0: Seq<u8>, n: nat, vb: Seq<u8>, ab: Seq<u8>, sb: Seq<u8>) -> PhaseYz {
    let ta = t0 + msg_frame(n_label(), dec_rep(n)) + msg_frame(v_label(), vb) + msg_frame(
        a_label(),
        ab,
    ) + msg_frame(s_label(), sb);
    match challenge_from(ta, y_label(), 0) {
        Some(py) => {
            let tb = ta + py.1;
            match challenge_from(tb, z_label(), 0) {
                Some(pz) => PhaseYz { y: py.0, z: pz.0, t: tb + pz.1, ok: true },
                None => PhaseYz { y: 0, z: 0, t: t0, ok: false },
            }
        },
        None => PhaseYz { y: 0, z: 0, t: t0, ok: false },
    }
}

/// The transcript and the `x` challenge after the second commit phase
/// (`T1`, `T2` appended, `x` drawn).
pub ghost struct PhaseX {
    pub x: int,
    pub t: Seq<u8>,
    pub ok: bool,
}

pub open spec fn phase_x(t_yz: Seq<u8>, t1b: Seq<u8>, t2b: Seq<u8>) -> PhaseX {
    let tc = t_yz + msg_frame(t1_label(), t1b) + msg_frame(t2_label(), t2b);
    match challenge_from(tc, x_rp_label(), 0) {
        Some(px) => PhaseX { x: px.0, t: tc + px.1, ok: true },
        None => PhaseX { x: 0, t: t_yz, ok: false },
    }
}

/// Whether to ship the opening vectors raw or compressed by the
/// inner-product argument.
#[derive(Clone, Copy, Debug, PartialEq, Eq, Structural)]
pub enum ProofMode {
    Linear,
    Logarithmic,
}

/// The opening part of a range proof.
#[derive(Debug)]
pub enum Opening {
    /// The raw evaluated vectors `l(x)`, `r(x)`.
    Linear { l: Vec<Scalar>, r: Vec<Scalar> },
    /// An inner-product argument over them.
    Logarithmic { ipa: InnerProductProof },
}

/// A range proof: the commitments `A`, `S`, `T1`, `T2`, the response
/// scalars `t_hat`, `tau_x`, `mu`, and the opening.
#[derive(Debug)]
pub struct RangeProof {
    pub a_commit: GroupElement,
    pub s_commit: GroupElement,
    pub t1_commit: GroupElement,
    pub t2_commit: GroupElement,
    pub t_hat: Scalar,
    pub tau_x: Scalar,
    pub mu: Scalar,
    pub opening: Opening,
}

/// The generators of one proof-system instance: the two generator
/// vectors, the value base `g`, the blinding base `h`, and the
/// inner-product base `u`; immutable and shared read-only.
#[derive(Debug)]
pub struct ProofGens {
    pub g_vec: Vec<GroupElement>,
    pub h_vec: Vec<GroupElement>,
    pub g_base: GroupElement,
    pub h_base: GroupElement,
    pub u_base: GroupElement,
}

/// The `h'` generators: `h_i` rescaled by `y^(-i)`.
pub open spec fn hprime_views(h: Seq<Seq<u8>>, y: int) -> Seq<Seq<u8>> {
    Seq::new(h.len(), |i: int| pt_scale(h[i], fpow(finv(y), i as nat)))
}

/// The verifier-side exponents of `h'`: `z*y^i + z^2*2^i`.
pub open spec fn h_exponents(y: int, z: int, n: nat) -> Seq<int> {
    Seq::new(n, |i: int| fadd(fmul(z, fpow(y, i as nat)), fmul(fmul(z, z), fpow(2, i as nat))))
}

/// The constant vector of `-z`.
pub open spec fn neg_z_vec(z: int, n: nat) -> Seq<int> {
    Seq::new(n, |i: int| fsub(0, z))
}

/// The verifier's recombined commitment
/// `P = A + x*S - mu*h + sum (-z)*g_i + sum (z*y^i + z^2*2^i)*h'_i`,
/// which an honest opening `(l, r)` must open under `(g, h')`.
pub open spec fn p_open_spec(
    ab: Seq<u8>,
    sb: Seq<u8>,
    x: int,
    mu: int,
    h_base: Seq<u8>,
    g: Seq<Seq<u8>>,
    hp: Seq<Seq<u8>>,
    y: int,
    z: int,
    n: nat,
) -> Seq<u8> {
    pt_sum(
        pt_sum(
            pt_sum(pt_sum(ab, pt_scale(sb, x)), pt_scale(h_base, fsub(0, mu))),
            msm(g, neg_z_vec(z, n)),
        ),
        msm(hp, h_exponents(y, z, n)),
    )
}

/// The verifier's first equation:
/// `t_hat*g + tau_x*h == z^2*V + delta(y,z,n)*g + x*T1 + x^2*T2`.
pub open spec fn t_check_spec(
    t_hat: int,
    tau_x: int,
    g_base: Seq<u8>,
    h_base: Seq<u8>,
    vb: Seq<u8>,
    t1b: Seq<u8>,
    t2b: Seq<u8>,
    y: int,
    z: int,
    x: int,
    n: nat,
) -> bool {
    pt_sum(pt_scale(g_base, t_hat), pt_scale(h_base, tau_x)) == pt_sum(
        pt_sum(
            pt_sum(pt_scale(vb, fmul(z, z)), pt_scale(g_base, delta_spec(y, z, n))),
            pt_scale(t1b, x),
        ),
        pt_scale(t2b, fmul(x, x)),
    )
}

/// The linear-mode opening check: the raw vectors must open `P` and
/// their inner product must be `t_hat`.
pub open spec fn linear_open_spec(
    l: Seq<int>,
    r: Seq<int>,
    p: Seq<u8>,
    g: Seq<Seq<u8>>,
    hp: Seq<Seq<u8>>,
    t_hat: int,
) -> bool {
    &&& pt_sum(msm(g, l), msm(hp, r)) == p
    &&& t_hat == ip(l, r)
}

/// Whether an opening has the shape required for bit width `n`.
pub open spec fn opening_shape_ok(o: Opening, n: nat) -> bool {
    match o {
        Opening::Linear { l, r } => l@.len() == n && r@.len() == n,
        Opening::Logarithmic { ipa } => ipa.l_points@.len() == log2(n) && ipa.r_points@.len()
            == log2(n),
    }
}

/// The verifier's verdict, as a pure function of the proof, the value
/// commitment, the bit width, the generators and the starting
/// transcript: either an error (bad shape, or a degenerate challenge
/// chain) or the boolean outcome of the two checks.
pub open spec fn verify_spec(
    proof: RangeProof,
    gens: ProofGens,
    vb: Seq<u8>,
    n: nat,
    t0: Seq<u8>,
) -> Result<bool, RangeProofError> {
    if !is_pow2(n) {
        Err(RangeProofError::InvalidSize)
    } else if gens.g_vec@.len() != n || gens.h_vec@.len() != n {
        Err(RangeProofError::LengthMismatch)
    } else if !opening_shape_ok(proof.opening, n) {
        Err(RangeProofError::ProofMalformed)
    } else {
        let ph1 = phase_yz(t0, n, vb, proof.a_commit@, proof.s_commit@);
        if !ph1.ok {
            Err(RangeProofError::DegenerateChallenge)
        } else {
            let ph2 = phase_x(ph1.t, proof.t1_commit@, proof.t2_commit@);
            if !ph2.ok {
                Err(RangeProofError::DegenerateChallenge)
            } else {
                let check1 = t_check_spec(
                    proof.t_hat@,
                    proof.tau_x@,
                    gens.g_base@,
                    gens.h_base@,
                    vb,
                    proof.t1_commit@,
                    proof.t2_commit@,
                    ph1.y,
                    ph1.z,
                    ph2.x,
                    n,
                );
                let hp = hprime_views(gviews(gens.h_vec@), ph1.y);
                let p = p_open_spec(
                    proof.a_commit@,
                    proof.s_commit@,
                    ph2.x,
                    proof.mu@,
                    gens.h_base@,
                    gviews(gens.g_vec@),
                    hp,
                    ph1.y,
                    ph1.z,
                    n,
                );
                match proof.opening {
                    Opening::Linear { l, r } => Ok(
                        check1 && linear_open_spec(
                            views(l@),
                            views(r@),
                            p,
                            gviews(gens.g_vec@),
                            hp,
                            proof.t_hat@,
                        ),
                    ),
                    Opening::Logarithmic { ipa } => {
                        let p_ipa = pt_sum(p, pt_scale(gens.u_base@, proof.t_hat@));
                        let vt = verify_trace(
                            gviews(ipa.l_points@),
                            gviews(ipa.r_points@),
                            ph2.t,
                            p_ipa,
                            log2(n),
                        );
                        if !vt.ok {
                            Err(RangeProofError::DegenerateChallenge)
                        } else {
                            Ok(
                                check1 && ipa_check(
                                    gviews(gens.g_vec@),
                                    hp,
                                    gens.u_base@,
                                    vt.p,
                                    vt.xs,
                                    ipa.a@,
                                    ipa.b@,
                                ),
                            )
                        }
                    },
                }
            }
        }
    }
}

/// The `n`-bit decomposition of `v` as field elements.
pub open spec fn bits_of(v: u64, n: nat) -> Seq<int> {
    Seq::new(n, |i: int| bit_of(v, i as nat))
}

/// The constant coefficients of `l(X)`: `aL - z*1`.
pub open spec fn l0_coeffs(v: u64, z: int, n: nat) -> Seq<int> {
    Seq::new(n, |i: int| fsub(bit_of(v, i as nat), z))
}

/// The constant coefficients of `r(X)`: `y^n o (aR + z*1) + z^2 * 2^n`.
pub open spec fn r0_coeffs(v: u64, y: int, z: int, n: nat) -> Seq<int> {
    Seq::new(
        n,
        |i: int|
            fadd(
                fmul(fpow(y, i as nat), fadd(fsub(bit_of(v, i as nat), 1), z)),
                fmul(fmul(z, z), fpow(2, i as nat)),
            ),
    )
}

/// The linear coefficients of `r(X)`: `y^n o sR`.
pub open spec fn r1_coeffs(sr: Seq<int>, y: int, n: nat) -> Seq<int> {
    Seq::new(n, |i: int| fmul(sr[i], fpow(y, i as nat)))
}

/// The vector `l(x) = l0 + sL * x` the prover opens.
pub open spec fn l_at(v: u64, sl: Seq<int>, z: int, x: int, n: nat) -> Seq<int> {
    Seq::new(n, |i: int| fadd(fsub(bit_of(v, i as nat), z), fmul(sl[i], x)))
}

/// The vector `r(x) = r0 + r1 * x` the prover opens.
pub open spec fn r_at(v: u64, sr: Seq<int>, y: int, z: int, x: int, n: nat) -> Seq<int> {
    Seq::new(
        n,
        |i: int| fadd(r0_coeffs(v, y, z, n)[i], fmul(r1_coeffs(sr, y, n)[i], x)),
    )
}

/// The shape of an honestly produced proof, with the prover's random
/// draws `sl`, `sr`, `alpha`, `rho`, `tau1`, `tau2` as witnesses: the
/// challenges `y`, `z`, `x` are the transcript's, `A` and `S` commit to
/// the bit decomposition of `v` and to the blinding vectors, `T1` and
/// `T2` commit to the `t(X)` coefficients under `tau1` and `tau2`,
/// `t_hat`, `tau_x` and `mu` are the protocol's responses at `x`, and
/// the opening and the final transcript `tfin` follow the mode: the raw
/// vectors `l(x)`, `r(x)`, or the inner-product argument's trace over
/// them.
pub open spec fn honest_proof(
    p: RangeProof,
    gens: ProofGens,
    v: u64,
    blinding: int,
    n: nat,
    t0: Seq<u8>,
    vb: Seq<u8>,
    tfin: Seq<u8>,
    sl: Seq<int>,
    sr: Seq<int>,
    alpha: int,
    rho: int,
    tau1: int,
    tau2: int,
) -> bool {
    let gv = gviews(gens.g_vec@);
    let hv = gviews(gens.h_vec@);
    let bits = bits_of(v, n);
    let bits_m1 = Seq::new(n, |i: int| fsub(bit_of(v, i as nat), 1));
    let ph1 = phase_yz(t0, n, vb, p.a_commit@, p.s_commit@);
    let ph2 = phase_x(ph1.t, p.t1_commit@, p.t2_commit@);
    let y = ph1.y;
    let z = ph1.z;
    let x = ph2.x;
    let l0 = l0_coeffs(v, z, n);
    let r0 = r0_coeffs(v, y, z, n);
    let r1 = r1_coeffs(sr, y, n);
    let lx = l_at(v, sl, z, x, n);
    let rx = r_at(v, sr, y, z, x, n);
    let t1c = fadd(ip(l0, r1), ip(sl, r0));
    let t2c = ip(sl, r1);
    &&& sl.len() == n && sr.len() == n
    &&& ph1.ok && ph2.ok
    &&& vb == pt_sum(pt_scale(gens.g_base@, v as int), pt_scale(gens.h_base@, blinding))
    &&& p.a_commit@ == blinded_commitment(gens.h_base@, alpha, gv, bits, hv, bits_m1)
    &&& p.s_commit@ == blinded_commitment(gens.h_base@, rho, gv, sl, hv, sr)
    &&& p.t1_commit@ == pt_sum(pt_scale(gens.g_base@, t1c), pt_scale(gens.h_base@, tau1))
    &&& p.t2_commit@ == pt_sum(pt_scale(gens.g_base@, t2c), pt_scale(gens.h_base@, tau2))
    &&& p.t_hat@ == ip(lx, rx)
    &&& p.tau_x@ == fadd(fadd(fmul(tau2, fmul(x, x)), fmul(tau1, x)), fmul(fmul(z, z), blinding))
    &&& p.mu@ == fadd(alpha, fmul(rho, x))
    &&& match p.opening {
        Opening::Linear { l, r } => views(l@) == lx && views(r@) == rx && tfin == ph2.t,
        Opening::Logarithmic { ipa } => {
            let tr = ipa_prove_trace(
                gv,
                hprime_views(hv, y),
                gens.u_base@,
                lx,
                rx,
                ph2.t,
                log2(n),
            );
            &&& tr.ok
            &&& gviews(ipa.l_points@) == tr.ls
            &&& gviews(ipa.r_points@) == tr.rs
            &&& tr.a.len() == 1 && tr.b.len() == 1
            &&& ipa.a@ == tr.a[0] && ipa.b@ == tr.b[0]
            &&& tfin == tr.t
        },
    }
}

/// Whether a proof is honestly produced: some random draws `sl`, `sr`,
/// `alpha`, `rho`, `tau1`, `tau2` of the prover account for every
/// component of it.
pub open spec fn is_honest_proof(
    p: RangeProof,
    gens: ProofGens,
    v: u64,
    blinding: int,
    n: nat,
    t0: Seq<u8>,
    vb: Seq<u8>,
    tfin: Seq<u8>,
) -> bool {
    exists|sl: Seq<int>, sr: Seq<int>, alpha: int, rho: int, tau1: int, tau2: int|
        #[trigger] honest_proof(p, gens, v, blinding, n, t0, vb, tfin, sl, sr, alpha, rho, tau1, tau2)
}

/// A vector of `n` copies of one scalar.
fn const_vector(c: &Scalar, n: usize) -> (r: Vec<Scalar>)
    ensures
        r@.len() == n,
        forall|i: int| 0 <= i < n ==> (#[trigger] r@[i]@) == c@,
{
    let mut r: Vec<Scalar> = Vec::new();
    let mut i: usize = 0;
    while i < n
        invariant
            i <= n,
            r@.len() == i,
            forall|j: int| 0 <= j < i ==> (#[trigger] r@[j]@) == c@,
        decreases n - i,
    {
        r.push(*c);
        i += 1;
    }
    r
}

/// The verifier-side exponents of `h'`: `z*y^i + z^2*2^i` for each `i`.
fn h_exp_vector(y: &Scalar, z: &Scalar, n: usize) -> (r: Vec<Scalar>)
    ensures
        views(r@) == h_exponents(y@, z@, n as nat),
{
    let z_sq = scalar_mul(z, z);
    let two = scalar_from_u64(2);
    let mut r: Vec<Scalar> = Vec::new();
    let mut y_pow = scalar_one();
    let mut two_pow = scalar_one();
    proof {
        lemma_fpow_zero(y@);
        lemma_fpow_zero(2);
    }
    let mut i: usize = 0;
    while i < n
        invariant
            i <= n,
            r@.len() == i,
            z_sq@ == fmul(z@, z@),
            two@ == 2,
            y_pow@ == fpow(y@, i as nat),
            two_pow@ == fpow(2, i as nat),
            forall|j: int| 0 <= j < i ==> (#[trigger] r@[j]@) == fadd(
                fmul(z@, fpow(y@, j as nat)),
                fmul(fmul(z@, z@), fpow(2, j as nat)),
            ),
        decreases n - i,
    {
        let a = scalar_mul(z, &y_pow);
        let b = scalar_mul(&z_sq, &two_pow);
        r.push(scalar_add(&a, &b));
        y_pow = scalar_mul(y, &y_pow);
        two_pow = scalar_mul(&two, &two_pow);
        i += 1;
    }
    proof {
        assert(views(r@) =~= h_exponents(y@, z@, n as nat));
    }
    r
}

/// Derives the generators of a proof-system instance from a label: the
/// two length-`n` vectors under the label suffixed with `g` and `h`,
/// and the three bases under the suffix `b`. Deterministic in the
/// label; it succeeds exactly when hash-to-curve succeeds on every
/// derived input, so `None` marks a fatal configuration error.
pub fn setup_gens(label: &[u8], n: usize) -> (r: Option<ProofGens>)
    ensures
        r is Some <==> ({
            &&& (forall|i: int|
                0 <= i < n ==> #[trigger] hash_ok(gen_input(label@ + seq![103u8], i as nat)))
            &&& (forall|i: int|
                0 <= i < n ==> #[trigger] hash_ok(gen_input(label@ + seq![104u8], i as nat)))
            &&& (forall|i: int|
                0 <= i < 3 ==> #[trigger] hash_ok(gen_input(label@ + seq![98u8], i as nat)))
        }),
        r matches Some(gens) ==> {
            &&& gens.g_vec@.len() == n && gens.h_vec@.len() == n
            &&& (forall|i: int| 0 <= i < n ==> (#[trigger] gens.g_vec@[i]@) == pt_of_hash(
                gen_input(label@ + seq![103u8], i as nat),
            ))
            &&& (forall|i: int| 0 <= i < n ==> (#[trigger] gens.h_vec@[i]@) == pt_of_hash(
                gen_input(label@ + seq![104u8], i as nat),
            ))
            &&& gens.g_base@ == pt_of_hash(gen_input(label@ + seq![98u8], 0))
            &&& gens.h_base@ == pt_of_hash(gen_input(label@ + seq![98u8], 1))
            &&& gens.u_base@ == pt_of_hash(gen_input(label@ + seq![98u8], 2))
        },
{
    let mut label_g: Vec<u8> = Vec::new();
    label_g.extend_from_slice(label);
    label_g.push(103);
    let mut label_h: Vec<u8> = Vec::new();
    label_h.extend_from_slice(label);
    label_h.push(104);
    let mut label_b: Vec<u8> = Vec::new();
    label_b.extend_from_slice(label);
    label_b.push(98);
    proof {
        assert(label_g@ =~= label@ + seq![103u8]);
        assert(label_h@ =~= label@ + seq![104u8]);
        assert(label_b@ =~= label@ + seq![98u8]);
    }
    let g_vec = match crate::generators::derive(label_g.as_slice(), n) {
        Some(v) => v,
        None => {
            return None;
        },
    };
    let h_vec = match crate::generators::derive(label_h.as_slice(), n) {
        Some(v) => v,
        None => {
            return None;
        },
    };
    let bases = match crate::generators::derive(label_b.as_slice(), 3) {
        Some(v) => v,
        None => {
            return None;
        },
    };
    let g_base = bases[0].dup();
    let h_base = bases[1].dup();
    let u_base = bases[2].dup();
    Some(ProofGens { g_vec, h_vec, g_base, h_base, u_base })
}

/// Verifies a range proof against the value commitment `V`: reruns the
/// transcript in the prover's exact order, recomputes `y`, `z`, `x`,
/// checks the `t` equation against `delta(y, z, n)`, and checks the
/// opening either directly or through the inner-product argument. The
/// verdict equals `verify_spec`; a well-formed proof that fails the
/// equations is the outcome `Ok(false)`, never an error.
pub fn verify(
    proof: &RangeProof,
    v_commit: &GroupElement,
    n: usize,
    gens: &ProofGens,
    transcript: &mut Transcript,
) -> (r: Result<bool, RangeProofError>)
    ensures
        r == verify_spec(*proof, *gens, v_commit@, n as nat, old(transcript)@),
        r is Ok ==> ({
            let ph1 = phase_yz(
                old(transcript)@,
                n as nat,
                v_commit@,
                proof.a_commit@,
                proof.s_commit@,
            );
            let ph2 = phase_x(ph1.t, proof.t1_commit@, proof.t2_commit@);
            match proof.opening {
                Opening::Linear { .. } => final(transcript)@ == ph2.t,
                Opening::Logarithmic { ipa } => final(transcript)@ == verify_trace(
                    gviews(ipa.l_points@),
                    gviews(ipa.r_points@),
                    ph2.t,
                    pt_sum(
                        p_open_spec(
                            proof.a_commit@,
                            proof.s_commit@,
                            ph2.x,
                            proof.mu@,
                            gens.h_base@,
                            gviews(gens.g_vec@),
                            hprime_views(gviews(gens.h_vec@), ph1.y),
                            ph1.y,
                            ph1.z,
                            n as nat,
                        ),
                        pt_scale(gens.u_base@, proof.t_hat@),
                    ),
                    log2(n as nat),
                ).t,
            }
        }),
{
    if !check_pow2(n) {
        return Err(RangeProofError::InvalidSize);
    }
    if gens.g_vec.len() != n || gens.h_vec.len() != n {
        return Err(RangeProofError::LengthMismatch);
    }
    let log_n = log2_floor(n);
    let shape_ok = match &proof.opening {
        Opening::Linear { l, r } => l.len() == n && r.len() == n,
        Opening::Logarithmic { ipa } => ipa.l_points.len() == log_n && ipa.r_points.len()
            == log_n,
    };
    if !shape_ok {
        return Err(RangeProofError::ProofMalformed);
    }
    let ghost t0 = old(transcript)@;
    let lab_n: Vec<u8> = vec![110];
    let lab_v: Vec<u8> = vec![86];
    let lab_a: Vec<u8> = vec![65];
    let lab_s: Vec<u8> = vec![83];
    let lab_t1: Vec<u8> = vec![84, 49];
    let lab_t2: Vec<u8> = vec![84, 50];
    let lab_y: Vec<u8> = vec![121];
    let lab_z: Vec<u8> = vec![122];
    let lab_x: Vec<u8> = vec![88];
    proof {
        assert(lab_n@ =~= n_label());
        assert(lab_v@ =~= v_label());
        assert(lab_a@ =~= a_label());
        assert(lab_s@ =~= s_label());
        assert(lab_t1@ =~= t1_label());
        assert(lab_t2@ =~= t2_label());
        assert(lab_y@ =~= y_label());
        assert(lab_z@ =~= z_label());
        assert(lab_x@ =~= x_rp_label());
    }
    let n_digits = dec_bytes(n as u64);
    transcript.append_message(lab_n.as_slice(), n_digits.as_slice());
    transcript.append_point(lab_v.as_slice(), v_commit);
    transcript.append_point(lab_a.as_slice(), &proof.a_commit);
    transcript.append_point(lab_s.as_slice(), &proof.s_commit);
    let y = match transcript.challenge_scalar(lab_y.as_slice()) {
        Ok(y) => y,
        Err(e) => {
            return Err(e);
        },
    };
    let z = match transcript.challenge_scalar(lab_z.as_slice()) {
        Ok(z) => z,
        Err(e) => {
            return Err(e);
        },
    };
    let ghost ph1 = phase_yz(t0, n as nat, v_commit@, proof.a_commit@, proof.s_commit@);
    proof {
        assert(ph1.ok && ph1.y == y@ && ph1.z == z@ && ph1.t == transcript@);
    }
    transcript.append_point(lab_t1.as_slice(), &proof.t1_commit);
    transcript.append_point(lab_t2.as_slice(), &proof.t2_commit);
    let x = match transcript.challenge_scalar(lab_x.as_slice()) {
        Ok(x) => x,
        Err(e) => {
            return Err(e);
        },
    };
    let ghost ph2 = phase_x(ph1.t, proof.t1_commit@, proof.t2_commit@);
    proof {
        assert(ph2.ok && ph2.x == x@ && ph2.t == transcript@);
    }
    let g_that = ge_scale(&gens.g_base, &proof.t_hat);
    let h_taux = ge_scale(&gens.h_base, &proof.tau_x);
    let lhs = ge_add(&g_that, &h_taux);
    let dl = delta(&y, &z, n);
    let z_sq = scalar_mul(&z, &z);
    let x_sq = scalar_mul(&x, &x);
    let v_term = ge_scale(v_commit, &z_sq);
    let d_term = ge_scale(&gens.g_base, &dl);
    let t1_term = ge_scale(&proof.t1_commit, &x);
    let t2_term = ge_scale(&proof.t2_commit, &x_sq);
    let rhs = ge_add(&ge_add(&ge_add(&v_term, &d_term), &t1_term), &t2_term);
    let check1 = ge_eq(&lhs, &rhs);
    let hp = match get_h_prime(&gens.h_vec, &y) {
        Ok(v) => v,
        Err(_) => vstd::pervasive::unreached(),
    };
    proof {
        assert(gviews(hp@) =~= hprime_views(gviews(gens.h_vec@), y@));
    }
    let zero = scalar_zero();
    let neg_z = scalar_sub(&zero, &z);
    let neg_mu = scalar_sub(&zero, &proof.mu);
    let negz_vec = const_vector(&neg_z, n);
    let h_exps = h_exp_vector(&y, &z, n);
    proof {
        assert(views(negz_vec@) =~= neg_z_vec(z@, n as nat));
        assert(views(h_exps@).len() == h_exps@.len());
        assert(h_exps@.len() == n);
    }
    let g_term = match commit(&gens.g_vec, &negz_vec) {
        Ok(c) => c,
        Err(_) => vstd::pervasive::unreached(),
    };
    let hp_term = match commit(&hp, &h_exps) {
        Ok(c) => c,
        Err(_) => vstd::pervasive::unreached(),
    };
    let s_x = ge_scale(&proof.s_commit, &x);
    let p1 = ge_add(&proof.a_commit, &s_x);
    let h_mu = ge_scale(&gens.h_base, &neg_mu);
    let p2 = ge_add(&p1, &h_mu);
    let p3 = ge_add(&p2, &g_term);
    let p_open = ge_add(&p3, &hp_term);
    proof {
        assert(p_open@ == p_open_spec(
            proof.a_commit@,
            proof.s_commit@,
            x@,
            proof.mu@,
            gens.h_base@,
            gviews(gens.g_vec@),
            hprime_views(gviews(gens.h_vec@), y@),
            y@,
            z@,
            n as nat,
        ));
    }
    match &proof.opening {
        Opening::Linear { l, r } => {
            let open_g = match commit(&gens.g_vec, l) {
                Ok(c) => c,
                Err(_) => vstd::pervasive::unreached(),
            };
            let open_h = match commit(&hp, r) {
                Ok(c) => c,
                Err(_) => vstd::pervasive::unreached(),
            };
            let open_sum = ge_add(&open_g, &open_h);
            let open_ok = ge_eq(&open_sum, &p_open);
            let ipr = inner_product(l, r);
            let t_ok = scalar_eq(&proof.t_hat, &ipr);
            Ok(check1 && open_ok && t_ok)
        },
        Opening::Logarithmic { ipa } => {
            let u_t = ge_scale(&gens.u_base, &proof.t_hat);
            let p_ipa = ge_add(&p_open, &u_t);
            match ipa_verify(&gens.g_vec, &hp, &gens.u_base, &p_ipa, ipa, transcript) {
                Ok(b) => Ok(check1 && b),
                Err(e) => Err(e),
            }
        },
    }
}

/// Proves that the committed value `v` lies in `[0, 2^n)`: encodes the
/// bits, commits `A` and `S` with fresh blinding, answers the `y`, `z`,
/// `x` challenges, and ships the evaluated vectors raw or compressed by
/// the inner-product argument. Returns the proof together with the
/// value commitment `V = v*g + blinding*h`. Fails with `InvalidSize`
/// when `n` is not a power of two in `[1, 64]`, `LengthMismatch` when
/// the generators do not fit `n`, and otherwise only with
/// `DegenerateChallenge`, when a challenge cannot be drawn from the
/// transcript. A returned proof is honest: its commitments, responses,
/// opening and final transcript are the protocol's values over some
/// random draws (`is_honest_proof`), and the transcript only grows.
pub fn prove(
    v: u64,
    blinding: &Scalar,
    n: usize,
    gens: &ProofGens,
    mode: ProofMode,
    transcript: &mut Transcript,
) -> (r: Result<(RangeProof, GroupElement), RangeProofError>)
    ensures
        r.is_ok() ==> is_pow2(n as nat) && n <= 64 && gens.g_vec@.len() == n
            && gens.h_vec@.len() == n,
        !(is_pow2(n as nat) && n <= 64) ==> (r matches Err(e) && e
            == RangeProofError::InvalidSize),
        is_pow2(n as nat) && n <= 64 && (gens.g_vec@.len() != n || gens.h_vec@.len() != n) ==> (
        r matches Err(e) && e == RangeProofError::LengthMismatch),
        r matches Err(e) ==> (e == RangeProofError::InvalidSize || e
            == RangeProofError::LengthMismatch || e == RangeProofError::DegenerateChallenge),
        is_pow2(n as nat) && n <= 64 && gens.g_vec@.len() == n && gens.h_vec@.len() == n ==> (
        r matches Err(e) ==> e == RangeProofError::DegenerateChallenge),
        old(transcript)@.is_prefix_of(final(transcript)@),
        r matches Ok(p) ==> is_honest_proof(
            p.0,
            *gens,
            v,
            blinding@,
            n as nat,
            old(transcript)@,
            p.1@,
            final(transcript)@,
        ),
        r matches Ok(p) ==> {
            &&& p.1@ == pt_sum(
                pt_scale(gens.g_base@, v as int),
                pt_scale(gens.h_base@, blinding@),
            )
            &&& opening_shape_ok(p.0.opening, n as nat)
            &&& (p.0.opening matches Opening::Linear { l, r } ==> p.0.t_hat@ == ip(
                views(l@),
                views(r@),
            ))
            &&& ((mode == ProofMode::Linear) <==> p.0.opening is Linear)
            &&& (p.0.opening is Linear ==> final(transcript)@ == phase_x(
                phase_yz(old(transcript)@, n as nat, p.1@, p.0.a_commit@, p.0.s_commit@).t,
                p.0.t1_commit@,
                p.0.t2_commit@,
            ).t)
            &&& (p.0.opening matches Opening::Logarithmic { ipa } ==> ({
                let ph1 = phase_yz(
                    old(transcript)@,
                    n as nat,
                    p.1@,
                    p.0.a_commit@,
                    p.0.s_commit@,
                );
                let ph2 = phase_x(ph1.t, p.0.t1_commit@, p.0.t2_commit@);
                final(transcript)@ == verify_trace(
                    gviews(ipa.l_points@),
                    gviews(ipa.r_points@),
                    ph2.t,
                    pt_sum(
                        p_open_spec(
                            p.0.a_commit@,
                            p.0.s_commit@,
                            ph2.x,
                            p.0.mu@,
                            gens.h_base@,
                            gviews(gens.g_vec@),
                            hprime_views(gviews(gens.h_vec@), ph1.y),
                            ph1.y,
                            ph1.z,
                            n as nat,
                        ),
                        pt_scale(gens.u_base@, p.0.t_hat@),
                    ),
                    log2(n as nat),
                ).t
            }))
        },
{
    let ghost t0 = old(transcript)@;
    proof {
        assert(t0 =~= t0.subrange(0, t0.len() as int));
    }
    if !check_pow2(n) || n > 64 {
        return Err(RangeProofError::InvalidSize);
    }
    if gens.g_vec.len() != n || gens.h_vec.len() != n {
        return Err(RangeProofError::LengthMismatch);
    }
    let a_l = encode_bits(v, n);
    let a_r = sub_one(&a_l);
    let s_l = random_scalars(n);
    let s_r = random_scalars(n);
    let alpha = scalar_random();
    let rho = scalar_random();
    let a_commit = match commit_blinded(&gens.h_base, &alpha, &gens.g_vec, &a_l, &gens.h_vec, &a_r) {
        Ok(c) => c,
        Err(_) => vstd::pervasive::unreached(),
    };
    let s_commit = match commit_blinded(&gens.h_base, &rho, &gens.g_vec, &s_l, &gens.h_vec, &s_r) {
        Ok(c) => c,
        Err(_) => vstd::pervasive::unreached(),
    };
    let v_scalar = scalar_from_u64(v);
    let v_g = ge_scale(&gens.g_base, &v_scalar);
    let v_h = ge_scale(&gens.h_base, blinding);
    let v_commit = ge_add(&v_g, &v_h);
    let lab_n: Vec<u8> = vec![110];
    let lab_v: Vec<u8> = vec![86];
    let lab_a: Vec<u8> = vec![65];
    let lab_s: Vec<u8> = vec![83];
    let lab_t1: Vec<u8> = vec![84, 49];
    let lab_t2: Vec<u8> = vec![84, 50];
    let lab_y: Vec<u8> = vec![121];
    let lab_z: Vec<u8> = vec![122];
    let lab_x: Vec<u8> = vec![88];
    proof {
        assert(lab_n@ =~= n_label());
        assert(lab_v@ =~= v_label());
        assert(lab_a@ =~= a_label());
        assert(lab_s@ =~= s_label());
        assert(lab_t1@ =~= t1_label());
        assert(lab_t2@ =~= t2_label());
        assert(lab_y@ =~= y_label());
        assert(lab_z@ =~= z_label());
        assert(lab_x@ =~= x_rp_label());
    }
    let n_digits = dec_bytes(n as u64);
    transcript.append_message(lab_n.as_slice(), n_digits.as_slice());
    transcript.append_point(lab_v.as_slice(), &v_commit);
    transcript.append_point(lab_a.as_slice(), &a_commit);
    transcript.append_point(lab_s.as_slice(), &s_commit);
    let y = match transcript.challenge_scalar(lab_y.as_slice()) {
        Ok(y) => y,
        Err(e) => {
            proof {
                assert(t0.is_prefix_of(transcript@)) by {
                    assert(t0 =~= transcript@.subrange(0, t0.len() as int));
                };
            }
            return Err(e);
        },
    };
    let z = match transcript.challenge_scalar(lab_z.as_slice()) {
        Ok(z) => z,
        Err(e) => {
            proof {
                assert(t0.is_prefix_of(transcript@)) by {
                    assert(t0 =~= transcript@.subrange(0, t0.len() as int));
                };
            }
            return Err(e);
        },
    };
    proof {
        let ph1 = phase_yz(old(transcript)@, n as nat, v_commit@, a_commit@, s_commit@);
        assert(ph1.ok && ph1.y == y@ && ph1.z == z@ && ph1.t == transcript@);
    }
    let (l0, l1, r0, r1) = build_l_r(&a_l, &s_l, &a_r, &s_r, &y, &z);
    let (t0_c, t1_c, t2_c) = t_coeffs(&l0, &l1, &r0, &r1);
    let tau1 = scalar_random();
    let tau2 = scalar_random();
    let t1_g = ge_scale(&gens.g_base, &t1_c);
    let t1_h = ge_scale(&gens.h_base, &tau1);
    let t1_commit = ge_add(&t1_g, &t1_h);
    let t2_g = ge_scale(&gens.g_base, &t2_c);
    let t2_h = ge_scale(&gens.h_base, &tau2);
    let t2_commit = ge_add(&t2_g, &t2_h);
    transcript.append_point(lab_t1.as_slice(), &t1_commit);
    transcript.append_point(lab_t2.as_slice(), &t2_commit);
    let x = match transcript.challenge_scalar(lab_x.as_slice()) {
        Ok(x) => x,
        Err(e) => {
            proof {
                assert(t0.is_prefix_of(transcript@)) by {
                    assert(t0 =~= transcript@.subrange(0, t0.len() as int));
                };
            }
            return Err(e);
        },
    };
    proof {
        let ph1 = phase_yz(old(transcript)@, n as nat, v_commit@, a_commit@, s_commit@);
        let ph2 = phase_x(ph1.t, t1_commit@, t2_commit@);
        assert(ph2.ok && ph2.x == x@ && ph2.t == transcript@);
    }
    let l_vec = evaluate_at(&l0, &l1, &x);
    let r_vec = evaluate_at(&r0, &r1, &x);
    let t_hat = inner_product(&l_vec, &r_vec);
    let x_sq = scalar_mul(&x, &x);
    let tau2_x2 = scalar_mul(&tau2, &x_sq);
    let tau1_x = scalar_mul(&tau1, &x);
    let z_sq = scalar_mul(&z, &z);
    let z2_blind = scalar_mul(&z_sq, blinding);
    let tau_x = scalar_add(&scalar_add(&tau2_x2, &tau1_x), &z2_blind);
    let rho_x = scalar_mul(&rho, &x);
    let mu = scalar_add(&alpha, &rho_x);
    let ghost nn = n as nat;
    let ghost slv = views(s_l@);
    let ghost srv = views(s_r@);
    proof {
        assert(views(a_l@) =~= bits_of(v, nn));
        assert(views(a_r@) =~= Seq::new(nn, |i: int| fsub(bit_of(v, i as nat), 1)));
        assert(views(l0@) =~= l0_coeffs(v, z@, nn));
        assert(views(l1@) =~= slv);
        assert(views(r0@) =~= r0_coeffs(v, y@, z@, nn));
        assert(views(r1@) =~= r1_coeffs(srv, y@, nn));
        assert(views(l_vec@) =~= l_at(v, slv, z@, x@, nn));
        assert(views(r_vec@) =~= r_at(v, srv, y@, z@, x@, nn));
    }
    match mode {
        ProofMode::Linear => {
            let proof = RangeProof {
                a_commit,
                s_commit,
                t1_commit,
                t2_commit,
                t_hat,
                tau_x,
                mu,
                opening: Opening::Linear { l: l_vec, r: r_vec },
            };
            proof {
                assert(t0.is_prefix_of(transcript@)) by {
                    assert(t0 =~= transcript@.subrange(0, t0.len() as int));
                };
                assert(honest_proof(
                    proof,
                    *gens,
                    v,
                    blinding@,
                    nn,
                    t0,
                    v_commit@,
                    transcript@,
                    slv,
                    srv,
                    alpha@,
                    rho@,
                    tau1@,
                    tau2@,
                ));
                assert(is_honest_proof(proof, *gens, v, blinding@, nn, t0, v_commit@, transcript@));
            }
            Ok((proof, v_commit))
        },
        ProofMode::Logarithmic => {
            let hp = match get_h_prime(&gens.h_vec, &y) {
                Ok(hv) => hv,
                Err(_) => vstd::pervasive::unreached(),
            };
            proof {
                assert(gviews(hp@) =~= hprime_views(gviews(gens.h_vec@), y@));
            }
            let ghost t_ipa = transcript@;
            proof {
                assert(t0.is_prefix_of(t_ipa)) by {
                    assert(t0 =~= t_ipa.subrange(0, t0.len() as int));
                };
            }
            let ipa = match ipa_prove(&gens.g_vec, &hp, &gens.u_base, &l_vec, &r_vec, transcript) {
                Ok(pf) => pf,
                Err(e) => {
                    proof {
                        crate::transcript::lemma_prefix_trans(t0, t_ipa, transcript@);
                    }
                    return Err(e);
                },
            };
            let proof = RangeProof {
                a_commit,
                s_commit,
                t1_commit,
                t2_commit,
                t_hat,
                tau_x,
                mu,
                opening: Opening::Logarithmic { ipa },
            };
            proof {
                crate::transcript::lemma_prefix_trans(t0, t_ipa, transcript@);
                assert(honest_proof(
                    proof,
                    *gens,
                    v,
                    blinding@,
                    nn,
                    t0,
                    v_commit@,
                    transcript@,
                    slv,
                    srv,
                    alpha@,
                    rho@,
                    tau1@,
                    tau2@,
                ));
                assert(is_honest_proof(proof, *gens, v, blinding@, nn, t0, v_commit@, transcript@));
                let ph1 = phase_yz(t0, nn, v_commit@, proof.a_commit@, proof.s_commit@);
                let ph2 = phase_x(ph1.t, proof.t1_commit@, proof.t2_commit@);
                let p0 = pt_sum(
                    p_open_spec(
                        proof.a_commit@,
                        proof.s_commit@,
                        ph2.x,
                        proof.mu@,
                        gens.h_base@,
                        gviews(gens.g_vec@),
                        hprime_views(gviews(gens.h_vec@), ph1.y),
                        ph1.y,
                        ph1.z,
                        nn,
                    ),
                    pt_scale(gens.u_base@, proof.t_hat@),
                );
                crate::ipa::lemma_replay_transcript(
                    gviews(gens.g_vec@),
                    gviews(hp@),
                    gens.u_base@,
                    views(l_vec@),
                    views(r_vec@),
                    t_ipa,
                    p0,
                    log2(nn),
                );
            }
            Ok((proof, v_commit))
        },
    }
}

} // verus!
