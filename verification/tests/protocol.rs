use bulletproofs_bls12::scalar::{Scalar, scalar_add, scalar_mul, scalar_inverse, scalar_eq,
    scalar_from_u64, scalar_one, scalar_random};
use bulletproofs_bls12::vector::{inner_product, random_scalars};
use bulletproofs_bls12::group::{GroupElement, ge_add, ge_scale, ge_eq};
use bulletproofs_bls12::commitment::commit;

use bulletproofs_bls12::transcript::Transcript;
use bulletproofs_bls12::ipa::{ipa_prove, ipa_verify, compute_s_vector, inverse_the_vector};
use bulletproofs_bls12::range::{setup_gens, prove, verify, ProofMode, ProofGens, Opening};
use bulletproofs_bls12::RangeProofError;

fn roundtrip(v: u64, n: usize, gens: &ProofGens, mode: ProofMode) -> bool {
    let blinding = scalar_random();
    let mut prover_t = Transcript::new(b"range-test");
    let (proof, v_commit) = prove(v, &blinding, n, gens, mode, &mut prover_t)
        .expect("prove failed");
    let mut verifier_t = Transcript::new(b"range-test");
    verify(&proof, &v_commit, n, gens, &mut verifier_t).expect("verify errored")
}

#[test]
fn test_completeness_n8_n16() {
    for n in [8usize, 16] {
        let gens = setup_gens(b"completeness", n).expect("setup failed");
        let top: u64 = (1u64 << n) - 1;
        for v in [0u64, 1, 17, top] {
            assert!(roundtrip(v, n, &gens, ProofMode::Linear));
            assert!(roundtrip(v, n, &gens, ProofMode::Logarithmic));
        }
    }
}

#[test]
fn test_completeness_n32() {
    let gens = setup_gens(b"completeness32", 32).expect("setup failed");
    let top: u64 = (1u64 << 32) - 1;
    for v in [0u64, top] {
        assert!(roundtrip(v, 32, &gens, ProofMode::Logarithmic));
    }
    assert!(roundtrip(123456789, 32, &gens, ProofMode::Linear));
}

#[test]
fn test_completeness_n64() {
    let gens = setup_gens(b"completeness64", 64).expect("setup failed");
    for v in [0u64, u64::MAX] {
        assert!(roundtrip(v, 64, &gens, ProofMode::Logarithmic));
    }
}

#[test]
fn test_soundness_corrupt_t_hat() {
    let n = 8usize;
    let gens = setup_gens(b"soundness", n).expect("setup failed");
    let blinding = scalar_random();
    for mode in [ProofMode::Linear, ProofMode::Logarithmic] {
        let mut prover_t = Transcript::new(b"range-test");
        let (mut proof, v_commit) = prove(42, &blinding, n, &gens, mode, &mut prover_t)
            .expect("prove failed");
        proof.t_hat = scalar_add(&proof.t_hat, &scalar_one());
        let mut verifier_t = Transcript::new(b"range-test");
        let accepted = verify(&proof, &v_commit, n, &gens, &mut verifier_t)
            .expect("verify errored");
        assert!(!accepted, "corrupted t_hat must be rejected");
    }
}

#[test]
fn test_soundness_value_out_of_range() {
    // committing 2^n while the bits only encode v mod 2^n must fail
    let n = 8usize;
    let gens = setup_gens(b"outofrange", n).expect("setup failed");
    let blinding = scalar_random();
    for v in [256u64, 257, 1000] {
        let mut prover_t = Transcript::new(b"range-test");
        let (proof, v_commit) = prove(v, &blinding, n, &gens, ProofMode::Logarithmic,
            &mut prover_t).expect("prove failed");
        let mut verifier_t = Transcript::new(b"range-test");
        let accepted = verify(&proof, &v_commit, n, &gens, &mut verifier_t)
            .expect("verify errored");
        assert!(!accepted, "value outside the range must be rejected");
    }
}

#[test]
fn test_ipa_fold_roundtrip() {
    // random vectors and generators; fold-then-base-case accepts, and
    // flipping a single (L, R) entry causes rejection
    let n = 8usize;
    let g = bulletproofs_bls12::generators::derive(b"ipa-g", n).expect("derive failed");
    let h = bulletproofs_bls12::generators::derive(b"ipa-h", n).expect("derive failed");
    let u = bulletproofs_bls12::generators::derive(b"ipa-u", 1).expect("derive failed").remove(0);
    let a = random_scalars(n);
    let b = random_scalars(n);
    let c = inner_product(&a, &b);
    // P = g^a + h^b + u*<a,b>
    let p = ge_add(
        &ge_add(&commit(&g, &a).unwrap(), &commit(&h, &b).unwrap()),
        &ge_scale(&u, &c),
    );
    let mut prover_t = Transcript::new(b"ipa-test");
    let proof = ipa_prove(&g, &h, &u, &a, &b, &mut prover_t).expect("ipa_prove failed");
    let mut verifier_t = Transcript::new(b"ipa-test");
    let accepted = ipa_verify(&g, &h, &u, &p, &proof, &mut verifier_t).expect("ipa_verify errored");
    assert!(accepted, "honest fold must be accepted");

    for flip in 0..proof.l_points.len() {
        let mut l_points = Vec::new();
        let mut r_points = Vec::new();
        for i in 0..proof.l_points.len() {
            if i == flip {
                // swap the pair: a single corrupted round
                l_points.push(proof.r_points[i].dup());
                r_points.push(proof.l_points[i].dup());
            } else {
                l_points.push(proof.l_points[i].dup());
                r_points.push(proof.r_points[i].dup());
            }
        }
        let bad = bulletproofs_bls12::ipa::InnerProductProof {
            l_points,
            r_points,
            a: proof.a,
            b: proof.b,
        };
        let mut t = Transcript::new(b"ipa-test");
        let accepted = ipa_verify(&g, &h, &u, &p, &bad, &mut t).expect("ipa_verify errored");
        assert!(!accepted, "a flipped (L, R) entry must be rejected");
    }
}

#[test]
fn test_s_vector_matches_folded_generators() {
    // the reconstructed fold coefficients applied to the original
    // generators equal the generators folded round by round
    for n in [2usize, 4, 8] {
        let g = bulletproofs_bls12::generators::derive(b"fold-test", n).expect("derive failed");
        let log_n = n.trailing_zeros() as usize;
        let mut challenges: Vec<Scalar> = Vec::new();
        for j in 0..log_n {
            challenges.push(scalar_from_u64(2 + j as u64));
        }
        // fold directly: g' = g_lo * x^-1 + g_hi * x, per round
        let mut cur: Vec<GroupElement> = g.iter().map(|p| p.dup()).collect();
        for x in challenges.iter() {
            let x_inv = scalar_inverse(x);
            let mid = cur.len() / 2;
            let mut next = Vec::new();
            for i in 0..mid {
                next.push(ge_add(
                    &ge_scale(&cur[i], &x_inv),
                    &ge_scale(&cur[mid + i], x),
                ));
            }
            cur = next;
        }
        assert_eq!(cur.len(), 1);
        let s = compute_s_vector(&challenges, n);
        let combined = commit(&g, &s).expect("commit failed");
        assert!(ge_eq(&combined, &cur[0]), "s-vector mismatch for n = {}", n);
    }
}

#[test]
fn test_inverse_the_vector() {
    let v = vec![scalar_from_u64(2), scalar_from_u64(7), scalar_from_u64(100)];
    let inv = inverse_the_vector(&v);
    for i in 0..v.len() {
        assert!(scalar_eq(&scalar_mul(&v[i], &inv[i]), &scalar_one()));
    }
}

#[test]
fn test_end_to_end_thresholds() {
    // secret 20 against threshold 19: the difference 1 is in range
    let n = 8usize;
    let gens = setup_gens(b"threshold", n).expect("setup failed");
    let secret: u64 = 20;
    let threshold: u64 = 19;
    let v = secret.saturating_sub(threshold);
    assert_eq!(v, 1);
    assert!(roundtrip(v, n, &gens, ProofMode::Logarithmic));

    // secret 16 against threshold 20: the subtraction floors at zero,
    // and zero is in range, so the proof still verifies -- the
    // documented caveat that "at threshold" and "below threshold"
    // coincide
    let secret2: u64 = 16;
    let threshold2: u64 = 20;
    let v2 = secret2.saturating_sub(threshold2);
    assert_eq!(v2, 0);
    assert!(roundtrip(v2, n, &gens, ProofMode::Logarithmic));
}

#[test]
fn test_invalid_sizes() {
    let gens = setup_gens(b"invalid", 8).expect("setup failed");
    let blinding = scalar_random();
    let mut t = Transcript::new(b"range-test");
    // n not a power of two
    assert_eq!(
        prove(1, &blinding, 3, &gens, ProofMode::Linear, &mut t).unwrap_err(),
        RangeProofError::InvalidSize
    );
    // n too large for a u64 secret
    assert_eq!(
        prove(1, &blinding, 128, &gens, ProofMode::Linear, &mut t).unwrap_err(),
        RangeProofError::InvalidSize
    );
    // generators sized for another n
    assert_eq!(
        prove(1, &blinding, 16, &gens, ProofMode::Linear, &mut t).unwrap_err(),
        RangeProofError::LengthMismatch
    );
}

#[test]
fn test_proof_malformed() {
    let n = 8usize;
    let gens = setup_gens(b"malformed", n).expect("setup failed");
    let blinding = scalar_random();
    let mut prover_t = Transcript::new(b"range-test");
    let (mut proof, v_commit) = prove(5, &blinding, n, &gens, ProofMode::Logarithmic,
        &mut prover_t).expect("prove failed");
    if let Opening::Logarithmic { ipa } = &mut proof.opening {
        ipa.l_points.pop();
        ipa.r_points.pop();
    }
    let mut verifier_t = Transcript::new(b"range-test");
    assert_eq!(
        verify(&proof, &v_commit, n, &gens, &mut verifier_t).unwrap_err(),
        RangeProofError::ProofMalformed
    );
}

#[test]
fn test_wire_format_lengths() {
    // A, S, T1, T2 at 48 bytes each, then tau_x, mu, t_hat at 32 bytes
    // each, then the opening
    let n = 8usize;
    let gens = setup_gens(b"wire", n).expect("setup failed");
    let blinding = scalar_random();
    let mut t = Transcript::new(b"range-test");
    let (proof_lin, _) = prove(7, &blinding, n, &gens, ProofMode::Linear, &mut t)
        .expect("prove failed");
    let bytes_lin = bulletproofs_bls12::wire::proof_to_bytes(&proof_lin);
    assert_eq!(bytes_lin.len(), 4 * 48 + 3 * 32 + 2 * n * 32);
    assert_eq!(&bytes_lin[0..48], proof_lin.a_commit.to_bytes().as_slice());
    assert_eq!(&bytes_lin[48..96], proof_lin.s_commit.to_bytes().as_slice());

    let mut t2 = Transcript::new(b"range-test");
    let (proof_log, _) = prove(7, &blinding, n, &gens, ProofMode::Logarithmic, &mut t2)
        .expect("prove failed");
    let bytes_log = bulletproofs_bls12::wire::proof_to_bytes(&proof_log);
    // log2(8) = 3 rounds of (L, R) pairs plus the two final scalars
    assert_eq!(bytes_log.len(), 4 * 48 + 3 * 32 + 3 * 2 * 48 + 2 * 32);
}

#[test]
fn test_transcript_domain_separation() {
    // a verifier with a different transcript label recomputes different
    // challenges and must reject
    let n = 8usize;
    let gens = setup_gens(b"domains", n).expect("setup failed");
    let blinding = scalar_random();
    let mut prover_t = Transcript::new(b"domain-a");
    let (proof, v_commit) = prove(9, &blinding, n, &gens, ProofMode::Linear, &mut prover_t)
        .expect("prove failed");
    let mut verifier_t = Transcript::new(b"domain-b");
    let accepted = verify(&proof, &v_commit, n, &gens, &mut verifier_t).expect("verify errored");
    assert!(!accepted);
}
