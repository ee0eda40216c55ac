use bulletproofs_bls12::scalar::{scalar_add, scalar_sub, scalar_mul, scalar_inverse, scalar_eq,
    scalar_from_u64, scalar_zero, scalar_one, scalar_to_bytes, scalar_from_le_bytes};
use bulletproofs_bls12::vector::{hadamard, inner_product, ones, twos, y_pows, encode_bits,
    sub_one};
use bulletproofs_bls12::poly::{scalar_pow, geom_sum, delta};
use bulletproofs_bls12::generators::get_h_prime;
use bulletproofs_bls12::group::ge_eq;
use bulletproofs_bls12::commitment::commit;
use bulletproofs_bls12::transcript::sha256;
use bulletproofs_bls12::interop::sha256_to_words;
use bulletproofs_bls12::RangeProofError;

#[test]
fn test_scalar_arithmetic() {
    let two = scalar_from_u64(2);
    let three = scalar_from_u64(3);
    let five = scalar_from_u64(5);
    let six = scalar_from_u64(6);
    assert!(scalar_eq(&scalar_add(&two, &three), &five));
    assert!(scalar_eq(&scalar_mul(&two, &three), &six));
    assert!(scalar_eq(&scalar_sub(&five, &three), &two));
    assert!(!scalar_eq(&scalar_add(&two, &three), &six));
    // subtraction wraps around the field order
    let zero = scalar_zero();
    let neg_one = scalar_sub(&zero, &scalar_one());
    assert!(!scalar_eq(&neg_one, &zero));
    assert!(scalar_eq(&scalar_add(&neg_one, &scalar_one()), &zero));
}

#[test]
fn test_scalar_inverse() {
    let seven = scalar_from_u64(7);
    let inv = scalar_inverse(&seven);
    assert!(scalar_eq(&scalar_mul(&seven, &inv), &scalar_one()));
    assert!(!scalar_eq(&inv, &seven));
}

#[test]
fn test_scalar_serialization() {
    let one = scalar_one();
    let bytes = scalar_to_bytes(&one);
    assert_eq!(bytes.len(), 32);
    assert_eq!(bytes[0], 1);
    assert!(bytes[1..].iter().all(|&b| b == 0));
    let back = scalar_from_le_bytes(bytes.as_slice());
    assert!(scalar_eq(&back, &one));
}

#[test]
fn test_sha256_known_vector() {
    // SHA-256("abc")
    let digest = sha256(b"abc");
    let expected: [u8; 32] = [
        0xba, 0x78, 0x16, 0xbf, 0x8f, 0x01, 0xcf, 0xea, 0x41, 0x41, 0x40, 0xde, 0x5d, 0xae,
        0x22, 0x23, 0xb0, 0x03, 0x61, 0xa3, 0x96, 0x17, 0x7a, 0x9c, 0xb4, 0x10, 0xff, 0x61,
        0xf2, 0x00, 0x15, 0xad,
    ];
    assert_eq!(digest.as_slice(), &expected);
}

#[test]
fn test_sha256_to_words() {
    let mut digest = Vec::new();
    for i in 0..32u32 {
        digest.push(i as u8);
    }
    let words = sha256_to_words(digest.as_slice());
    assert_eq!(words[0], 0x00010203);
    assert_eq!(words[1], 0x04050607);
    assert_eq!(words[7], 0x1c1d1e1f);
}

#[test]
fn test_encode_bits() {
    // 13 = 1101 in binary, little-endian bits [1, 0, 1, 1, 0, 0, 0, 0]
    let bits = encode_bits(13, 8);
    let expected = [1u64, 0, 1, 1, 0, 0, 0, 0];
    assert_eq!(bits.len(), 8);
    for i in 0..8 {
        assert!(scalar_eq(&bits[i], &scalar_from_u64(expected[i])));
    }
    let a_r = sub_one(&bits);
    // aR[1] = 0 - 1 wraps; adding one back gives zero
    assert!(scalar_eq(&scalar_add(&a_r[1], &scalar_one()), &scalar_zero()));
}

#[test]
fn test_vector_primitives() {
    let one_vec = ones(4);
    let two_vec = twos(4);
    // <1^4, 2^4> = 1 + 2 + 4 + 8 = 15
    let got = inner_product(&one_vec, &two_vec);
    assert!(scalar_eq(&got, &scalar_from_u64(15)));
    let had = hadamard(&two_vec, &two_vec);
    assert!(scalar_eq(&had[3], &scalar_from_u64(64)));
    let y = scalar_from_u64(3);
    let pows = y_pows(&y, 4);
    assert!(scalar_eq(&pows[3], &scalar_from_u64(27)));
}

#[test]
fn test_scalar_pow_and_geom_sum() {
    let three = scalar_from_u64(3);
    assert!(scalar_eq(&scalar_pow(&three, 5), &scalar_from_u64(243)));
    // 1 + 3 + 9 + 27 = 40
    assert!(scalar_eq(&geom_sum(&three, 4), &scalar_from_u64(40)));
    assert!(scalar_eq(&geom_sum(&three, 0), &scalar_zero()));
}

#[test]
fn test_delta_matches_brute_force() {
    // delta(y, z, n) = (z - z^2) * sum_{i<n} y^i - z^3 * (2^n - 1)
    let n = 4usize;
    for (yv, zv) in [(5u64, 9u64), (1u64, 7u64), (2u64, 1u64)] {
        let y = scalar_from_u64(yv);
        let z = scalar_from_u64(zv);
        // brute-force summation with the primitive operations
        let mut sum_y = scalar_zero();
        for i in 0..n {
            sum_y = scalar_add(&sum_y, &scalar_pow(&y, i));
        }
        let z_sq = scalar_mul(&z, &z);
        let z_cu = scalar_mul(&z_sq, &z);
        let two_n = scalar_pow(&scalar_from_u64(2), n);
        let sum_two = scalar_sub(&two_n, &scalar_one());
        let lead = scalar_sub(&z, &z_sq);
        let expected = scalar_sub(&scalar_mul(&lead, &sum_y), &scalar_mul(&z_cu, &sum_two));
        let got = delta(&y, &z, n);
        assert!(scalar_eq(&got, &expected));
    }
}

#[test]
fn test_derive_deterministic() {
    let a = bulletproofs_bls12::generators::derive(b"test-generators", 8).expect("hash-to-curve failed");
    let b = bulletproofs_bls12::generators::derive(b"test-generators", 8).expect("hash-to-curve failed");
    assert_eq!(a.len(), 8);
    for i in 0..8 {
        assert_eq!(a[i].to_bytes(), b[i].to_bytes());
    }
    // distinct indices give distinct generators
    assert_ne!(a[0].to_bytes(), a[1].to_bytes());
    // a different label gives different generators
    let c = bulletproofs_bls12::generators::derive(b"other-generators", 8).expect("hash-to-curve failed");
    assert_ne!(a[0].to_bytes(), c[0].to_bytes());
}

#[test]
fn test_commit_and_errors() {
    let gens = bulletproofs_bls12::generators::derive(b"commit-test", 2).expect("hash-to-curve failed");
    let scalars = vec![scalar_one(), scalar_one()];
    let c = commit(&gens, &scalars).expect("commit failed");
    // sum of both generators, since every exponent is one
    let manual = bulletproofs_bls12::group::ge_add(
        &bulletproofs_bls12::group::ge_scale(&gens[0], &scalar_one()),
        &bulletproofs_bls12::group::ge_scale(&gens[1], &scalar_one()),
    );
    assert!(ge_eq(&c, &manual));
    // mismatched lengths
    let short = vec![scalar_one()];
    assert_eq!(commit(&gens, &short).unwrap_err(), RangeProofError::LengthMismatch);
    // the empty commitment is the group identity: the compression and
    // point-at-infinity flags in the leading byte, then zeros
    let none_g: Vec<bulletproofs_bls12::group::GroupElement> = Vec::new();
    let none_s: Vec<bulletproofs_bls12::scalar::Scalar> = Vec::new();
    let id = commit(&none_g, &none_s).expect("empty commit failed");
    let mut expected = vec![0u8; 48];
    expected[0] = 0xc0;
    assert_eq!(id.to_bytes(), expected);
    // the identity is neutral for addition
    let back = bulletproofs_bls12::group::ge_add(&id, &gens[0]);
    assert!(ge_eq(&back, &gens[0]));
}

#[test]
fn test_commit_blinded_length_checks() {
    let gens_v = bulletproofs_bls12::generators::derive(b"blinded-v", 1).expect("hash-to-curve failed");
    let gens_t = bulletproofs_bls12::generators::derive(b"blinded-t", 2).expect("hash-to-curve failed");
    let base = bulletproofs_bls12::generators::derive(b"blinded-b", 1)
        .expect("hash-to-curve failed")
        .remove(0);
    let v = vec![scalar_one()];
    let t = vec![scalar_one(), scalar_one()];
    // the two generator vectors must have equal length
    assert_eq!(
        bulletproofs_bls12::commitment::commit_blinded(&base, &scalar_one(), &gens_v, &v, &gens_t, &t)
            .unwrap_err(),
        RangeProofError::LengthMismatch
    );
    // a generator vector must match its scalar vector
    let short = vec![scalar_one()];
    assert_eq!(
        bulletproofs_bls12::commitment::commit_blinded(
            &base,
            &scalar_one(),
            &gens_t,
            &short,
            &gens_t,
            &t
        )
        .unwrap_err(),
        RangeProofError::LengthMismatch
    );
}

#[test]
fn test_get_h_prime() {
    let gens = bulletproofs_bls12::generators::derive(b"hprime-test", 4).expect("hash-to-curve failed");
    // y = 0 is the forbidden challenge value
    assert_eq!(
        get_h_prime(&gens, &scalar_zero()).unwrap_err(),
        RangeProofError::DegenerateChallenge
    );
    // y = 1 leaves every generator unchanged
    let hp = get_h_prime(&gens, &scalar_one()).expect("get_h_prime failed");
    for i in 0..4 {
        assert!(ge_eq(&hp[i], &gens[i]));
    }
    // y = 2 rescales index 1 by the inverse of 2
    let two = scalar_from_u64(2);
    let hp2 = get_h_prime(&gens, &two).expect("get_h_prime failed");
    let back = bulletproofs_bls12::group::ge_scale(&hp2[1], &two);
    assert!(ge_eq(&back, &gens[1]));
}
