//! Bridging helpers for downstream consumers that re-hash proof bytes in
//! another arithmetic field: packing a SHA-256 digest into big-endian
//! words, and the plain data shapes exported as JSON by callers.

use vstd::prelude::*;

verus! {

/// The big-endian 32-bit word starting at byte `4*i` of a digest.
pub open spec fn be_word(b: Seq<u8>, i: int) -> int {
    b[4 * i] * 0x1000000 + b[4 * i + 1] * 0x10000 + b[4 * i + 2] * 0x100 + b[4 * i + 3]
}

/// One big-endian word from four bytes.
fn word_from(b0: u8, b1: u8, b2: u8, b3: u8) -> (r: u32)
    ensures
        r == b0 * 0x1000000 + b1 * 0x10000 + b2 * 0x100 + b3,
{
    let x0 = b0 as u32;
    let x1 = b1 as u32;
    let x2 = b2 as u32;
    let x3 = b3 as u32;
    let r = (x0 << 24) | (x1 << 16) | (x2 << 8) | x3;
    proof {
        assert((x0 << 24) | (x1 << 16) | (x2 << 8) | x3 == x0 * 0x1000000 + x1 * 0x10000 + x2
            * 0x100 + x3) by (bit_vector)
            requires
                x0 < 256 && x1 < 256 && x2 < 256 && x3 < 256,
        ;
    }
    r
}

/// Packs a 32-byte SHA-256 digest into eight big-endian 32-bit words,
/// the form a downstream circuit consumes.
pub fn sha256_to_words(digest: &[u8]) -> (r: [u32; 8])
    requires
        digest@.len() == 32,
    ensures
        forall|i: int| 0 <= i < 8 ==> r@[i] == be_word(digest@, i),
{
    let w0 = word_from(digest[0], digest[1], digest[2], digest[3]);
    let w1 = word_from(digest[4], digest[5], digest[6], digest[7]);
    let w2 = word_from(digest[8], digest[9], digest[10], digest[11]);
    let w3 = word_from(digest[12], digest[13], digest[14], digest[15]);
    let w4 = word_from(digest[16], digest[17], digest[18], digest[19]);
    let w5 = word_from(digest[20], digest[21], digest[22], digest[23]);
    let w6 = word_from(digest[24], digest[25], digest[26], digest[27]);
    let w7 = word_from(digest[28], digest[29], digest[30], digest[31]);
    let r = [w0, w1, w2, w3, w4, w5, w6, w7];
    r
}

/// A list of field elements in decimal string form, the JSON shape
/// consumed by a downstream circuit's input file.
pub struct InputData {
    pub fr_elements: Vec<String>,
}

/// A proof in the JSON layout a downstream verifier expects: affine
/// coordinates in decimal strings plus protocol and curve tags.
pub struct SnarkjsProof {
    pub protocol: String,
    pub curve: String,
    pub pi_a: [String; 3],
    pub pi_b: [[String; 2]; 3],
    pub pi_c: [String; 3],
}

} // verus!
