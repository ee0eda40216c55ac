//! The Fiat-Shamir transcript: a byte string that records every message
//! of the protocol in order. A challenge is the SHA-256 digest of the
//! transcript, a label and a retry nonce, reduced into the scalar field;
//! it is a pure function of everything appended so far, and the digest is
//! itself appended so that later challenges differ.

use vstd::prelude::*;
use crate::RangeProofError;
use crate::scalar::{Scalar, fr_order, le_val, le_bytes_32, scalar_from_le_bytes, scalar_eq,
    scalar_zero, scalar_to_bytes};
use crate::generators::{dec_rep, dec_bytes};
use crate::group::GroupElement;

verus! {

/// The SHA-256 digest of a message.
pub uninterp spec fn sha256_of(msg: Seq<u8>) -> Seq<u8>;

/// Relies on `sha2::Sha256`: the 32-byte SHA-256 digest, a deterministic
/// function of the message alone.
#[verifier::external_body]
pub fn sha256(msg: &[u8]) -> (r: Vec<u8>)
    ensures
        r@ == sha256_of(msg@),
        r@.len() == 32,
{
    let digest = <sha2::Sha256 as sha2::Digest>::digest(msg);
    digest.to_vec()
}

/// The framing of one appended message: label, decimal byte length, a
/// colon, then the message bytes.
pub open spec fn msg_frame(label: Seq<u8>, msg: Seq<u8>) -> Seq<u8> {
    label + dec_rep(msg.len()) + seq![58u8] + msg
}

/// The bytes hashed for one challenge attempt.
pub open spec fn challenge_attempt(data: Seq<u8>, label: Seq<u8>, ctr: nat) -> Seq<u8> {
    sha256_of(data + label + seq![ctr as u8])
}

/// The first nonzero challenge among the attempts `ctr, ctr+1, ..., 255`,
/// with the digest it came from; `None` when every attempt reduces to
/// zero.
pub open spec fn challenge_from(data: Seq<u8>, label: Seq<u8>, ctr: nat) -> Option<(int, Seq<u8>)>
    decreases 256 - ctr,
{
    if ctr >= 256 {
        None
    } else {
        let digest = challenge_attempt(data, label, ctr);
        let v = le_val(digest) % fr_order();
        if v != 0 {
            Some((v, digest))
        } else {
            challenge_from(data, label, (ctr + 1) as nat)
        }
    }
}

/// The Fiat-Shamir discipline: a challenge is a pure function of the
/// bytes recorded so far and the label, so two transcripts holding
/// identical bytes yield identical challenges — never an independent
/// sample.
pub proof fn lemma_challenge_deterministic(t1: Seq<u8>, t2: Seq<u8>, label: Seq<u8>)
    requires
        t1 == t2,
    ensures
        challenge_from(t1, label, 0) == challenge_from(t2, label, 0),
{
}

/// A transcript only ever grows: a prefix of it stays a prefix when
/// more bytes are appended.
pub proof fn lemma_prefix_extend(a: Seq<u8>, b: Seq<u8>, c: Seq<u8>)
    requires
        a.is_prefix_of(b),
    ensures
        a.is_prefix_of(b + c),
{
    assert(a =~= (b + c).subrange(0, a.len() as int));
}

/// Being a prefix is transitive across the stages of a transcript.
pub proof fn lemma_prefix_trans(a: Seq<u8>, b: Seq<u8>, c: Seq<u8>)
    requires
        a.is_prefix_of(b),
        b.is_prefix_of(c),
    ensures
        a.is_prefix_of(c),
{
    assert(a =~= c.subrange(0, a.len() as int));
}

/// The Fiat-Shamir transcript: the ordered bytes of everything sent.
pub struct Transcript {
    data: Vec<u8>,
}

impl View for Transcript {
    type V = Seq<u8>;

    /// The bytes recorded so far.
    closed spec fn view(&self) -> Seq<u8> {
        self.data@
    }
}

impl Transcript {
    /// A fresh transcript holding only the domain label.
    pub fn new(label: &[u8]) -> (r: Transcript)
        ensures
            r@ == label@,
    {
        let mut data: Vec<u8> = Vec::new();
        data.extend_from_slice(label);
        proof {
            assert(data@ =~= label@);
        }
        Transcript { data }
    }

    /// Records a labelled message. The append order is part of the wire
    /// contract: prover and verifier must make bit-identical appends.
    pub fn append_message(&mut self, label: &[u8], msg: &[u8])
        ensures
            final(self)@ == old(self)@ + msg_frame(label@, msg@),
    {
        self.data.extend_from_slice(label);
        let mut len_digits = dec_bytes(msg.len() as u64);
        self.data.append(&mut len_digits);
        self.data.push(58);
        self.data.extend_from_slice(msg);
        proof {
            assert(self.data@ =~= old(self)@ + msg_frame(label@, msg@));
        }
    }

    /// Records a labelled scalar, as its 32 canonical bytes.
    pub fn append_scalar(&mut self, label: &[u8], s: &Scalar)
        ensures
            final(self)@ == old(self)@ + msg_frame(label@, le_bytes_32(s@)),
    {
        let bytes = scalar_to_bytes(s);
        self.append_message(label, bytes.as_slice());
    }

    /// Records a labelled group element, as its canonical serialization.
    pub fn append_point(&mut self, label: &[u8], g: &GroupElement)
        ensures
            final(self)@ == old(self)@ + msg_frame(label@, g@),
    {
        let bytes = g.to_bytes();
        self.append_message(label, bytes.as_slice());
    }

    /// Derives a nonzero challenge scalar: the digest of the transcript,
    /// the label and a retry nonce, reduced into the field. Re-derivation
    /// on a zero challenge adds a counter and never leaves the
    /// transcript; only if all 256 nonces reduce to zero does it fail
    /// with `DegenerateChallenge`, leaving the transcript unchanged.
    pub fn challenge_scalar(&mut self, label: &[u8]) -> (r: Result<Scalar, RangeProofError>)
        ensures
            r.is_ok() <==> challenge_from(old(self)@, label@, 0) is Some,
            r matches Ok(s) ==> {
                &&& challenge_from(old(self)@, label@, 0) matches Some(p)
                    && s@ == p.0 && final(self)@ == old(self)@ + p.1
                &&& s@ != 0
            },
            r matches Err(e) ==> e == RangeProofError::DegenerateChallenge
                && final(self)@ == old(self)@,
    {
        let zero = scalar_zero();
        let ghost orig = self.data@;
        let mut ctr: usize = 0;
        while ctr < 256
            invariant
                ctr <= 256,
                self.data@ == orig,
                old(self)@ == orig,
                zero@ == 0,
                challenge_from(orig, label@, 0) == challenge_from(orig, label@, ctr as nat),
            decreases 256 - ctr,
        {
            let mut attempt = self.data.clone();
            attempt.extend_from_slice(label);
            attempt.push(ctr as u8);
            proof {
                assert(attempt@ =~= orig + label@ + seq![ctr as u8]);
            }
            let mut digest = sha256(attempt.as_slice());
            let s = scalar_from_le_bytes(digest.as_slice());
            proof {
                assert(seq![ctr as u8] =~= seq![(ctr as nat) as u8]);
                assert(digest@ == challenge_attempt(orig, label@, ctr as nat));
            }
            if !scalar_eq(&s, &zero) {
                proof {
                    assert(challenge_from(orig, label@, ctr as nat) == Some((s@, digest@)));
                }
                self.data.append(&mut digest);
                return Ok(s);
            }
            proof {
                assert(challenge_from(orig, label@, ctr as nat) == challenge_from(
                    orig,
                    label@,
                    (ctr + 1) as nat,
                ));
            }
            ctr += 1;
        }
        Err(RangeProofError::DegenerateChallenge)
    }
}

} // verus!
