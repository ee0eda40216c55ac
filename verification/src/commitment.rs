//! Pedersen vector commitments: linear combinations of generator vectors
//! with scalar exponents, plain and with a blinding term. The committed
//! point is pinned as a term over the named group operations.

use vstd::prelude::*;
use crate::RangeProofError;
use crate::scalar::Scalar;
use crate::vector::views;
use crate::group::{GroupElement, ge_add, ge_scale, ge_identity, pt_sum, pt_scale, pt_identity};

verus! {

/// The byte views of a sequence of group elements.
pub open spec fn gviews(v: Seq<GroupElement>) -> Seq<Seq<u8>> {
    Seq::new(v.len(), |i: int| v[i]@)
}

/// The linear combination `gs[0]*ss[0] + ... + gs[n-1]*ss[n-1]`,
/// accumulated left to right; the empty combination is the identity.
pub open spec fn msm(gs: Seq<Seq<u8>>, ss: Seq<int>) -> Seq<u8>
    decreases gs.len(),
{
    if gs.len() == 0 {
        pt_identity()
    } else if gs.len() == 1 {
        pt_scale(gs[0], ss[0])
    } else {
        pt_sum(msm(gs.drop_last(), ss.drop_last()), pt_scale(gs.last(), ss.last()))
    }
}

/// The doubly-blinded commitment term
/// `blind_base*blind + Σ gens_v[i]*v[i] + Σ gens_t[i]*t[i]`.
pub open spec fn blinded_commitment(
    blind_base: Seq<u8>,
    blind: int,
    gens_v: Seq<Seq<u8>>,
    v: Seq<int>,
    gens_t: Seq<Seq<u8>>,
    t: Seq<int>,
) -> Seq<u8> {
    pt_sum(pt_sum(pt_scale(blind_base, blind), msm(gens_v, v)), msm(gens_t, t))
}

/// Commitment `C = Σ gens[i]*scalars[i]`. Fails with `LengthMismatch`
/// exactly when the lengths differ; the empty commitment is the group
/// identity.
pub fn commit(gens: &Vec<GroupElement>, scalars: &Vec<Scalar>) -> (r: Result<
    GroupElement,
    RangeProofError,
>)
    ensures
        r.is_ok() <==> gens@.len() == scalars@.len(),
        r matches Ok(c) ==> c@ == msm(gviews(gens@), views(scalars@)) && c@.len() == 48,
        r matches Err(e) ==> e == RangeProofError::LengthMismatch,
{
    if gens.len() != scalars.len() {
        return Err(RangeProofError::LengthMismatch);
    }
    if gens.len() == 0 {
        let c = ge_identity();
        proof {
            assert(gviews(gens@).len() == 0);
            assert(c@ == msm(gviews(gens@), views(scalars@)));
            assert(c@.len() == 48);
        }
        return Ok(c);
    }
    let n = gens.len();
    let mut acc = ge_scale(&gens[0], &scalars[0]);
    let mut i: usize = 1;
    while i < n
        invariant
            1 <= i <= n,
            n == gens@.len() == scalars@.len(),
            acc@ == msm(gviews(gens@).take(i as int), views(scalars@).take(i as int)),
            acc@.len() == 48,
        decreases n - i,
    {
        let term = ge_scale(&gens[i], &scalars[i]);
        acc = ge_add(&acc, &term);
        proof {
            let gv = gviews(gens@);
            let sv = views(scalars@);
            assert(gv.take(i + 1).drop_last() =~= gv.take(i as int));
            assert(sv.take(i + 1).drop_last() =~= sv.take(i as int));
            assert(gv.take(i + 1).last() == gens@[i as int]@);
            assert(sv.take(i + 1).last() == scalars@[i as int]@);
        }
        i += 1;
    }
    proof {
        assert(gviews(gens@).take(n as int) =~= gviews(gens@));
        assert(views(scalars@).take(n as int) =~= views(scalars@));
    }
    Ok(acc)
}

/// Doubly-blinded commitment
/// `C = blind_base*blind + Σ gens_v[i]*v[i] + Σ gens_t[i]*t[i]`,
/// committing two secret vectors plus one blinding scalar. Fails with
/// `LengthMismatch` exactly when a generator vector and its scalar
/// vector differ in length, or the two generator vectors do.
pub fn commit_blinded(
    blind_base: &GroupElement,
    blind: &Scalar,
    gens_v: &Vec<GroupElement>,
    v: &Vec<Scalar>,
    gens_t: &Vec<GroupElement>,
    t: &Vec<Scalar>,
) -> (r: Result<GroupElement, RangeProofError>)
    ensures
        r.is_ok() <==> (gens_v@.len() == v@.len() && gens_t@.len() == t@.len()
            && gens_v@.len() == gens_t@.len()),
        r matches Ok(c) ==> c@ == blinded_commitment(
            blind_base@,
            blind@,
            gviews(gens_v@),
            views(v@),
            gviews(gens_t@),
            views(t@),
        ) && c@.len() == 48,
        r matches Err(e) ==> e == RangeProofError::LengthMismatch,
{
    if gens_v.len() != v.len() || gens_t.len() != t.len() || gens_v.len() != gens_t.len() {
        return Err(RangeProofError::LengthMismatch);
    }
    let m_v = match commit(gens_v, v) {
        Ok(c) => c,
        Err(e) => {
            return Err(e);
        },
    };
    let m_t = match commit(gens_t, t) {
        Ok(c) => c,
        Err(e) => {
            return Err(e);
        },
    };
    let base_term = ge_scale(blind_base, blind);
    Ok(ge_add(&ge_add(&base_term, &m_v), &m_t))
}

} // verus!
