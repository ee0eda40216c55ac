//! The wire format of a proof: the ordered concatenation of fixed-width
//! canonical serializations — `A`, `S`, `T1`, `T2`, then `tau_x`, `mu`,
//! `t_hat` as 32-byte field elements, then the opening: the raw `l`, `r`
//! vectors in linear mode, or the `(L, R)` pairs plus the final scalars
//! in logarithmic mode. Downstream consumers re-hash these bytes in
//! 32-byte chunks.

use vstd::prelude::*;
use crate::scalar::{Scalar, le_bytes_32, scalar_to_bytes};
use crate::group::GroupElement;
use crate::range::{RangeProof, Opening};

verus! {

/// The concatenated 32-byte serializations of a scalar vector.
pub open spec fn scalars_bytes(s: Seq<Scalar>) -> Seq<u8>
    decreases s.len(),
{
    if s.len() == 0 {
        Seq::empty()
    } else {
        scalars_bytes(s.drop_last()) + le_bytes_32(s.last()@)
    }
}

/// The concatenated serializations of the interleaved `(L, R)` pairs.
pub open spec fn pairs_bytes(ls: Seq<GroupElement>, rs: Seq<GroupElement>) -> Seq<u8>
    decreases ls.len(),
{
    if ls.len() == 0 {
        Seq::empty()
    } else {
        pairs_bytes(ls.drop_last(), rs.drop_last()) + ls.last()@ + rs.last()@
    }
}

/// The serialized opening.
pub open spec fn opening_bytes(o: Opening) -> Seq<u8> {
    match o {
        Opening::Linear { l, r } => scalars_bytes(l@) + scalars_bytes(r@),
        Opening::Logarithmic { ipa } => pairs_bytes(ipa.l_points@, ipa.r_points@) + le_bytes_32(
            ipa.a@,
        ) + le_bytes_32(ipa.b@),
    }
}

/// The full wire encoding of a proof.
pub open spec fn proof_bytes(p: RangeProof) -> Seq<u8> {
    p.a_commit@ + p.s_commit@ + p.t1_commit@ + p.t2_commit@ + le_bytes_32(p.tau_x@) + le_bytes_32(
        p.mu@,
    ) + le_bytes_32(p.t_hat@) + opening_bytes(p.opening)
}

/// The concatenated 32-byte serializations of a scalar vector.
pub fn scalars_to_bytes(v: &Vec<Scalar>) -> (r: Vec<u8>)
    ensures
        r@ == scalars_bytes(v@),
{
    let n = v.len();
    let mut out: Vec<u8> = Vec::new();
    let mut i: usize = 0;
    proof {
        assert(v@.take(0) =~= Seq::<Scalar>::empty());
    }
    while i < n
        invariant
            i <= n,
            n == v@.len(),
            out@ == scalars_bytes(v@.take(i as int)),
        decreases n - i,
    {
        let mut chunk = scalar_to_bytes(&v[i]);
        out.append(&mut chunk);
        proof {
            assert(v@.take(i + 1).drop_last() =~= v@.take(i as int));
            assert(v@.take(i + 1).last() == v@[i as int]);
        }
        i += 1;
    }
    proof {
        assert(v@.take(n as int) =~= v@);
    }
    out
}

/// The serialized proof, in the wire order.
pub fn proof_to_bytes(p: &RangeProof) -> (r: Vec<u8>)
    requires
        p.opening matches Opening::Logarithmic { ipa } ==> ipa.l_points@.len()
            == ipa.r_points@.len(),
    ensures
        r@ == proof_bytes(*p),
{
    let mut out: Vec<u8> = Vec::new();
    let mut chunk = p.a_commit.to_bytes();
    out.append(&mut chunk);
    let mut chunk = p.s_commit.to_bytes();
    out.append(&mut chunk);
    let mut chunk = p.t1_commit.to_bytes();
    out.append(&mut chunk);
    let mut chunk = p.t2_commit.to_bytes();
    out.append(&mut chunk);
    let mut chunk = scalar_to_bytes(&p.tau_x);
    out.append(&mut chunk);
    let mut chunk = scalar_to_bytes(&p.mu);
    out.append(&mut chunk);
    let mut chunk = scalar_to_bytes(&p.t_hat);
    out.append(&mut chunk);
    let ghost head = out@;
    match &p.opening {
        Opening::Linear { l, r } => {
            let mut lb = scalars_to_bytes(l);
            out.append(&mut lb);
            let mut rb = scalars_to_bytes(r);
            out.append(&mut rb);
        },
        Opening::Logarithmic { ipa } => {
            let k = ipa.l_points.len();
            let mut j: usize = 0;
            proof {
                assert(ipa.l_points@.take(0) =~= Seq::<GroupElement>::empty());
                assert(ipa.r_points@.take(0) =~= Seq::<GroupElement>::empty());
            }
            while j < k
                invariant
                    j <= k,
                    k == ipa.l_points@.len() == ipa.r_points@.len(),
                    out@ == head + pairs_bytes(
                        ipa.l_points@.take(j as int),
                        ipa.r_points@.take(j as int),
                    ),
                decreases k - j,
            {
                let mut lb = ipa.l_points[j].to_bytes();
                out.append(&mut lb);
                let mut rb = ipa.r_points[j].to_bytes();
                out.append(&mut rb);
                proof {
                    assert(ipa.l_points@.take(j + 1).drop_last() =~= ipa.l_points@.take(
                        j as int,
                    ));
                    assert(ipa.r_points@.take(j + 1).drop_last() =~= ipa.r_points@.take(
                        j as int,
                    ));
                    assert(ipa.l_points@.take(j + 1).last() == ipa.l_points@[j as int]);
                    assert(ipa.r_points@.take(j + 1).last() == ipa.r_points@[j as int]);
                }
                j += 1;
            }
            proof {
                assert(ipa.l_points@.take(k as int) =~= ipa.l_points@);
                assert(ipa.r_points@.take(k as int) =~= ipa.r_points@);
            }
            let mut ab = scalar_to_bytes(&ipa.a);
            out.append(&mut ab);
            let mut bb = scalar_to_bytes(&ipa.b);
            out.append(&mut bb);
        },
    }
    out
}

} // verus!
