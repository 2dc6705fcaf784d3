//! Hamming geometry on byte vectors.
use vstd::prelude::*;

verus! {

/// Number of positions at which `u` and `v` differ, pairing them from the end; for
/// sequences of equal length, the number of indices `i` with `u[i] != v[i]`.
pub open spec fn hamming(u: Seq<u8>, v: Seq<u8>) -> nat
    decreases u.len(),
{
    if u.len() == 0 || v.len() == 0 {
        0
    } else {
        hamming(u.drop_last(), v.drop_last()) + if u.last() != v.last() {
            1nat
        } else {
            0nat
        }
    }
}

/// The `k`-th realization of a flattened matrix whose realizations have `width` attributes.
pub open spec fn chunk(m: Seq<u8>, width: nat, k: int) -> Seq<u8> {
    m.subrange(k * width, k * width + width)
}

/// Distance from each realization of the flattened matrix `m` to `center`, in order.
pub open spec fn profile(m: Seq<u8>, center: Seq<u8>) -> Seq<u32> {
    Seq::new(m.len() / center.len(), |k: int| hamming(chunk(m, center.len(), k), center) as u32)
}

/// Adding one position to both prefixes adds one to the distance exactly when the
/// two bytes there differ.
pub proof fn lemma_hamming_step(u: Seq<u8>, v: Seq<u8>, i: int)
    requires
        0 <= i < u.len(),
        u.len() == v.len(),
    ensures
        hamming(u.subrange(0, i + 1), v.subrange(0, i + 1)) == hamming(u.subrange(0, i), v.subrange(0, i))
            + if u[i] != v[i] {
            1nat
        } else {
            0nat
        },
{
    assert(u.subrange(0, i + 1).drop_last() =~= u.subrange(0, i));
    assert(v.subrange(0, i + 1).drop_last() =~= v.subrange(0, i));
}

/// The distance never exceeds the length.
pub proof fn lemma_hamming_bounded(u: Seq<u8>, v: Seq<u8>)
    requires
        u.len() == v.len(),
    ensures
        hamming(u, v) <= u.len(),
    decreases u.len(),
{
    if u.len() > 0 {
        lemma_hamming_bounded(u.drop_last(), v.drop_last());
    }
}

/// Hamming distance is symmetric.
pub proof fn lemma_hamming_symmetric(u: Seq<u8>, v: Seq<u8>)
    requires
        u.len() == v.len(),
    ensures
        hamming(u, v) == hamming(v, u),
    decreases u.len(),
{
    if u.len() > 0 {
        lemma_hamming_symmetric(u.drop_last(), v.drop_last());
    }
}

/// The distance between two vectors of equal length is zero exactly when they are
/// the same vector.
pub proof fn lemma_hamming_zero_iff_equal(u: Seq<u8>, v: Seq<u8>)
    requires
        u.len() == v.len(),
    ensures
        hamming(u, v) == 0 <==> u == v,
    decreases u.len(),
{
    if u.len() > 0 {
        lemma_hamming_zero_iff_equal(u.drop_last(), v.drop_last());
        if hamming(u, v) == 0 {
            assert(u =~= u.drop_last().push(u.last()));
            assert(v =~= v.drop_last().push(v.last()));
        }
        if u == v {
            assert(u.drop_last() == v.drop_last());
        }
    } else {
        assert(u =~= v);
    }
}

/// Triangle inequality: going through a third vector is never shorter.
pub proof fn lemma_hamming_triangle(u: Seq<u8>, v: Seq<u8>, w: Seq<u8>)
    requires
        u.len() == v.len(),
        v.len() == w.len(),
    ensures
        hamming(u, w) <= hamming(u, v) + hamming(v, w),
    decreases u.len(),
{
    if u.len() > 0 {
        lemma_hamming_triangle(u.drop_last(), v.drop_last(), w.drop_last());
    }
}

} // verus!
