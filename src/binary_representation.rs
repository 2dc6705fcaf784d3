//! Binarization of attribute matrices against a corridor, and majority reference vectors.
use vstd::prelude::*;
use crate::corridor::Allowances;

verus! {

/// Whether `x` lies in the inclusive band `[lower, upper]`.
pub open spec fn in_band(x: u8, lower: u8, upper: u8) -> bool {
    lower <= x && x <= upper
}

/// Binary matrix of a flattened raw matrix whose realizations have `lower.len()`
/// attributes: 255 where the value lies in its attribute's band, 0 elsewhere.
pub open spec fn binarized(raw: Seq<u8>, lower: Seq<u8>, upper: Seq<u8>) -> Seq<u8> {
    Seq::new(
        raw.len(),
        |i: int|
            if in_band(raw[i], lower[i % lower.len() as int], upper[i % lower.len() as int]) {
                255u8
            } else {
                0u8
            },
    )
}

/// Number of the first `r` realizations that are true (255) at attribute `a`, in a
/// flattened matrix whose realizations have `w` attributes.
pub open spec fn count_true(m: Seq<u8>, w: int, a: int, r: int) -> nat
    decreases r,
{
    if r <= 0 {
        0
    } else {
        count_true(m, w, a, r - 1) + if m[a + (r - 1) * w] == 255 {
            1nat
        } else {
            0nat
        }
    }
}

/// Majority bit of attribute `a` over `h` realizations: true only on a strict majority.
pub open spec fn majority(m: Seq<u8>, w: int, h: int, a: int) -> u8 {
    if count_true(m, w, a, h) > h / 2 {
        255
    } else {
        0
    }
}

/// Reference vector of a binary matrix of `h` realizations with `w` attributes.
pub open spec fn reference_of(m: Seq<u8>, w: int, h: int) -> Seq<u8> {
    Seq::new(w as nat, |a: int| majority(m, w, h, a))
}

proof fn lemma_count_true_mono(m: Seq<u8>, m2: Seq<u8>, w: int, a: int, r: int)
    requires
        forall|k: int| 0 <= k < r && #[trigger] m[a + k * w] == 255 ==> m2[a + k * w] == 255,
    ensures
        count_true(m, w, a, r) <= count_true(m2, w, a, r),
    decreases r,
{
    if r > 0 {
        lemma_count_true_mono(m, m2, w, a, r - 1);
    }
}

/// Binarizing a binary matrix (all values 0 or 255) against bands that hold 255 and leave
/// out 0 at every attribute gives the matrix back unchanged.
pub proof fn lemma_binarize_binary_is_identity(m: Seq<u8>, lower: Seq<u8>, upper: Seq<u8>)
    requires
        lower.len() > 0,
        upper.len() == lower.len(),
        forall|i: int| 0 <= i < m.len() ==> #[trigger] m[i] == 0 || m[i] == 255,
        forall|a: int| 0 <= a < lower.len() ==> 0 < #[trigger] lower[a] && upper[a] == 255,
    ensures
        binarized(m, lower, upper) == m,
{
    assert forall|i: int| 0 <= i < m.len() implies #[trigger] binarized(m, lower, upper)[i] == m[i] by {
        let a = i % lower.len() as int;
        vstd::arithmetic::div_mod::lemma_mod_bound(i, lower.len() as int);
        assert(0 < lower[a] && upper[a] == 255);
    }
    assert(binarized(m, lower, upper) =~= m);
}

/// Flipping, at one attribute, bits of realizations that disagree with the majority (so
/// that they now agree with it) leaves the whole reference vector unchanged.
pub proof fn lemma_reference_majority_stable(m: Seq<u8>, m2: Seq<u8>, w: int, h: int, a: int)
    requires
        0 <= a < w,
        0 <= h,
        m.len() == w * h,
        m2.len() == w * h,
        forall|b: int, r: int| 0 <= b < w && 0 <= r < h && b != a ==> #[trigger] m2[b + r * w] == m[b + r * w],
        forall|r: int|
            0 <= r < h && (#[trigger] m2[a + r * w] == 255) != (m[a + r * w] == 255) ==> (m[a + r * w] == 255)
                != (majority(m, w, h, a) == 255),
    ensures
        reference_of(m2, w, h) == reference_of(m, w, h),
{
    assert forall|b: int| 0 <= b < w implies #[trigger] majority(m2, w, h, b) == majority(m, w, h, b) by {
        if b != a {
            assert forall|k: int| 0 <= k < h && #[trigger] m[b + k * w] == 255 implies m2[b + k * w] == 255 by {
                assert(m2[b + k * w] == m[b + k * w]);
            }
            assert forall|k: int| 0 <= k < h && #[trigger] m2[b + k * w] == 255 implies m[b + k * w] == 255 by {
                assert(m2[b + k * w] == m[b + k * w]);
            }
            lemma_count_true_mono(m, m2, w, b, h);
            lemma_count_true_mono(m2, m, w, b, h);
        } else if majority(m, w, h, a) == 255 {
            assert forall|k: int| 0 <= k < h && #[trigger] m[a + k * w] == 255 implies m2[a + k * w] == 255 by {}
            lemma_count_true_mono(m, m2, w, a, h);
        } else {
            assert forall|k: int| 0 <= k < h && #[trigger] m2[a + k * w] == 255 implies m[a + k * w] == 255 by {}
            lemma_count_true_mono(m2, m, w, a, h);
        }
    }
    assert(reference_of(m2, w, h) =~= reference_of(m, w, h));
}

/// Number of the first `r` realizations whose bit at attribute `a` differs between `m`
/// and `m2`.
pub open spec fn flips(m: Seq<u8>, m2: Seq<u8>, w: int, a: int, r: int) -> nat
    decreases r,
{
    if r <= 0 {
        0
    } else {
        flips(m, m2, w, a, r - 1) + if (m[a + (r - 1) * w] == 255) != (m2[a + (r - 1) * w] == 255) {
            1nat
        } else {
            0nat
        }
    }
}

proof fn lemma_count_true_flips(m: Seq<u8>, m2: Seq<u8>, w: int, a: int, r: int)
    ensures
        count_true(m2, w, a, r) <= count_true(m, w, a, r) + flips(m, m2, w, a, r),
        count_true(m, w, a, r) <= count_true(m2, w, a, r) + flips(m, m2, w, a, r),
    decreases r,
{
    if r > 0 {
        lemma_count_true_flips(m, m2, w, a, r - 1);
    }
}

/// Flipping, at one attribute, fewer bits than half the majority's margin (in either
/// direction) leaves the whole reference vector unchanged.
pub proof fn lemma_reference_margin_stable(m: Seq<u8>, m2: Seq<u8>, w: int, h: int, a: int)
    requires
        0 <= a < w,
        0 <= h,
        m.len() == w * h,
        m2.len() == w * h,
        forall|b: int, r: int| 0 <= b < w && 0 <= r < h && b != a ==> #[trigger] m2[b + r * w] == m[b + r * w],
        2 * flips(m, m2, w, a, h) < if 2 * count_true(m, w, a, h) >= h {
            2 * count_true(m, w, a, h) - h
        } else {
            h - 2 * count_true(m, w, a, h)
        },
    ensures
        reference_of(m2, w, h) == reference_of(m, w, h),
{
    assert forall|b: int| 0 <= b < w implies #[trigger] majority(m2, w, h, b) == majority(m, w, h, b) by {
        if b != a {
            assert forall|k: int| 0 <= k < h && #[trigger] m[b + k * w] == 255 implies m2[b + k * w] == 255 by {
                assert(m2[b + k * w] == m[b + k * w]);
            }
            assert forall|k: int| 0 <= k < h && #[trigger] m2[b + k * w] == 255 implies m[b + k * w] == 255 by {
                assert(m2[b + k * w] == m[b + k * w]);
            }
            lemma_count_true_mono(m, m2, w, b, h);
            lemma_count_true_mono(m2, m, w, b, h);
        } else {
            lemma_count_true_flips(m, m2, w, a, h);
        }
    }
    assert(reference_of(m2, w, h) =~= reference_of(m, w, h));
}

/// A band per attribute, the same number of both edges.
pub open spec fn allowances_fit(allowances: &Allowances, width: nat) -> bool {
    &&& allowances.lower@.len() == width
    &&& allowances.upper@.len() == width
}

/// Binarizes a flattened raw matrix against the allowances: a value becomes 255 when it
/// lies in its attribute's band, 0 otherwise.
pub fn binarize(raw_class: &[u8], allowances: &Allowances) -> (r: Vec<u8>)
    requires
        allowances.lower@.len() == allowances.upper@.len(),
        allowances.lower@.len() > 0,
    ensures
        r@ == binarized(raw_class@, allowances.lower@, allowances.upper@),
{
    let attributes = allowances.lower.len();
    let mut r: Vec<u8> = Vec::new();
    let mut i: usize = 0;
    while i < raw_class.len()
        invariant
            attributes == allowances.lower@.len(),
            allowances.lower@.len() == allowances.upper@.len(),
            attributes > 0,
            i <= raw_class@.len(),
            r@.len() == i,
            forall|k: int| 0 <= k < i ==> #[trigger] r@[k] == binarized(raw_class@, allowances.lower@, allowances.upper@)[k],
        decreases raw_class@.len() - i,
    {
        let index = i % attributes;
        let x = raw_class[i];
        r.push(if x >= allowances.lower[index] && x <= allowances.upper[index] {
            u8::MAX
        } else {
            u8::MIN
        });
        i += 1;
    }
    assert(r@ =~= binarized(raw_class@, allowances.lower@, allowances.upper@));
    r
}

/// Majority vote per attribute over the realizations of a flattened binary matrix of
/// `size.1` realizations with `size.0` attributes: 255 where more than half of them are
/// 255, 0 otherwise (an exact half gives 0).
pub fn build_reference_vector(binary_class: &[u8], size: (usize, usize)) -> (r: Vec<u8>)
    requires
        binary_class@.len() == size.0 * size.1,
    ensures
        r@ == reference_of(binary_class@, size.0 as int, size.1 as int),
{
    let (attributes, realizations) = size;
    let total = binary_class.len();
    let mut vector: Vec<u8> = Vec::new();
    let mut i: usize = 0;
    while i < attributes
        invariant
            binary_class@.len() == attributes * realizations,
            total == binary_class@.len(),
            i <= attributes,
            vector@.len() == i,
            forall|a: int| 0 <= a < i ==> #[trigger] vector@[a] == majority(binary_class@, attributes as int, realizations as int, a),
        decreases attributes - i,
    {
        let mut count: usize = 0;
        let mut j: usize = 0;
        while j < realizations
            invariant
                binary_class@.len() == attributes * realizations,
                total == binary_class@.len(),
                i < attributes,
                j <= realizations,
                count == count_true(binary_class@, attributes as int, i as int, j as int),
                count <= j,
            decreases realizations - j,
        {
            proof {
                assert(i + j * attributes < attributes * realizations && j * attributes <= i + j * attributes) by (nonlinear_arith)
                    requires i < attributes, j < realizations;
            }
            if binary_class[i + j * attributes] == u8::MAX {
                count += 1;
            }
            j += 1;
        }
        vector.push(if count > realizations / 2 {
            u8::MAX
        } else {
            u8::MIN
        });
        i += 1;
    }
    assert(vector@ =~= reference_of(binary_class@, attributes as int, realizations as int));
    vector
}

/// Binary matrices of a set of classes and their reference vectors.
pub struct BinaryRepresentation {
    pub matrices: Vec<Vec<u8>>,
    pub reference_vectors: Vec<Vec<u8>>,
}

impl BinaryRepresentation {
    /// The matrices are the classes binarized against `allowances`, and the reference
    /// vectors their majority vectors.
    pub open spec fn represents(&self, classes: Seq<Vec<u8>>, size: (usize, usize), allowances: &Allowances) -> bool {
        &&& self.matrices@.len() == classes.len()
        &&& self.reference_vectors@.len() == classes.len()
        &&& forall|c: int|
            0 <= c < classes.len() ==> (#[trigger] self.matrices@[c])@ == binarized(
                classes[c]@,
                allowances.lower@,
                allowances.upper@,
            )
        &&& forall|c: int|
            0 <= c < classes.len() ==> (#[trigger] self.reference_vectors@[c])@ == reference_of(
                self.matrices@[c]@,
                size.0 as int,
                size.1 as int,
            )
    }

    /// Binarizes every class against `allowances` and builds its reference vector.
    pub fn new(classes: &[Vec<u8>], size: (usize, usize), allowances: &Allowances) -> (r: Self)
        requires
            size.0 > 0,
            allowances_fit(allowances, size.0 as nat),
            forall|c: int| 0 <= c < classes@.len() ==> (#[trigger] classes@[c])@.len() == size.0 * size.1,
        ensures
            r.represents(classes@, size, allowances),
    {
        let matrices = Self::calculate_binary_matrices(classes, allowances);
        let reference_vectors = Self::calculate_reference_vectors(&matrices, size);
        BinaryRepresentation { matrices, reference_vectors }
    }

    fn calculate_binary_matrices(classes: &[Vec<u8>], allowances: &Allowances) -> (r: Vec<Vec<u8>>)
        requires
            allowances.lower@.len() == allowances.upper@.len(),
            allowances.lower@.len() > 0,
        ensures
            r@.len() == classes@.len(),
            forall|c: int|
                0 <= c < classes@.len() ==> (#[trigger] r@[c])@ == binarized(
                    classes@[c]@,
                    allowances.lower@,
                    allowances.upper@,
                ),
    {
        let mut r: Vec<Vec<u8>> = Vec::new();
        let mut i: usize = 0;
        while i < classes.len()
            invariant
                allowances.lower@.len() == allowances.upper@.len(),
                allowances.lower@.len() > 0,
                i <= classes@.len(),
                r@.len() == i,
                forall|c: int|
                    0 <= c < i ==> (#[trigger] r@[c])@ == binarized(
                        classes@[c]@,
                        allowances.lower@,
                        allowances.upper@,
                    ),
            decreases classes@.len() - i,
        {
            r.push(binarize(classes[i].as_slice(), allowances));
            i += 1;
        }
        r
    }

    fn calculate_reference_vectors(matrices: &Vec<Vec<u8>>, size: (usize, usize)) -> (r: Vec<Vec<u8>>)
        requires
            forall|c: int| 0 <= c < matrices@.len() ==> (#[trigger] matrices@[c])@.len() == size.0 * size.1,
        ensures
            r@.len() == matrices@.len(),
            forall|c: int|
                0 <= c < matrices@.len() ==> (#[trigger] r@[c])@ == reference_of(
                    matrices@[c]@,
                    size.0 as int,
                    size.1 as int,
                ),
    {
        let mut r: Vec<Vec<u8>> = Vec::new();
        let mut i: usize = 0;
        while i < matrices.len()
            invariant
                forall|c: int| 0 <= c < matrices@.len() ==> (#[trigger] matrices@[c])@.len() == size.0 * size.1,
                i <= matrices@.len(),
                r@.len() == i,
                forall|c: int|
                    0 <= c < i ==> (#[trigger] r@[c])@ == reference_of(
                        matrices@[c]@,
                        size.0 as int,
                        size.1 as int,
                    ),
            decreases matrices@.len() - i,
        {
            r.push(build_reference_vector(matrices[i].as_slice(), size));
            i += 1;
        }
        r
    }
}

} // verus!
