//! Distances between reference vectors and realizations of all classes.
use vstd::prelude::*;
use crate::hamming::{chunk, hamming, lemma_hamming_bounded, lemma_hamming_step, profile};

verus! {

/// Index of the class nearest to class `i`, given `row[j]`, the distance from class `i` to
/// class `j`: the first `j != i` at minimum distance, or 0 when there is no other class.
pub open spec fn is_closest(row: Seq<u32>, i: int, c: int) -> bool {
    if row.len() <= 1 {
        c == 0
    } else {
        &&& 0 <= c < row.len()
        &&& c != i
        &&& forall|j: int| 0 <= j < row.len() && j != i ==> row[c] <= #[trigger] row[j]
        &&& forall|j: int| 0 <= j < c && j != i ==> row[c] < #[trigger] row[j]
    }
}

/// Shape shared by the classes handed to [`SKManager::new`]: as many reference vectors as
/// matrices, each reference vector `width` long, each matrix a whole number of realizations.
pub open spec fn same_shape(matrices: Seq<Vec<u8>>, reference_vectors: Seq<Vec<u8>>, width: nat) -> bool {
    &&& matrices.len() == reference_vectors.len()
    &&& 0 < width <= u32::MAX
    &&& forall|i: int| 0 <= i < reference_vectors.len() ==> (#[trigger] reference_vectors[i])@.len() == width
    &&& forall|i: int| 0 <= i < matrices.len() ==> (#[trigger] matrices[i])@.len() % width == 0
}

/// Distance record of one class against its closest class.
pub struct SK {
    /// Distances from the class's realizations to its own reference vector.
    pub distances_to_self: Vec<u32>,
    /// Distances from the closest class's realizations to this class's reference vector.
    pub distances_to_closest: Vec<u32>,
    /// Distances from the closest class's realizations to the closest reference vector.
    pub distances_from_closest_to_itself: Vec<u32>,
    /// Distances from this class's realizations to the closest reference vector.
    pub distances_from_closest: Vec<u32>,
    /// Distance between the two reference vectors.
    pub distance: u32,
    /// Index of the closest class.
    pub closest: usize,
    /// Kullback-optimal radii of this class.
    pub r_kullback: Vec<usize>,
    /// Shannon-optimal radii of this class.
    pub r_shannon: Vec<usize>,
}

impl SK {
    pub fn new(
        distances_to_self: Vec<u32>,
        distances_to_closest: Vec<u32>,
        distances_from_closest_to_itself: Vec<u32>,
        distances_from_closest: Vec<u32>,
        distance: u32,
        closest: usize,
    ) -> (r: SK)
        ensures
            r.distances_to_self@ == distances_to_self@,
            r.distances_to_closest@ == distances_to_closest@,
            r.distances_from_closest_to_itself@ == distances_from_closest_to_itself@,
            r.distances_from_closest@ == distances_from_closest@,
            r.distance == distance,
            r.closest == closest,
            r.r_kullback@.len() == 0,
            r.r_shannon@.len() == 0,
    {
        SK {
            distances_to_self,
            distances_to_closest,
            distances_from_closest_to_itself,
            distances_from_closest,
            distance,
            closest,
            r_kullback: Vec::new(),
            r_shannon: Vec::new(),
        }
    }

    pub fn set_radius(&mut self, r_kullback: Vec<usize>, r_shannon: Vec<usize>)
        ensures
            final(self).r_kullback@ == r_kullback@,
            final(self).r_shannon@ == r_shannon@,
            final(self).distances_to_self@ == old(self).distances_to_self@,
            final(self).distances_to_closest@ == old(self).distances_to_closest@,
            final(self).distances_from_closest_to_itself@ == old(
                self,
            ).distances_from_closest_to_itself@,
            final(self).distances_from_closest@ == old(self).distances_from_closest@,
            final(self).distance == old(self).distance,
            final(self).closest == old(self).closest,
    {
        self.r_kullback = r_kullback;
        self.r_shannon = r_shannon;
    }
}

/// Pairwise distances between classes and their closest-class records.
pub struct SKManager {
    pub sk: Vec<SK>,
    /// `distances[i][j]`: distance between the reference vectors of classes `i` and `j`.
    pub distances: Vec<Vec<u32>>,
    /// `distances_to_realizations[i][j]`: distances from the realizations of class `j`
    /// to the reference vector of class `i`.
    pub distances_to_realizations: Vec<Vec<Vec<u32>>>,
}

impl SKManager {
    /// `row[b]` is the distance between the reference vectors of classes `a` and `b`.
    pub open spec fn distance_row(row: Seq<u32>, a: int, reference_vectors: Seq<Vec<u8>>) -> bool {
        &&& row.len() == reference_vectors.len()
        &&& forall|b: int| 0 <= b < row.len() ==> #[trigger] row[b] == hamming(reference_vectors[a]@, reference_vectors[b]@)
    }

    /// `row[b]` holds the distances from the realizations of class `b` to the reference
    /// vector of class `a`.
    pub open spec fn profile_row(row: Seq<Vec<u32>>, a: int, matrices: Seq<Vec<u8>>, reference_vectors: Seq<Vec<u8>>) -> bool {
        &&& row.len() == matrices.len()
        &&& forall|b: int| 0 <= b < row.len() ==> (#[trigger] row[b])@ == profile(matrices[b]@, reference_vectors[a]@)
    }

    /// The record of class `a` against its closest class.
    pub open spec fn sk_record(sk: SK, a: int, distances: Seq<Vec<u32>>, distances_to_realizations: Seq<Vec<Vec<u32>>>) -> bool {
        let c = sk.closest as int;
        &&& is_closest(distances[a]@, a, c)
        &&& sk.distance == distances[a]@[c]
        &&& sk.distances_to_self@ == distances_to_realizations[a]@[a]@
        &&& sk.distances_to_closest@ == distances_to_realizations[a]@[c]@
        &&& sk.distances_from_closest_to_itself@ == distances_to_realizations[c]@[c]@
        &&& sk.distances_from_closest@ == distances_to_realizations[c]@[a]@
        &&& sk.r_kullback@.len() == 0
        &&& sk.r_shannon@.len() == 0
    }

    /// The manager holds the distances computed from `matrices` and `reference_vectors`.
    pub open spec fn wf(self, matrices: Seq<Vec<u8>>, reference_vectors: Seq<Vec<u8>>) -> bool {
        let n = matrices.len();
        &&& self.distances@.len() == n
        &&& self.distances_to_realizations@.len() == n
        &&& self.sk@.len() == n
        &&& forall|a: int| 0 <= a < n ==> Self::distance_row(#[trigger] self.distances@[a]@, a, reference_vectors)
        &&& forall|a: int| 0 <= a < n ==> Self::profile_row(#[trigger] self.distances_to_realizations@[a]@, a, matrices, reference_vectors)
        &&& forall|a: int| 0 <= a < n ==> Self::sk_record(#[trigger] self.sk@[a], a, self.distances@, self.distances_to_realizations@)
    }

    /// Computes every distance between reference vectors, every distance from the
    /// realizations of a class to the reference vector of a class, and for each class
    /// the record against its closest class.
    pub fn new(matrices: &[Vec<u8>], reference_vectors: &[Vec<u8>]) -> (r: SKManager)
        requires
            matrices@.len() > 0 ==> same_shape(matrices@, reference_vectors@, reference_vectors@[0]@.len()),
            matrices@.len() == reference_vectors@.len(),
        ensures
            r.wf(matrices@, reference_vectors@),
    {
        let n = matrices.len();
        let mut distances: Vec<Vec<u32>> = Vec::new();
        let mut distances_to_realizations: Vec<Vec<Vec<u32>>> = Vec::new();
        let mut i: usize = 0;
        while i < n
            invariant
                n == matrices@.len(),
                n > 0 ==> same_shape(matrices@, reference_vectors@, reference_vectors@[0]@.len()),
                n == reference_vectors@.len(),
                i <= n,
                distances@.len() == i,
                distances_to_realizations@.len() == i,
                forall|a: int| 0 <= a < i ==> Self::distance_row(#[trigger] distances@[a]@, a, reference_vectors@),
                forall|a: int| 0 <= a < i ==> Self::profile_row(#[trigger] distances_to_realizations@[a]@, a, matrices@, reference_vectors@),
            decreases n - i,
        {
            let mut row: Vec<u32> = Vec::new();
            let mut profiles: Vec<Vec<u32>> = Vec::new();
            let mut j: usize = 0;
            while j < n
                invariant
                    n == matrices@.len(),
                    n > 0 ==> same_shape(matrices@, reference_vectors@, reference_vectors@[0]@.len()),
                    n == reference_vectors@.len(),
                    i < n,
                    j <= n,
                    row@.len() == j,
                    profiles@.len() == j,
                    forall|b: int| 0 <= b < j ==> #[trigger] row@[b] == hamming(reference_vectors@[i as int]@, reference_vectors@[b]@),
                    forall|b: int| 0 <= b < j ==> (#[trigger] profiles@[b])@ == profile(matrices@[b]@, reference_vectors@[i as int]@),
                decreases n - j,
            {
                let ghost w = reference_vectors@[0]@.len();
                assert(reference_vectors@[i as int]@.len() == w);
                assert(reference_vectors@[j as int]@.len() == w);
                assert(matrices@[j as int]@.len() % w == 0);
                row.push(Self::distance_between(reference_vectors[i].as_slice(), reference_vectors[j].as_slice()));
                profiles.push(Self::distances_between(matrices[j].as_slice(), reference_vectors[i].as_slice()));
                j += 1;
            }
            distances.push(row);
            distances_to_realizations.push(profiles);
            i += 1;
        }
        let mut sk: Vec<SK> = Vec::new();
        let mut i: usize = 0;
        while i < n
            invariant
                n == matrices@.len(),
                n == reference_vectors@.len(),
                distances@.len() == n,
                distances_to_realizations@.len() == n,
                forall|a: int| 0 <= a < n ==> Self::distance_row(#[trigger] distances@[a]@, a, reference_vectors@),
                forall|a: int| 0 <= a < n ==> Self::profile_row(#[trigger] distances_to_realizations@[a]@, a, matrices@, reference_vectors@),
                i <= n,
                sk@.len() == i,
                forall|a: int| 0 <= a < i ==> Self::sk_record(#[trigger] sk@[a], a, distances@, distances_to_realizations@),
            decreases n - i,
        {
            let closest = Self::closest_to(&distances[i], i);
            assert(closest < n);
            let record = SK::new(
                distances_to_realizations[i][i].clone(),
                distances_to_realizations[i][closest].clone(),
                distances_to_realizations[closest][closest].clone(),
                distances_to_realizations[closest][i].clone(),
                distances[i][closest],
                closest,
            );
            assert(distances_to_realizations[i as int][i as int]@ =~= record.distances_to_self@);
            assert(distances_to_realizations[i as int][closest as int]@ =~= record.distances_to_closest@);
            assert(distances_to_realizations[closest as int][closest as int]@ =~= record.distances_from_closest_to_itself@);
            assert(distances_to_realizations[closest as int][i as int]@ =~= record.distances_from_closest@);
            sk.push(record);
            i += 1;
        }
        SKManager { sk, distances, distances_to_realizations }
    }

    /// Index of the class nearest to class `i` by the distances in `row`.
    fn closest_to(row: &Vec<u32>, i: usize) -> (c: usize)
        requires
            i < row@.len(),
        ensures
            is_closest(row@, i as int, c as int),
            c < row@.len(),
    {
        if row.len() <= 1 {
            return 0;
        }
        let mut best: usize = if i == 0 { 1 } else { 0 };
        let mut j: usize = best + 1;
        while j < row.len()
            invariant
                row@.len() > 1,
                i < row@.len(),
                best < j <= row@.len(),
                best != i,
                forall|b: int| 0 <= b < best && b != i ==> row@[best as int] < #[trigger] row@[b],
                forall|b: int| 0 <= b < j && b != i ==> row@[best as int] <= #[trigger] row@[b],
            decreases row@.len() - j,
        {
            if j != i && row[j] < row[best] {
                best = j;
            }
            j += 1;
        }
        best
    }

    /// Returns the Hamming distance between two vectors of the same length.
    pub fn distance_between(vector1: &[u8], vector2: &[u8]) -> (r: u32)
        requires
            vector1@.len() == vector2@.len(),
            vector1@.len() <= u32::MAX,
        ensures
            r == hamming(vector1@, vector2@),
    {
        let mut sum: u32 = 0;
        let mut i: usize = 0;
        while i < vector1.len()
            invariant
                vector1@.len() == vector2@.len(),
                vector1@.len() <= u32::MAX,
                i <= vector1@.len(),
                sum == hamming(vector1@.subrange(0, i as int), vector2@.subrange(0, i as int)),
            decreases vector1@.len() - i,
        {
            proof {
                lemma_hamming_step(vector1@, vector2@, i as int);
                lemma_hamming_bounded(vector1@.subrange(0, i as int), vector2@.subrange(0, i as int));
            }
            if vector2[i] != vector1[i] {
                sum += 1;
            }
            i += 1;
        }
        assert(vector1@.subrange(0, i as int) =~= vector1@);
        assert(vector2@.subrange(0, i as int) =~= vector2@);
        sum
    }

    /// Distance between the realization of `realizations` that starts at `start` and `center`.
    fn distance_at(realizations: &[u8], start: usize, center: &[u8]) -> (r: u32)
        requires
            start + center@.len() <= realizations@.len(),
            center@.len() <= u32::MAX,
        ensures
            r == hamming(realizations@.subrange(start as int, start + center@.len()), center@),
    {
        let ghost part = realizations@.subrange(start as int, start + center@.len());
        let total = realizations.len();
        let mut sum: u32 = 0;
        let mut i: usize = 0;
        while i < center.len()
            invariant
                start + center@.len() <= realizations@.len(),
                total == realizations@.len(),
                center@.len() <= u32::MAX,
                part == realizations@.subrange(start as int, start + center@.len()),
                i <= center@.len(),
                sum == hamming(part.subrange(0, i as int), center@.subrange(0, i as int)),
            decreases center@.len() - i,
        {
            proof {
                lemma_hamming_step(part, center@, i as int);
                lemma_hamming_bounded(part.subrange(0, i as int), center@.subrange(0, i as int));
            }
            if realizations[start + i] != center[i] {
                sum += 1;
            }
            i += 1;
        }
        assert(part.subrange(0, i as int) =~= part);
        assert(center@.subrange(0, i as int) =~= center@);
        sum
    }

    /// Returns the distance from each realization of a flattened matrix to `center`,
    /// in the order of the realizations.
    pub fn distances_between(realizations: &[u8], center: &[u8]) -> (r: Vec<u32>)
        requires
            center@.len() > 0,
            center@.len() <= u32::MAX,
            realizations@.len() % center@.len() == 0,
        ensures
            r@ == profile(realizations@, center@),
    {
        let width = center.len();
        let ghost n = realizations@.len() as int / width as int;
        proof {
            vstd::arithmetic::div_mod::lemma_fundamental_div_mod(realizations@.len() as int, width as int);
            vstd::arithmetic::mul::lemma_mul_is_commutative(n, width as int);
        }
        let mut r: Vec<u32> = Vec::new();
        let mut start: usize = 0;
        assert(start == r@.len() * width) by (nonlinear_arith)
            requires start == 0, r@.len() == 0;
        while start < realizations.len()
            invariant
                width == center@.len(),
                width > 0,
                width <= u32::MAX,
                n == realizations@.len() as int / width as int,
                realizations@.len() == n * width,
                start == r@.len() * width,
                r@.len() <= n,
                forall|k: int| 0 <= k < r@.len() ==> r@[k] == profile(realizations@, center@)[k],
            decreases realizations@.len() - start,
        {
            let ghost k = r@.len() as int;
            assert(k < n) by (nonlinear_arith)
                requires start == k * width, start < n * width, width > 0;
            assert(start + width <= realizations@.len()) by (nonlinear_arith)
                requires start == k * width, k < n, realizations@.len() == n * width;
            let d = Self::distance_at(realizations, start, center);
            assert(realizations@.subrange(start as int, start + width) == chunk(realizations@, width as nat, k));
            r.push(d);
            start += width;
            assert(start == r@.len() * width) by (nonlinear_arith)
                requires start == k * width + width, r@.len() == k + 1;
        }
        assert(r@.len() == n) by (nonlinear_arith)
            requires start == r@.len() * width, start >= n * width, r@.len() <= n, width > 0;
        assert(r@ =~= profile(realizations@, center@));
        r
    }
}

} // verus!
