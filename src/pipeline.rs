//! The whole recompute chain as one function, and the choice of tolerance.
use vstd::prelude::*;
use crate::binary_representation::{BinaryRepresentation, binarized, reference_of};
use crate::corridor::{Corridor, build_corridor};
use crate::criteria::{Criteria, in_working_space};
use crate::exam_data::{ExamResult, decides, exam, profiles_of, radii_of};
use crate::hamming::profile;
use crate::sk_manager::SKManager;

verus! {

/// Classes of one shape: `size.1` realizations of `size.0` attributes each, flattened.
pub open spec fn classes_fit(classes: Seq<Vec<u8>>, size: (usize, usize)) -> bool {
    forall|c: int| 0 <= c < classes.len() ==> (#[trigger] classes[c])@.len() == size.0 * size.1
}

/// Everything derived from the training and exam classes for one base class and tolerance.
pub struct ClassificationState {
    pub corridor: Corridor,
    pub binary_representation: BinaryRepresentation,
    pub exam_binary_representation: BinaryRepresentation,
    pub sk_manager: SKManager,
    pub criterias: Vec<Criteria>,
    pub exam_data: Vec<ExamResult>,
}

impl ClassificationState {
    /// The state is the chain computed from these inputs.
    pub open spec fn computed(
        &self,
        classes: Seq<Vec<u8>>,
        exam_classes: Seq<Vec<u8>>,
        size: (usize, usize),
        base_class: int,
        delta: u8,
    ) -> bool {
        let binary = self.binary_representation;
        &&& self.corridor.wf()
        &&& self.corridor.expects(classes[base_class]@, size)
        &&& self.corridor.delta == delta
        &&& binary.represents(classes, size, &self.corridor.allowances)
        &&& self.exam_binary_representation.represents(exam_classes, size, &self.corridor.allowances)
        &&& self.sk_manager.wf(binary.matrices@, binary.reference_vectors@)
        &&& self.criterias@.len() == classes.len()
        &&& forall|i: int|
            0 <= i < classes.len() ==> {
                &&& (#[trigger] self.criterias@[i]).wf()
                &&& self.criterias@[i].computed_from(i, self.sk_manager.distances_to_realizations@[i]@, size.1 as int)
            }
        &&& self.exam_data@.len() == exam_classes.len()
        &&& forall|m: int|
            0 <= m < exam_classes.len() ==> decides(
                #[trigger] self.exam_data@[m],
                profiles_of(binary.reference_vectors@, self.exam_binary_representation.matrices@[m]@),
                radii_of(self.criterias@),
                size.1 as int,
            )
    }

    /// Builds the corridor of the base class with tolerance `delta`, binarizes the training
    /// and exam classes against it, builds the reference vectors, the distances and the
    /// criteria of every class, and examines the exam classes.
    pub fn compute(
        classes: &[Vec<u8>],
        exam_classes: &[Vec<u8>],
        size: (usize, usize),
        base_class: usize,
        delta: u8,
    ) -> (r: ClassificationState)
        requires
            base_class < classes@.len(),
            0 < size.0 <= u32::MAX,
            classes@.len() * size.1 <= usize::MAX,
            classes_fit(classes@, size),
            classes_fit(exam_classes@, size),
        ensures
            r.computed(classes@, exam_classes@, size, base_class as int, delta),
    {
        let (w, h) = size;
        let corridor = build_corridor(classes[base_class].as_slice(), size, delta);
        let binary = BinaryRepresentation::new(classes, size, &corridor.allowances);
        let exam_binary = BinaryRepresentation::new(exam_classes, size, &corridor.allowances);
        let ghost mats = binary.matrices@;
        let ghost refs = binary.reference_vectors@;
        proof {
            vstd::arithmetic::div_mod::lemma_mod_multiples_basic(h as int, w as int);
            vstd::arithmetic::div_mod::lemma_div_multiples_vanish(h as int, w as int);
            assert(w * h == h * w) by (nonlinear_arith);
            assert forall|c: int| 0 <= c < mats.len() implies (#[trigger] mats[c])@.len() == w * h by {
                assert(mats[c]@ == binarized(classes@[c]@, corridor.allowances.lower@, corridor.allowances.upper@));
            }
            assert forall|c: int| 0 <= c < refs.len() implies (#[trigger] refs[c])@.len() == w by {
                assert(refs[c]@ == reference_of(mats[c]@, w as int, h as int));
            }
        }
        let sk_manager = SKManager::new(&binary.matrices, &binary.reference_vectors);
        let n = classes.len();
        let mut criterias: Vec<Criteria> = Vec::new();
        let mut i: usize = 0;
        while i < n
            invariant
                n == classes@.len(),
                n * h <= usize::MAX,
                w > 0,
                mats == binary.matrices@,
                refs == binary.reference_vectors@,
                mats.len() == n,
                refs.len() == n,
                forall|c: int| 0 <= c < mats.len() ==> (#[trigger] mats[c])@.len() == w * h,
                forall|c: int| 0 <= c < refs.len() ==> (#[trigger] refs[c])@.len() == w,
                (w * h) / (w as int) == h,
                sk_manager.wf(mats, refs),
                i <= n,
                criterias@.len() == i,
                forall|a: int|
                    0 <= a < i ==> {
                        &&& (#[trigger] criterias@[a]).wf()
                        &&& criterias@[a].computed_from(a, sk_manager.distances_to_realizations@[a]@, h as int)
                    },
            decreases n - i,
        {
            let row = &sk_manager.distances_to_realizations[i];
            proof {
                assert(SKManager::profile_row(row@, i as int, mats, refs));
                assert forall|j: int| 0 <= j < row@.len() implies (#[trigger] row@[j])@.len() == h by {
                    assert(row@[j]@ == profile(mats[j]@, refs[i as int]@));
                }
            }
            criterias.push(Criteria::new(i, row.as_slice(), h));
            i += 1;
        }
        let exam_data = exam(&binary.reference_vectors, &exam_binary.matrices, &criterias, h);
        ClassificationState {
            corridor,
            binary_representation: binary,
            exam_binary_representation: exam_binary,
            sk_manager,
            criterias,
            exam_data,
        }
    }
}

/// Whether every class has a radius in `optimal_radii` (the radius that maximizes the
/// criterion used to rank tolerances) at which both of its rates are defined and at
/// least 1/2, the working-space constraint.
pub fn all_in_working_space(criterias: &[Criteria], optimal_radii: &[Option<usize>]) -> (r: bool)
    requires
        criterias@.len() == optimal_radii@.len(),
    ensures
        r == forall|i: int|
            0 <= i < criterias@.len() ==> match #[trigger] optimal_radii@[i] {
                Some(x) => x < criterias@[i].characteristics@.len() && in_working_space(criterias@[i].characteristics@[x as int]),
                None => false,
            },
{
    let mut i: usize = 0;
    while i < criterias.len()
        invariant
            criterias@.len() == optimal_radii@.len(),
            i <= criterias@.len(),
            forall|a: int|
                0 <= a < i ==> match #[trigger] optimal_radii@[a] {
                    Some(x) => x < criterias@[a].characteristics@.len() && in_working_space(criterias@[a].characteristics@[x as int]),
                    None => false,
                },
        decreases criterias@.len() - i,
    {
        match optimal_radii[i] {
            Some(x) => {
                if x >= criterias[i].characteristics.len() {
                    return false;
                }
                let c = &criterias[i].characteristics[x];
                if !(c.own_total > 0 && c.others_total > 0 && 2 * (c.d1 as u128) >= c.own_total as u128
                    && 2 * (c.d2 as u128) >= c.others_total as u128) {
                    return false;
                }
            },
            None => {
                return false;
            },
        }
        i += 1;
    }
    true
}

/// Picks the tolerance to keep after a sweep: among the tolerances `t` with `eligible[t]`,
/// the one with the highest `scores[t]`, the last one on ties; 0 when none is eligible.
pub fn select_best_delta(scores: &[u64], eligible: &[bool]) -> (r: u8)
    requires
        scores@.len() == eligible@.len(),
        scores@.len() <= 256,
    ensures
        !(exists|t: int| 0 <= t < eligible@.len() && #[trigger] eligible@[t]) ==> r == 0,
        (exists|t: int| 0 <= t < eligible@.len() && #[trigger] eligible@[t]) ==> {
            &&& r < eligible@.len()
            &&& eligible@[r as int]
            &&& forall|t: int|
                0 <= t < eligible@.len() && #[trigger] eligible@[t] ==> {
                    &&& scores@[t] <= scores@[r as int]
                    &&& t > r ==> scores@[t] < scores@[r as int]
                }
        },
{
    let mut best: Option<usize> = None;
    let mut t: usize = 0;
    while t < scores.len()
        invariant
            scores@.len() == eligible@.len(),
            scores@.len() <= 256,
            t <= scores@.len(),
            best is None ==> forall|k: int| 0 <= k < t ==> !#[trigger] eligible@[k],
            best matches Some(b) ==> {
                &&& b < t
                &&& eligible@[b as int]
                &&& forall|k: int|
                    0 <= k < t && #[trigger] eligible@[k] ==> {
                        &&& scores@[k] <= scores@[b as int]
                        &&& k > b ==> scores@[k] < scores@[b as int]
                    }
            },
        decreases scores@.len() - t,
    {
        if eligible[t] {
            match best {
                None => {
                    best = Some(t);
                },
                Some(b) => {
                    if scores[t] >= scores[b] {
                        best = Some(t);
                    }
                },
            }
        }
        t += 1;
    }
    match best {
        Some(b) => b as u8,
        None => 0,
    }
}

} // verus!
