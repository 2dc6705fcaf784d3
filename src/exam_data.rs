//! Classification of exam realizations against the classes' decision balls.
use vstd::prelude::*;
use crate::criteria::Criteria;
use crate::hamming::profile;
use crate::sk_manager::SKManager;

verus! {

/// Per class, the number of realizations that only its ball contains; and the number of
/// realizations left to no single class.
pub type ExamRealizationResults = (Vec<usize>, usize);

/// Decision for one exam matrix, with its realization tally.
#[derive(Debug)]
pub enum ExamResult {
    Found(usize, ExamRealizationResults),
    Unknown(ExamRealizationResults),
}

impl ExamResult {
    pub open spec fn tally(&self) -> ExamRealizationResults {
        match self {
            ExamResult::Found(_, t) => *t,
            ExamResult::Unknown(t) => *t,
        }
    }
}

/// The ball of class `i` (radius `radii[i]`) contains realization `k`; a zero radius
/// contains nothing.
pub open spec fn contains(d: Seq<Seq<u32>>, radii: Seq<int>, i: int, k: int) -> bool {
    radii[i] > 0 && d[i][k] < radii[i]
}

/// Class `i` alone contains realization `k`.
pub open spec fn exclusive(d: Seq<Seq<u32>>, radii: Seq<int>, i: int, k: int) -> bool {
    &&& contains(d, radii, i, k)
    &&& forall|j: int| 0 <= j < d.len() && j != i ==> !#[trigger] contains(d, radii, j, k)
}

/// Number of the first `n` realizations that class `i` alone contains.
pub open spec fn exclusive_count(d: Seq<Seq<u32>>, radii: Seq<int>, i: int, n: int) -> nat
    decreases n,
{
    if n <= 0 {
        0
    } else {
        exclusive_count(d, radii, i, n - 1) + if exclusive(d, radii, i, n - 1) {
            1nat
        } else {
            0nat
        }
    }
}

/// Sum of the first `n` values of `s`.
pub open spec fn distance_sum(s: Seq<u32>, n: int) -> nat
    decreases n,
{
    if n <= 0 {
        0
    } else {
        distance_sum(s, n - 1) + s[n - 1] as nat
    }
}

/// Class `i` claims the exam matrix: its radius is positive and the mean of
/// `1 - distance / radius` over the `realizations` realizations is positive.
pub open spec fn claims(d: Seq<Seq<u32>>, radii: Seq<int>, i: int, realizations: int) -> bool {
    radii[i] > 0 && distance_sum(d[i], realizations) < realizations * radii[i]
}

/// Class `c` and no other claims the exam matrix.
pub open spec fn unique_claimer(d: Seq<Seq<u32>>, radii: Seq<int>, c: int, realizations: int) -> bool {
    &&& 0 <= c < d.len()
    &&& claims(d, radii, c, realizations)
    &&& forall|j: int| 0 <= j < d.len() && j != c ==> !#[trigger] claims(d, radii, j, realizations)
}

/// Sum of the values of `s`.
pub open spec fn seq_sum(s: Seq<usize>) -> int
    decreases s.len(),
{
    if s.len() == 0 {
        0
    } else {
        seq_sum(s.drop_last()) + s.last()
    }
}

/// `res` is the decision for realizations at distances `d[i]` from the reference vector of
/// class `i`, with containment radii `radii`.
pub open spec fn decides(res: ExamResult, d: Seq<Seq<u32>>, radii: Seq<int>, realizations: int) -> bool {
    let (results, unknown) = res.tally();
    &&& results@.len() == d.len()
    &&& forall|i: int| 0 <= i < d.len() ==> #[trigger] results@[i] == exclusive_count(d, radii, i, realizations)
    &&& unknown == realizations - seq_sum(results@)
    &&& match res {
        ExamResult::Found(c, _) => unique_claimer(d, radii, c as int, realizations),
        ExamResult::Unknown(_) => !exists|c: int| #[trigger] unique_claimer(d, radii, c, realizations),
    }
}

/// Distances from each realization of `m` to each reference vector.
pub open spec fn profiles_of(reference_vectors: Seq<Vec<u8>>, m: Seq<u8>) -> Seq<Seq<u32>> {
    Seq::new(reference_vectors.len(), |i: int| profile(m, reference_vectors[i]@))
}

/// Containment radius of each class.
pub open spec fn radii_of(criterias: Seq<Criteria>) -> Seq<int> {
    Seq::new(criterias.len(), |i: int| criterias[i].spec_min_radius())
}

/// Reference vectors of one nonzero length `w` (at most `u32::MAX`), and exam matrices of
/// `realizations` realizations of that length.
pub open spec fn exam_shape(reference_vectors: Seq<Vec<u8>>, exam_matrices: Seq<Vec<u8>>, realizations: int) -> bool {
    reference_vectors.len() > 0 ==> {
        let w = reference_vectors[0]@.len();
        &&& 0 < w <= u32::MAX
        &&& forall|i: int| 0 <= i < reference_vectors.len() ==> (#[trigger] reference_vectors[i])@.len() == w
        &&& forall|m: int| 0 <= m < exam_matrices.len() ==> (#[trigger] exam_matrices[m])@.len() == w * realizations
    }
}

/// The rows of `d` as sequences.
pub open spec fn views(d: Seq<Vec<u32>>) -> Seq<Seq<u32>> {
    d.map_values(|v: Vec<u32>| v@)
}

/// The values of `s` as integers.
pub open spec fn ints(s: Seq<usize>) -> Seq<int> {
    s.map_values(|x: usize| x as int)
}

proof fn lemma_seq_sum_update(s: Seq<usize>, c: int, v: usize)
    requires
        0 <= c < s.len(),
    ensures
        seq_sum(s.update(c, v)) == seq_sum(s) - s[c] + v,
    decreases s.len(),
{
    if c < s.len() - 1 {
        lemma_seq_sum_update(s.drop_last(), c, v);
        assert(s.update(c, v).drop_last() =~= s.drop_last().update(c, v));
    } else {
        assert(s.update(c, v).drop_last() =~= s.drop_last());
    }
}

proof fn lemma_exclusive_count_bounded(d: Seq<Seq<u32>>, radii: Seq<int>, i: int, n: int)
    requires
        0 <= n,
    ensures
        exclusive_count(d, radii, i, n) <= n,
    decreases n,
{
    if n > 0 {
        lemma_exclusive_count_bounded(d, radii, i, n - 1);
    }
}

proof fn lemma_seq_sum_zeros(s: Seq<usize>)
    requires
        forall|i: int| 0 <= i < s.len() ==> s[i] == 0,
    ensures
        seq_sum(s) == 0,
    decreases s.len(),
{
    if s.len() > 0 {
        lemma_seq_sum_zeros(s.drop_last());
    }
}

proof fn lemma_distance_sum_bounded(s: Seq<u32>, n: int)
    requires
        0 <= n <= s.len(),
    ensures
        distance_sum(s, n) <= n * u32::MAX,
    decreases n,
{
    if n > 0 {
        lemma_distance_sum_bounded(s, n - 1);
        assert((n - 1) * u32::MAX + u32::MAX == n * u32::MAX) by (nonlinear_arith);
    }
}

/// Whether class `i`'s ball contains realization `k`.
fn ball_contains(d: &Vec<Vec<u32>>, radii: &Vec<usize>, i: usize, k: usize) -> (r: bool)
    requires
        i < d@.len(),
        i < radii@.len(),
        k < d@[i as int]@.len(),
    ensures
        r == contains(views(d@), ints(radii@), i as int, k as int),
{
    radii[i] > 0 && (d[i][k] as usize) < radii[i]
}

/// Whether a class other than `i` contains realization `k`.
fn other_contains(d: &Vec<Vec<u32>>, radii: &Vec<usize>, i: usize, k: usize) -> (r: bool)
    requires
        d@.len() == radii@.len(),
        forall|j: int| 0 <= j < d@.len() ==> k < (#[trigger] d@[j])@.len(),
    ensures
        r == exists|j: int| 0 <= j < d@.len() && j != i && #[trigger] contains(views(d@), ints(radii@), j, k as int),
{
    let mut j: usize = 0;
    while j < d.len()
        invariant
            d@.len() == radii@.len(),
            forall|j: int| 0 <= j < d@.len() ==> k < (#[trigger] d@[j])@.len(),
            j <= d@.len(),
            forall|b: int| 0 <= b < j && b != i ==> !#[trigger] contains(views(d@), ints(radii@), b, k as int),
        decreases d@.len() - j,
    {
        if j != i && ball_contains(d, radii, j, k) {
            return true;
        }
        j += 1;
    }
    false
}

/// Sum of the distances of row `d`.
fn row_sum(d: &Vec<u32>) -> (r: u128)
    ensures
        r == distance_sum(d@, d@.len() as int),
{
    let mut sum: u128 = 0;
    let mut k: usize = 0;
    while k < d.len()
        invariant
            k <= d@.len(),
            sum == distance_sum(d@, k as int),
        decreases d@.len() - k,
    {
        proof {
            lemma_distance_sum_bounded(d@, k as int);
            assert(k * u32::MAX + u32::MAX <= u128::MAX) by (nonlinear_arith)
                requires k <= usize::MAX;
        }
        sum = sum + d[k] as u128;
        k += 1;
    }
    sum
}

/// Decides one exam matrix from the distances `d[i]` of its realizations to the reference
/// vector of class `i` and the containment radii.
fn exam_one(d: &Vec<Vec<u32>>, radii: &Vec<usize>, realizations: usize) -> (r: ExamResult)
    requires
        d@.len() == radii@.len(),
        forall|j: int| 0 <= j < d@.len() ==> (#[trigger] d@[j])@.len() == realizations,
    ensures
        decides(r, views(d@), ints(radii@), realizations as int),
{
    let ghost dv = views(d@);
    let ghost rv = ints(radii@);
    let n = d.len();
    let mut results: Vec<usize> = Vec::new();
    while results.len() < n
        invariant
            results@.len() <= n,
            forall|i: int| 0 <= i < results@.len() ==> #[trigger] results@[i] == 0,
        decreases n - results@.len(),
    {
        results.push(0);
    }
    proof {
        lemma_seq_sum_zeros(results@);
    }
    let mut unknown: usize = 0;
    let mut k: usize = 0;
    while k < realizations
        invariant
            dv == views(d@),
            rv == ints(radii@),
            n == d@.len(),
            d@.len() == radii@.len(),
            forall|j: int| 0 <= j < d@.len() ==> (#[trigger] d@[j])@.len() == realizations,
            k <= realizations,
            results@.len() == n,
            forall|i: int| 0 <= i < n ==> #[trigger] results@[i] == exclusive_count(dv, rv, i, k as int),
            seq_sum(results@) + unknown == k,
            unknown <= k,
        decreases realizations - k,
    {
        let mut found = false;
        let mut i: usize = 0;
        while i < n
            invariant
                dv == views(d@),
                rv == ints(radii@),
                n == d@.len(),
                d@.len() == radii@.len(),
                forall|j: int| 0 <= j < d@.len() ==> (#[trigger] d@[j])@.len() == realizations,
                k < realizations,
                i <= n,
                results@.len() == n,
                forall|a: int| 0 <= a < i ==> #[trigger] results@[a] == exclusive_count(dv, rv, a, k + 1),
                forall|a: int| i <= a < n ==> #[trigger] results@[a] == exclusive_count(dv, rv, a, k as int),
                found <==> exists|a: int| 0 <= a < i && #[trigger] exclusive(dv, rv, a, k as int),
                seq_sum(results@) + unknown == k + if found { 1int } else { 0int },
                unknown <= k,
            decreases n - i,
        {
            let alone = ball_contains(d, radii, i, k) && !other_contains(d, radii, i, k);
            proof {
                assert(dv[i as int] == d@[i as int]@);
                assert(alone == exclusive(dv, rv, i as int, k as int));
            }
            if alone {
                proof {
                    if found {
                        let a = choose|a: int| 0 <= a < i && #[trigger] exclusive(dv, rv, a, k as int);
                        assert(contains(dv, rv, i as int, k as int));
                        assert(false);
                    }
                    lemma_exclusive_count_bounded(dv, rv, i as int, k as int);
                    lemma_seq_sum_update(results@, i as int, (results@[i as int] + 1) as usize);
                }
                let v = results[i] + 1;
                results.set(i, v);
                found = true;
            }
            i += 1;
        }
        if !found {
            unknown += 1;
        }
        k += 1;
    }
    proof {
        assert forall|i: int| 0 <= i < n implies #[trigger] results@[i] == exclusive_count(dv, rv, i, realizations as int) by {}
    }
    let mut first: Option<usize> = None;
    let mut multiple = false;
    let mut i: usize = 0;
    while i < n
        invariant
            dv == views(d@),
            rv == ints(radii@),
            n == d@.len(),
            d@.len() == radii@.len(),
            forall|j: int| 0 <= j < d@.len() ==> (#[trigger] d@[j])@.len() == realizations,
            i <= n,
            first is None ==> forall|a: int| 0 <= a < i ==> !#[trigger] claims(dv, rv, a, realizations as int),
            first matches Some(c) ==> {
                &&& c < i
                &&& claims(dv, rv, c as int, realizations as int)
                &&& !multiple ==> forall|a: int| 0 <= a < i && a != c ==> !#[trigger] claims(dv, rv, a, realizations as int)
                &&& multiple ==> exists|a: int| 0 <= a < i && a != c && #[trigger] claims(dv, rv, a, realizations as int)
            },
            multiple ==> first is Some,
        decreases n - i,
    {
        let sum = row_sum(&d[i]);
        proof {
            assert(dv[i as int] == d@[i as int]@);
            assert(rv[i as int] == radii@[i as int]);
            assert((realizations as u128) * (radii[i as int] as u128) <= u128::MAX) by (nonlinear_arith)
                requires realizations <= usize::MAX, radii[i as int] <= usize::MAX;
        }
        let claimed = radii[i] > 0 && sum < (realizations as u128) * (radii[i] as u128);
        assert(claimed == claims(dv, rv, i as int, realizations as int));
        if claimed {
            match first {
                None => {
                    first = Some(i);
                },
                Some(c) => {
                    multiple = true;
                    assert(i != c);
                },
            }
        }
        i += 1;
    }
    let tally: ExamRealizationResults = (results, unknown);
    match first {
        Some(c) => {
            if !multiple {
                return ExamResult::Found(c, tally);
            }
            proof {
                assert forall|x: int| !#[trigger] unique_claimer(dv, rv, x, realizations as int) by {
                    let a = choose|a: int| 0 <= a < n && a != c && #[trigger] claims(dv, rv, a, realizations as int);
                    if unique_claimer(dv, rv, x, realizations as int) {
                        if x != c {
                            assert(claims(dv, rv, c as int, realizations as int));
                        } else {
                            assert(claims(dv, rv, a, realizations as int));
                        }
                    }
                }
            }
            ExamResult::Unknown(tally)
        },
        None => {
            proof {
                assert forall|x: int| !#[trigger] unique_claimer(dv, rv, x, realizations as int) by {}
            }
            ExamResult::Unknown(tally)
        },
    }
}

/// Classifies each exam matrix of `realizations` realizations: class `i` contains a
/// realization when its containment radius (the smallest Kullback-optimal radius of
/// `criterias[i]`) is positive and exceeds the realization's distance to the class's
/// reference vector. The tally counts, per class, the realizations that it alone contains,
/// and the rest. The matrix is `Found` in the one class whose mean of
/// `1 - distance / radius` is positive, when there is exactly one such class.
pub fn exam(
    reference_vectors: &[Vec<u8>],
    exam_matrices: &[Vec<u8>],
    criterias: &[Criteria],
    realizations: usize,
) -> (r: Vec<ExamResult>)
    requires
        reference_vectors@.len() == criterias@.len(),
        forall|i: int| 0 <= i < criterias@.len() ==> (#[trigger] criterias@[i]).wf(),
        exam_shape(reference_vectors@, exam_matrices@, realizations as int),
    ensures
        r@.len() == exam_matrices@.len(),
        forall|m: int|
            0 <= m < exam_matrices@.len() ==> decides(
                #[trigger] r@[m],
                profiles_of(reference_vectors@, exam_matrices@[m]@),
                radii_of(criterias@),
                realizations as int,
            ),
{
    let n = criterias.len();
    let mut radii: Vec<usize> = Vec::new();
    let mut i: usize = 0;
    while i < n
        invariant
            n == criterias@.len(),
            forall|i: int| 0 <= i < criterias@.len() ==> (#[trigger] criterias@[i]).wf(),
            i <= n,
            radii@.len() == i,
            forall|a: int| 0 <= a < i ==> #[trigger] radii@[a] as int == criterias@[a].spec_min_radius(),
        decreases n - i,
    {
        radii.push(criterias[i].min_radius());
        i += 1;
    }
    assert(ints(radii@) =~= radii_of(criterias@));
    let mut r: Vec<ExamResult> = Vec::new();
    let mut m: usize = 0;
    while m < exam_matrices.len()
        invariant
            n == criterias@.len(),
            reference_vectors@.len() == n,
            radii@.len() == n,
            ints(radii@) == radii_of(criterias@),
            exam_shape(reference_vectors@, exam_matrices@, realizations as int),
            m <= exam_matrices@.len(),
            r@.len() == m,
            forall|b: int|
                0 <= b < m ==> decides(
                    #[trigger] r@[b],
                    profiles_of(reference_vectors@, exam_matrices@[b]@),
                    radii_of(criterias@),
                    realizations as int,
                ),
        decreases exam_matrices@.len() - m,
    {
        let matrix = &exam_matrices[m];
        let mut d: Vec<Vec<u32>> = Vec::new();
        let mut i: usize = 0;
        while i < n
            invariant
                n == criterias@.len(),
                reference_vectors@.len() == n,
                exam_shape(reference_vectors@, exam_matrices@, realizations as int),
                m < exam_matrices@.len(),
                *matrix == exam_matrices@[m as int],
                i <= n,
                d@.len() == i,
                forall|a: int| 0 <= a < i ==> (#[trigger] d@[a])@ == profile(matrix@, reference_vectors@[a]@),
                forall|a: int| 0 <= a < i ==> (#[trigger] d@[a])@.len() == realizations,
            decreases n - i,
        {
            let ghost w = reference_vectors@[0]@.len() as int;
            assert(reference_vectors@[i as int]@.len() == w);
            assert(matrix@.len() == w * realizations);
            proof {
                vstd::arithmetic::div_mod::lemma_mod_multiples_basic(realizations as int, w);
                vstd::arithmetic::div_mod::lemma_div_multiples_vanish(realizations as int, w);
                assert(w * realizations == realizations * w) by (nonlinear_arith);
            }
            let row = SKManager::distances_between(matrix.as_slice(), reference_vectors[i].as_slice());
            d.push(row);
            i += 1;
        }
        let res = exam_one(&d, &radii, realizations);
        assert(views(d@) =~= profiles_of(reference_vectors@, exam_matrices@[m as int]@));
        r.push(res);
        m += 1;
    }
    r
}

} // verus!
