//! Containment characteristics over a growing Hamming radius, the working space of
//! radii and the radii that are optimal by the Kullback criterion.
use vstd::prelude::*;

verus! {

/// Containment counts of one class at one radius. `d1` of the class's own `own_total`
/// realizations lie within the radius and `alpha` do not; `beta` of the `others_total`
/// realizations of all other classes lie within it and `d2` do not. The rates of the
/// same names are these counts over their totals.
#[derive(Clone, Copy, Debug, PartialEq, Eq, Structural)]
pub struct Characteristics {
    pub d1: usize,
    pub alpha: usize,
    pub beta: usize,
    pub d2: usize,
    pub own_total: usize,
    pub others_total: usize,
}

/// Number of distances in `s` that are at most `radius`.
pub open spec fn count_within(s: Seq<u32>, radius: int) -> nat
    decreases s.len(),
{
    if s.len() == 0 {
        0
    } else {
        count_within(s.drop_last(), radius) + if s.last() <= radius {
            1nat
        } else {
            0nat
        }
    }
}

/// Number of distances at most `radius` in the rows `j < n` of `d` other than `self_index`.
pub open spec fn others_within(d: Seq<Vec<u32>>, self_index: int, radius: int, n: int) -> nat
    decreases n,
{
    if n <= 0 {
        0
    } else {
        others_within(d, self_index, radius, n - 1) + if n - 1 == self_index {
            0nat
        } else {
            count_within(d[n - 1]@, radius)
        }
    }
}

/// Largest value of `s`, or 0 when it is empty.
pub open spec fn seq_max(s: Seq<u32>) -> u32
    decreases s.len(),
{
    if s.len() == 0 {
        0
    } else {
        let m = seq_max(s.drop_last());
        if s.last() > m {
            s.last()
        } else {
            m
        }
    }
}

/// Largest distance in the rows `j < n` of `d`, or 0 when there is none.
pub open spec fn max_distance(d: Seq<Vec<u32>>, n: int) -> u32
    decreases n,
{
    if n <= 0 {
        0
    } else {
        let m = max_distance(d, n - 1);
        let x = seq_max(d[n - 1]@);
        if x > m {
            x
        } else {
            m
        }
    }
}

/// The characteristics of class `self_index` at `radius`, where `d[j]` holds the distances
/// from the `realizations` realizations of class `j` to the reference vector of the class.
pub open spec fn describes(c: Characteristics, d: Seq<Vec<u32>>, self_index: int, realizations: int, radius: int) -> bool {
    &&& c.own_total == realizations
    &&& c.others_total == realizations * (d.len() - 1)
    &&& c.d1 == count_within(d[self_index]@, radius)
    &&& c.alpha == c.own_total - c.d1
    &&& c.beta == others_within(d, self_index, radius, d.len() as int)
    &&& c.d2 == c.others_total - c.beta
}

/// Both rates are defined and `d1 >= 1/2`, `d2 >= 1/2` (both are at most 1 by construction).
pub open spec fn in_working_space(c: Characteristics) -> bool {
    &&& c.own_total > 0
    &&& c.others_total > 0
    &&& 2 * c.d1 >= c.own_total
    &&& 2 * c.d2 >= c.others_total
}

/// `(alpha + beta) * own_total * others_total`, where `alpha` and `beta` are the rates.
/// The Kullback criterion `(1 - s) * log2((2 - s) / s)` of `s = alpha + beta` is strictly
/// decreasing for `s` in `(0, 1]` (infinite at 0), and `s <= 1` in the working space, so
/// among radii of the working space a smaller weight is a larger criterion.
pub open spec fn error_weight(c: Characteristics) -> int {
    c.alpha * c.others_total + c.beta * c.own_total
}

/// The error weight of `c` can be computed without overflow.
pub open spec fn weight_fits(c: Characteristics) -> bool {
    &&& c.alpha <= c.own_total
    &&& c.beta <= c.others_total
    &&& 2 * c.own_total * c.others_total <= u128::MAX
}

/// The Kullback criterion at `c` is finite: `s = alpha + beta` is not 0.
pub open spec fn kullback_is_finite(c: Characteristics) -> bool {
    0 < error_weight(c)
}

/// The elements of `v` increase strictly.
pub open spec fn increasing(v: Seq<usize>) -> bool {
    forall|k: int, l: int| 0 <= k < l < v.len() ==> #[trigger] v[k] < #[trigger] v[l]
}

/// `v` lists, in increasing order, exactly the radii `x` in `1..hi` of the working space.
pub open spec fn lists_working_space(v: Seq<usize>, chars: Seq<Characteristics>, hi: int) -> bool {
    &&& increasing(v)
    &&& forall|k: int| 0 <= k < v.len() ==> 1 <= #[trigger] v[k] < hi && in_working_space(chars[v[k] as int])
    &&& forall|x: int| 1 <= x < hi && #[trigger] in_working_space(chars[x]) ==> occurs(v, x)
}

/// `v` lists, in increasing order, exactly the Kullback-optimal radii of the working space.
pub open spec fn lists_kullback_optimal(v: Seq<usize>, chars: Seq<Characteristics>) -> bool {
    &&& increasing(v)
    &&& forall|k: int| 0 <= k < v.len() ==> #[trigger] kullback_optimal(chars, v[k] as int)
    &&& forall|x: int| #[trigger] kullback_optimal(chars, x) ==> occurs(v, x)
}

/// Radius `x`, not 0, lies in the working space of `chars`.
pub open spec fn ws_member(chars: Seq<Characteristics>, x: int) -> bool {
    1 <= x < chars.len() && in_working_space(chars[x])
}

/// Radius `x` of the working space has the largest Kullback criterion there.
pub open spec fn kullback_optimal(chars: Seq<Characteristics>, x: int) -> bool {
    &&& ws_member(chars, x)
    &&& forall|y: int| #[trigger] ws_member(chars, y) ==> error_weight(chars[x]) <= error_weight(chars[y])
}

/// `x` is an element of `v`.
pub open spec fn occurs(v: Seq<usize>, x: int) -> bool {
    exists|m: int| 0 <= m < v.len() && #[trigger] v[m] == x
}

proof fn lemma_occurs_push(v: Seq<usize>, x: usize)
    ensures
        forall|y: int| occurs(v, y) ==> #[trigger] occurs(v.push(x), y),
        occurs(v.push(x), x as int),
{
    assert forall|y: int| occurs(v, y) implies #[trigger] occurs(v.push(x), y) by {
        let m = choose|m: int| 0 <= m < v.len() && #[trigger] v[m] == y;
        assert(v.push(x)[m] == y);
    }
    assert(v.push(x)[v.len() as int] == x);
}

/// `x` is one of the first `j` elements of `v`.
pub open spec fn occurs_before(v: Seq<usize>, j: int, x: usize) -> bool {
    exists|m: int| 0 <= m < j && #[trigger] v[m] == x
}

/// Criteria of one class over the radii `0..characteristics.len()`.
pub struct Criteria {
    pub characteristics: Vec<Characteristics>,
    pub working_space: Vec<usize>,
    pub r_kullback: Vec<usize>,
}

proof fn lemma_count_within_bounded(s: Seq<u32>, radius: int)
    ensures
        count_within(s, radius) <= s.len(),
    decreases s.len(),
{
    if s.len() > 0 {
        lemma_count_within_bounded(s.drop_last(), radius);
    }
}

proof fn lemma_count_within_step(s: Seq<u32>, radius: int, k: int)
    requires
        0 <= k < s.len(),
    ensures
        count_within(s.subrange(0, k + 1), radius) == count_within(s.subrange(0, k), radius) + if s[k] <= radius {
            1nat
        } else {
            0nat
        },
{
    assert(s.subrange(0, k + 1).drop_last() =~= s.subrange(0, k));
}

proof fn lemma_seq_max_step(s: Seq<u32>, k: int)
    requires
        0 <= k < s.len(),
    ensures
        seq_max(s.subrange(0, k + 1)) == if s[k] > seq_max(s.subrange(0, k)) {
            s[k]
        } else {
            seq_max(s.subrange(0, k))
        },
{
    assert(s.subrange(0, k + 1).drop_last() =~= s.subrange(0, k));
}

proof fn lemma_others_within_bounded(d: Seq<Vec<u32>>, self_index: int, radius: int, n: int, realizations: int)
    requires
        0 <= n <= d.len(),
        0 <= self_index < d.len(),
        0 <= realizations,
        forall|j: int| 0 <= j < d.len() ==> (#[trigger] d[j])@.len() == realizations,
    ensures
        others_within(d, self_index, radius, n) + (if self_index < n {
            realizations
        } else {
            0
        }) <= realizations * n,
    decreases n,
{
    if n > 0 {
        lemma_others_within_bounded(d, self_index, radius, n - 1, realizations);
        lemma_count_within_bounded(d[n - 1]@, radius);
        assert(realizations * (n - 1) + realizations == realizations * n) by (nonlinear_arith);
    }
}

proof fn lemma_least_weight_in_prefix(chars: Seq<Characteristics>, ws: Seq<usize>, i: int) -> (k: int)
    requires
        0 < i <= ws.len(),
    ensures
        0 <= k < i,
        forall|m: int| 0 <= m < i ==> error_weight(chars[ws[k] as int]) <= error_weight(chars[#[trigger] ws[m] as int]),
    decreases i,
{
    if i == 1 {
        0
    } else {
        let k = lemma_least_weight_in_prefix(chars, ws, i - 1);
        if error_weight(chars[ws[i - 1] as int]) < error_weight(chars[ws[k] as int]) {
            i - 1
        } else {
            k
        }
    }
}

/// A nonempty working space has a Kullback-optimal radius.
proof fn lemma_some_kullback_optimal(chars: Seq<Characteristics>, ws: Seq<usize>) -> (x: int)
    requires
        lists_working_space(ws, chars, chars.len() as int),
        ws.len() > 0,
    ensures
        kullback_optimal(chars, x),
{
    let k = lemma_least_weight_in_prefix(chars, ws, ws.len() as int);
    let x = ws[k] as int;
    assert forall|y: int| #[trigger] ws_member(chars, y) implies error_weight(chars[x]) <= error_weight(chars[y]) by {
        let m = choose|m: int| 0 <= m < ws.len() && #[trigger] ws[m] == y;
        assert(error_weight(chars[x]) <= error_weight(chars[ws[m] as int]));
    }
    x
}

impl Criteria {
    /// The working space and the Kullback-optimal radii agree with the characteristics.
    pub open spec fn wf(&self) -> bool {
        let n = self.characteristics@.len() as int;
        &&& forall|x: int| 0 <= x < n ==> weight_fits(#[trigger] self.characteristics@[x])
        &&& lists_working_space(self.working_space@, self.characteristics@, n)
        &&& lists_kullback_optimal(self.r_kullback@, self.characteristics@)
        &&& forall|x: int| 0 <= x < n ==> #[trigger] self.characteristics@[x].d1 + self.characteristics@[x].alpha == self.characteristics@[x].own_total
        &&& forall|x: int| 0 <= x < n ==> #[trigger] self.characteristics@[x].beta + self.characteristics@[x].d2 == self.characteristics@[x].others_total
    }

    fn count_within_radius(v: &Vec<u32>, radius: u32) -> (r: usize)
        ensures
            r == count_within(v@, radius as int),
    {
        let mut count: usize = 0;
        let mut k: usize = 0;
        while k < v.len()
            invariant
                k <= v@.len(),
                count == count_within(v@.subrange(0, k as int), radius as int),
            decreases v@.len() - k,
        {
            proof {
                lemma_count_within_step(v@, radius as int, k as int);
                lemma_count_within_bounded(v@.subrange(0, k as int), radius as int);
            }
            if v[k] <= radius {
                count += 1;
            }
            k += 1;
        }
        assert(v@.subrange(0, k as int) =~= v@);
        count
    }

    fn calculate_max_radius(distances: &[Vec<u32>]) -> (r: u32)
        ensures
            r == max_distance(distances@, distances@.len() as int),
    {
        let mut max: u32 = 0;
        let mut j: usize = 0;
        while j < distances.len()
            invariant
                j <= distances@.len(),
                max == max_distance(distances@, j as int),
            decreases distances@.len() - j,
        {
            let row = &distances[j];
            let mut m: u32 = 0;
            let mut k: usize = 0;
            while k < row.len()
                invariant
                    k <= row@.len(),
                    m == seq_max(row@.subrange(0, k as int)),
                decreases row@.len() - k,
            {
                proof {
                    lemma_seq_max_step(row@, k as int);
                }
                if row[k] > m {
                    m = row[k];
                }
                k += 1;
            }
            assert(row@.subrange(0, k as int) =~= row@);
            if m > max {
                max = m;
            }
            j += 1;
        }
        max
    }

    fn calculate_number_of_others_realizations(
        distances_of_classes: &[Vec<u32>],
        self_index: usize,
        max_radius: u32,
        realizations: usize,
    ) -> (r: Vec<usize>)
        requires
            self_index < distances_of_classes@.len(),
            distances_of_classes@.len() * realizations <= usize::MAX,
            forall|j: int| 0 <= j < distances_of_classes@.len() ==> (#[trigger] distances_of_classes@[j])@.len() == realizations,
        ensures
            r@.len() == max_radius,
            forall|x: int| 0 <= x < max_radius ==> #[trigger] r@[x] == others_within(distances_of_classes@, self_index as int, x, distances_of_classes@.len() as int),
    {
        let n = distances_of_classes.len();
        let mut r: Vec<usize> = Vec::new();
        let mut radius: u32 = 0;
        while radius < max_radius
            invariant
                n == distances_of_classes@.len(),
                self_index < n,
                n * realizations <= usize::MAX,
                forall|j: int| 0 <= j < n ==> (#[trigger] distances_of_classes@[j])@.len() == realizations,
                radius <= max_radius,
                r@.len() == radius,
                forall|x: int| 0 <= x < radius ==> #[trigger] r@[x] == others_within(distances_of_classes@, self_index as int, x, n as int),
            decreases max_radius - radius,
        {
            let mut sum: usize = 0;
            let mut j: usize = 0;
            while j < n
                invariant
                    n == distances_of_classes@.len(),
                    self_index < n,
                    n * realizations <= usize::MAX,
                    forall|j: int| 0 <= j < n ==> (#[trigger] distances_of_classes@[j])@.len() == realizations,
                    j <= n,
                    sum == others_within(distances_of_classes@, self_index as int, radius as int, j as int),
                decreases n - j,
            {
                proof {
                    lemma_others_within_bounded(distances_of_classes@, self_index as int, radius as int, j as int + 1, realizations as int);
                    assert(realizations * (j + 1) <= n * realizations) by (nonlinear_arith)
                        requires j < n;
                }
                if j != self_index {
                    let count = Self::count_within_radius(&distances_of_classes[j], radius);
                    sum = sum + count;
                }
                j += 1;
            }
            r.push(sum);
            radius += 1;
        }
        r
    }

    fn calculate_characteristics(
        realizations: &Vec<usize>,
        others_realizations: &Vec<usize>,
        number_of_realizations: usize,
        number_of_others_realizations: usize,
        max_radius: usize,
    ) -> (r: Vec<Characteristics>)
        requires
            max_radius <= realizations@.len(),
            max_radius <= others_realizations@.len(),
            forall|x: int| 0 <= x < max_radius ==> #[trigger] realizations@[x] <= number_of_realizations,
            forall|x: int| 0 <= x < max_radius ==> #[trigger] others_realizations@[x] <= number_of_others_realizations,
        ensures
            r@.len() == max_radius,
            forall|x: int|
                0 <= x < max_radius ==> {
                    &&& (#[trigger] r@[x]).d1 == realizations@[x]
                    &&& r@[x].alpha == number_of_realizations - realizations@[x]
                    &&& r@[x].beta == others_realizations@[x]
                    &&& r@[x].d2 == number_of_others_realizations - others_realizations@[x]
                    &&& r@[x].own_total == number_of_realizations
                    &&& r@[x].others_total == number_of_others_realizations
                },
    {
        let mut r: Vec<Characteristics> = Vec::new();
        let mut i: usize = 0;
        while i < max_radius
            invariant
                max_radius <= realizations@.len(),
                max_radius <= others_realizations@.len(),
                forall|x: int| 0 <= x < max_radius ==> #[trigger] realizations@[x] <= number_of_realizations,
                forall|x: int| 0 <= x < max_radius ==> #[trigger] others_realizations@[x] <= number_of_others_realizations,
                i <= max_radius,
                r@.len() == i,
                forall|x: int|
                    0 <= x < i ==> {
                        &&& (#[trigger] r@[x]).d1 == realizations@[x]
                        &&& r@[x].alpha == number_of_realizations - realizations@[x]
                        &&& r@[x].beta == others_realizations@[x]
                        &&& r@[x].d2 == number_of_others_realizations - others_realizations@[x]
                        &&& r@[x].own_total == number_of_realizations
                        &&& r@[x].others_total == number_of_others_realizations
                    },
            decreases max_radius - i,
        {
            let d1 = realizations[i];
            let beta = others_realizations[i];
            r.push(Characteristics {
                d1,
                alpha: number_of_realizations - d1,
                beta,
                d2: number_of_others_realizations - beta,
                own_total: number_of_realizations,
                others_total: number_of_others_realizations,
            });
            i += 1;
        }
        r
    }

    fn is_in_working_space(c: &Characteristics) -> (r: bool)
        ensures
            r == in_working_space(*c),
    {
        c.own_total > 0 && c.others_total > 0 && 2 * (c.d1 as u128) >= c.own_total as u128
            && 2 * (c.d2 as u128) >= c.others_total as u128
    }

    fn calculate_working_space(characteristics: &Vec<Characteristics>) -> (r: Vec<usize>)
        ensures
            lists_working_space(r@, characteristics@, characteristics@.len() as int),
    {
        let mut r: Vec<usize> = Vec::new();
        if characteristics.len() == 0 {
            return r;
        }
        let mut x: usize = 1;
        while x < characteristics.len()
            invariant
                1 <= x <= characteristics@.len(),
                lists_working_space(r@, characteristics@, x as int),
            decreases characteristics@.len() - x,
        {
            if Self::is_in_working_space(&characteristics[x]) {
                proof {
                    lemma_occurs_push(r@, x);
                }
                r.push(x);
            }
            x += 1;
        }
        r
    }

    fn weight(c: &Characteristics) -> (w: u128)
        requires
            weight_fits(*c),
        ensures
            w == error_weight(*c),
    {
        let a = c.alpha as u128;
        let b = c.beta as u128;
        let t1 = c.own_total as u128;
        let t2 = c.others_total as u128;
        assert(a * t2 + b * t1 <= 2 * t1 * t2) by (nonlinear_arith)
            requires a <= t1, b <= t2, t1 >= 0, t2 >= 0;
        a * t2 + b * t1
    }

    fn find_radius(characteristics: &Vec<Characteristics>, working_space: &Vec<usize>) -> (r: Vec<usize>)
        requires
            lists_working_space(working_space@, characteristics@, characteristics@.len() as int),
            forall|x: int| 0 <= x < characteristics@.len() ==> weight_fits(#[trigger] characteristics@[x]),
        ensures
            lists_kullback_optimal(r@, characteristics@),
    {
        let ghost chars = characteristics@;
        let ghost n = chars.len() as int;
        let mut r: Vec<usize> = Vec::new();
        if working_space.len() == 0 {
            assert forall|x: int| #[trigger] kullback_optimal(chars, x) implies false by {
                assert(in_working_space(chars[x]));
            }
            return r;
        }
        let mut min: u128 = Self::weight(&characteristics[working_space[0]]);
        let mut i: usize = 1;
        while i < working_space.len()
            invariant
                chars == characteristics@,
                n == chars.len(),
                lists_working_space(working_space@, chars, n),
                forall|x: int| 0 <= x < n ==> weight_fits(#[trigger] chars[x]),
                1 <= i <= working_space@.len(),
                forall|k: int| 0 <= k < i ==> min <= error_weight(chars[#[trigger] working_space@[k] as int]),
                exists|k: int| 0 <= k < i && min == error_weight(chars[#[trigger] working_space@[k] as int]),
            decreases working_space@.len() - i,
        {
            let w = Self::weight(&characteristics[working_space[i]]);
            if w < min {
                min = w;
                assert(min == error_weight(chars[working_space@[i as int] as int]));
            }
            i += 1;
        }
        assert forall|y: int| #[trigger] ws_member(chars, y) implies min <= error_weight(chars[y]) by {
            let k = choose|k: int| 0 <= k < working_space@.len() && working_space@[k] == y;
            assert(min <= error_weight(chars[working_space@[k] as int]));
        }
        let mut j: usize = 0;
        while j < working_space.len()
            invariant
                chars == characteristics@,
                n == chars.len(),
                lists_working_space(working_space@, chars, n),
                forall|x: int| 0 <= x < n ==> weight_fits(#[trigger] chars[x]),
                forall|y: int| #[trigger] ws_member(chars, y) ==> min <= error_weight(chars[y]),
                exists|k: int| 0 <= k < working_space@.len() && min == error_weight(chars[#[trigger] working_space@[k] as int]),
                j <= working_space@.len(),
                forall|k: int| 0 <= k < r@.len() ==> #[trigger] kullback_optimal(chars, r@[k] as int),
                increasing(r@),
                forall|k: int| 0 <= k < r@.len() ==> occurs_before(working_space@, j as int, #[trigger] r@[k]),
                forall|m: int|
                    0 <= m < j && error_weight(chars[#[trigger] working_space@[m] as int]) == min ==> occurs(
                        r@,
                        working_space@[m] as int,
                    ),
            decreases working_space@.len() - j,
        {
            let x = working_space[j];
            if Self::weight(&characteristics[x]) == min {
                proof {
                    assert forall|y: int| #[trigger] ws_member(chars, y) implies error_weight(chars[x as int]) <= error_weight(chars[y]) by {}
                    assert forall|k: int| 0 <= k < r@.len() implies r@[k] < x by {
                        assert(occurs_before(working_space@, j as int, r@[k]));
                        let m = choose|m: int| 0 <= m < j && #[trigger] working_space@[m] == r@[k];
                        assert(working_space@[m] < working_space@[j as int]);
                    }
                }
                proof {
                    lemma_occurs_push(r@, x);
                }
                r.push(x);
                proof {
                    assert(r@[r@.len() - 1] == x);
                    assert forall|k: int| 0 <= k < r@.len() implies occurs_before(working_space@, j + 1, #[trigger] r@[k]) by {
                        if k < r@.len() - 1 {
                            assert(occurs_before(working_space@, j as int, r@[k]));
                            let m = choose|m: int| 0 <= m < j && #[trigger] working_space@[m] == r@[k];
                            assert(working_space@[m] == r@[k]);
                        } else {
                            assert(working_space@[j as int] == r@[k]);
                        }
                    }
                }
            }
            j += 1;
        }
        proof {
            assert forall|x: int| #[trigger] kullback_optimal(chars, x) implies occurs(r@, x) by {
                let m = choose|m: int| 0 <= m < working_space@.len() && working_space@[m] == x;
                let k0 = choose|k: int| 0 <= k < working_space@.len() && min == error_weight(chars[#[trigger] working_space@[k] as int]);
                assert(ws_member(chars, working_space@[k0] as int));
                assert(error_weight(chars[working_space@[m] as int]) == min);
                assert(occurs(r@, working_space@[m] as int));
            }
        }
        r
    }

    /// Builds the criteria of class `self_index`, where `distances[j]` holds the distances
    /// from the `number_of_realizations` realizations of class `j` to the reference vector
    /// of class `self_index`. The radii run over `0..max`, `max` the largest of all those
    /// distances; the own rates are over `number_of_realizations`, the others' rates over
    /// the realizations of all other classes together.
    pub fn new(self_index: usize, distances: &[Vec<u32>], number_of_realizations: usize) -> (r: Criteria)
        requires
            self_index < distances@.len(),
            distances@.len() * number_of_realizations <= usize::MAX,
            forall|j: int| 0 <= j < distances@.len() ==> (#[trigger] distances@[j])@.len() == number_of_realizations,
        ensures
            r.wf(),
            r.computed_from(self_index as int, distances@, number_of_realizations as int),
    {
        let n = distances.len();
        let max_radius = Self::calculate_max_radius(distances);
        let mut self_realizations: Vec<usize> = Vec::new();
        let mut radius: u32 = 0;
        while radius < max_radius
            invariant
                self_index < distances@.len(),
                forall|j: int| 0 <= j < distances@.len() ==> (#[trigger] distances@[j])@.len() == number_of_realizations,
                radius <= max_radius,
                self_realizations@.len() == radius,
                forall|x: int| 0 <= x < radius ==> #[trigger] self_realizations@[x] == count_within(distances@[self_index as int]@, x),
                forall|x: int| 0 <= x < radius ==> #[trigger] self_realizations@[x] <= number_of_realizations,
            decreases max_radius - radius,
        {
            let count = Self::count_within_radius(&distances[self_index], radius);
            proof {
                lemma_count_within_bounded(distances@[self_index as int]@, radius as int);
            }
            self_realizations.push(count);
            radius += 1;
        }
        let others_realizations = Self::calculate_number_of_others_realizations(
            distances,
            self_index,
            max_radius,
            number_of_realizations,
        );
        proof {
            assert(number_of_realizations * (n - 1) <= n * number_of_realizations) by (nonlinear_arith)
                requires n >= 1;
        }
        let others_total = number_of_realizations * (n - 1);
        proof {
            assert forall|x: int| 0 <= x < max_radius implies #[trigger] others_realizations@[x] <= others_total by {
                lemma_others_within_bounded(distances@, self_index as int, x, n as int, number_of_realizations as int);
                assert(number_of_realizations * n - number_of_realizations == others_total) by (nonlinear_arith)
                    requires others_total == number_of_realizations * (n - 1);
            }
            assert(2 * number_of_realizations * others_total <= u128::MAX) by (nonlinear_arith)
                requires
                    others_total == number_of_realizations * (n - 1),
                    n * number_of_realizations <= usize::MAX,
                    n >= 1,
            {
                if n >= 2 {
                    assert(2 * number_of_realizations <= n * number_of_realizations);
                    assert(others_total <= n * number_of_realizations);
                    assert(2 * number_of_realizations * others_total <= (n * number_of_realizations) * (n * number_of_realizations));
                    assert((n * number_of_realizations) * (n * number_of_realizations) <= usize::MAX * usize::MAX);
                }
            }
        }
        let characteristics = Self::calculate_characteristics(
            &self_realizations,
            &others_realizations,
            number_of_realizations,
            others_total,
            max_radius as usize,
        );
        let working_space = Self::calculate_working_space(&characteristics);
        let r_kullback = Self::find_radius(&characteristics, &working_space);
        Criteria { characteristics, working_space, r_kullback }
    }

    /// The smallest Kullback-optimal radius, or 0 when the working space is empty.
    pub open spec fn spec_min_radius(&self) -> int {
        if self.r_kullback@.len() > 0 {
            self.r_kullback@[0] as int
        } else {
            0
        }
    }

    /// Returns the smallest Kullback-optimal radius, the containment radius of the class;
    /// 0 when the working space is empty.
    pub fn min_radius(&self) -> (r: usize)
        requires
            self.wf(),
        ensures
            r == self.spec_min_radius(),
            r > 0 <==> self.working_space@.len() > 0,
            r > 0 ==> kullback_optimal(self.characteristics@, r as int),
            forall|x: int| #[trigger] kullback_optimal(self.characteristics@, x) ==> r <= x,
    {
        proof {
            let chars = self.characteristics@;
            if self.working_space@.len() > 0 {
                let x = lemma_some_kullback_optimal(chars, self.working_space@);
                assert(occurs(self.r_kullback@, x));
            }
            if self.r_kullback@.len() > 0 {
                assert(kullback_optimal(chars, self.r_kullback@[0] as int));
                assert(occurs(self.working_space@, self.r_kullback@[0] as int));
            }
            assert forall|x: int| #[trigger] kullback_optimal(chars, x) implies self.spec_min_radius() <= x by {
                let m = choose|m: int| 0 <= m < self.r_kullback@.len() && #[trigger] self.r_kullback@[m] == x;
                if m > 0 {
                    assert(self.r_kullback@[0] < self.r_kullback@[m]);
                }
            }
        }
        if self.r_kullback.len() > 0 {
            self.r_kullback[0]
        } else {
            0
        }
    }

    /// Returns the last radius of the working space at which the Kullback criterion is
    /// finite and largest among those radii; `None` when there is no such radius.
    pub fn max_kullback_criteria(&self) -> (r: Option<usize>)
        requires
            self.wf(),
        ensures
            r is None <==> !exists|y: int| ws_member(self.characteristics@, y) && #[trigger] kullback_is_finite(self.characteristics@[y]),
            r matches Some(x) ==> {
                &&& ws_member(self.characteristics@, x as int)
                &&& kullback_is_finite(self.characteristics@[x as int])
                &&& forall|y: int|
                    ws_member(self.characteristics@, y) && #[trigger] kullback_is_finite(self.characteristics@[y]) ==> {
                        &&& error_weight(self.characteristics@[x as int]) <= error_weight(self.characteristics@[y])
                        &&& y > x ==> error_weight(self.characteristics@[x as int]) < error_weight(self.characteristics@[y])
                    }
            },
    {
        let ghost chars = self.characteristics@;
        let mut best: Option<usize> = None;
        let mut best_weight: u128 = 0;
        let mut i: usize = 0;
        while i < self.working_space.len()
            invariant
                self.wf(),
                chars == self.characteristics@,
                i <= self.working_space@.len(),
                best is None <==> !exists|k: int| 0 <= k < i && #[trigger] kullback_is_finite(chars[self.working_space@[k] as int]),
                best matches Some(x) ==> {
                    &&& ws_member(chars, x as int)
                    &&& kullback_is_finite(chars[x as int])
                    &&& best_weight == error_weight(chars[x as int])
                    &&& exists|k: int| 0 <= k < i && #[trigger] self.working_space@[k] == x
                    &&& forall|k: int|
                        0 <= k < i && #[trigger] kullback_is_finite(chars[self.working_space@[k] as int]) ==> {
                            &&& best_weight <= error_weight(chars[self.working_space@[k] as int])
                            &&& self.working_space@[k] > x ==> best_weight < error_weight(chars[self.working_space@[k] as int])
                        }
                },
            decreases self.working_space@.len() - i,
        {
            let x = self.working_space[i];
            let c = &self.characteristics[x];
            let w = Self::weight(c);
            let finite = w > 0;
            assert(finite == kullback_is_finite(chars[self.working_space@[i as int] as int]));
            if finite && (best.is_none() || w <= best_weight) {
                best = Some(x);
                best_weight = w;
            }
            proof {
                if best is Some {
                    let bx = best->0;
                    let k = choose|k: int| 0 <= k < i + 1 && #[trigger] self.working_space@[k] == bx;
                    assert(0 <= k < i + 1 && self.working_space@[k] == bx);
                    if k < i {
                        assert(self.working_space@[k] < self.working_space@[i as int]);
                    }
                }
            }
            i += 1;
        }
        proof {
            assert forall|y: int| ws_member(chars, y) implies occurs(self.working_space@, y) by {}
        }
        best
    }

    /// The characteristics are those of class `self_index` at each radius below the
    /// largest distance of `distances`.
    pub open spec fn computed_from(&self, self_index: int, distances: Seq<Vec<u32>>, realizations: int) -> bool {
        &&& self.characteristics@.len() == max_distance(distances, distances.len() as int)
        &&& forall|x: int|
            0 <= x < self.characteristics@.len() ==> describes(
                #[trigger] self.characteristics@[x],
                distances,
                self_index,
                realizations,
                x,
            )
    }
}

/// Every characteristic is a pair of complementary rates: `d1 + alpha` and `beta + d2`
/// are their totals, so all four rates lie in `[0, 1]`, `d1 + alpha == 1` and
/// `beta + d2 == 1` wherever the totals are nonzero.
pub proof fn lemma_characteristics_are_rates(c: &Criteria, x: int)
    requires
        c.wf(),
        0 <= x < c.characteristics@.len(),
    ensures
        c.characteristics@[x].d1 + c.characteristics@[x].alpha == c.characteristics@[x].own_total,
        c.characteristics@[x].beta + c.characteristics@[x].d2 == c.characteristics@[x].others_total,
        c.characteristics@[x].d1 <= c.characteristics@[x].own_total,
        c.characteristics@[x].alpha <= c.characteristics@[x].own_total,
        c.characteristics@[x].beta <= c.characteristics@[x].others_total,
        c.characteristics@[x].d2 <= c.characteristics@[x].others_total,
{
}

/// The working space holds only radii at which both rates are defined and
/// `d1 >= 1/2` and `d2 >= 1/2`.
pub proof fn lemma_working_space_rates(c: &Criteria, k: int)
    requires
        c.wf(),
        0 <= k < c.working_space@.len(),
    ensures
        c.working_space@[k] < c.characteristics@.len(),
        c.characteristics@[c.working_space@[k] as int].own_total > 0,
        c.characteristics@[c.working_space@[k] as int].others_total > 0,
        2 * c.characteristics@[c.working_space@[k] as int].d1 >= c.characteristics@[c.working_space@[k] as int].own_total,
        2 * c.characteristics@[c.working_space@[k] as int].d2 >= c.characteristics@[c.working_space@[k] as int].others_total,
{
}

} // verus!
