//! Tolerance corridor around the per-attribute mean of a base class.
use vstd::prelude::*;

verus! {

/// Sum of the values of attribute `a` over the first `r` realizations of a flattened
/// matrix whose realizations have `w` attributes.
pub open spec fn column_sum(m: Seq<u8>, w: int, a: int, r: int) -> int
    decreases r,
{
    if r <= 0 {
        0
    } else {
        column_sum(m, w, a, r - 1) + m[a + (r - 1) * w]
    }
}

/// Truncated mean of attribute `a` over the `h` realizations; 0 when there are none.
pub open spec fn mean(m: Seq<u8>, w: int, h: int, a: int) -> int {
    if h <= 0 {
        0
    } else {
        column_sum(m, w, a, h) / h
    }
}

/// Lower edge of the corridor: `e - delta`, saturating at 0.
pub open spec fn lower_edge(e: u8, delta: u8) -> u8 {
    if e >= delta {
        (e - delta) as u8
    } else {
        0
    }
}

/// Upper edge of the corridor: `e + delta`, saturating at 255.
pub open spec fn upper_edge(e: u8, delta: u8) -> u8 {
    if e + delta <= 255 {
        (e + delta) as u8
    } else {
        255
    }
}

/// Inclusive per-attribute band `[lower[a], upper[a]]`.
pub struct Allowances {
    pub lower: Vec<u8>,
    pub upper: Vec<u8>,
}

/// Per-attribute mean of a base class, widened by `delta` on both sides.
pub struct Corridor {
    pub expectation: Vec<u8>,
    pub allowances: Allowances,
    pub delta: u8,
}

proof fn lemma_column_sum_bounded(m: Seq<u8>, w: int, a: int, r: int)
    ensures
        0 <= column_sum(m, w, a, r),
        column_sum(m, w, a, r) <= 255 * if r > 0 { r } else { 0 },
    decreases r,
{
    if r > 0 {
        lemma_column_sum_bounded(m, w, a, r - 1);
    }
}

impl Corridor {
    /// The allowances are the saturated band of width `delta` around the expectation.
    pub open spec fn wf(&self) -> bool {
        &&& self.allowances.lower@.len() == self.expectation@.len()
        &&& self.allowances.upper@.len() == self.expectation@.len()
        &&& forall|a: int|
            0 <= a < self.expectation@.len() ==> #[trigger] self.allowances.lower@[a] == lower_edge(
                self.expectation@[a],
                self.delta,
            )
        &&& forall|a: int|
            0 <= a < self.expectation@.len() ==> #[trigger] self.allowances.upper@[a] == upper_edge(
                self.expectation@[a],
                self.delta,
            )
    }

    /// The expectation is the truncated mean of each attribute of `class`, a flattened
    /// matrix of `size.1` realizations with `size.0` attributes each.
    pub open spec fn expects(&self, class: Seq<u8>, size: (usize, usize)) -> bool {
        &&& self.expectation@.len() == size.0
        &&& forall|a: int|
            0 <= a < size.0 ==> #[trigger] self.expectation@[a] as int == mean(class, size.0 as int, size.1 as int, a)
    }

    /// Builds the corridor of `selected_class` with a zero tolerance.
    pub fn new(selected_class: &[u8], size: (usize, usize)) -> (r: Corridor)
        requires
            selected_class@.len() == size.0 * size.1,
        ensures
            r.wf(),
            r.expects(selected_class@, size),
            r.delta == 0,
    {
        let mut created = Corridor {
            expectation: Self::math_expectation(selected_class, size),
            allowances: Allowances { lower: Vec::new(), upper: Vec::new() },
            delta: 0,
        };
        created.calculate_allowances();
        created
    }

    /// Recomputes the expectation from a new base class, keeping the tolerance.
    pub fn set_base_class(&mut self, selected_class: &[u8], size: (usize, usize))
        requires
            selected_class@.len() == size.0 * size.1,
        ensures
            final(self).wf(),
            final(self).expects(selected_class@, size),
            final(self).delta == old(self).delta,
    {
        self.expectation = Self::math_expectation(selected_class, size);
        self.calculate_allowances();
    }

    /// Sets the tolerance and recomputes the allowances around the same expectation.
    pub fn delta(&mut self, delta: u8)
        ensures
            final(self).wf(),
            final(self).expectation@ == old(self).expectation@,
            final(self).delta == delta,
    {
        self.delta = delta;
        self.calculate_allowances();
    }

    fn calculate_allowances(&mut self)
        ensures
            final(self).wf(),
            final(self).expectation@ == old(self).expectation@,
            final(self).delta == old(self).delta,
    {
        self.calculate_lower_allowance();
        self.calculate_upper_allowance();
    }

    fn math_expectation(selected_class: &[u8], size: (usize, usize)) -> (r: Vec<u8>)
        requires
            selected_class@.len() == size.0 * size.1,
        ensures
            r@.len() == size.0,
            forall|a: int| 0 <= a < size.0 ==> #[trigger] r@[a] as int == mean(selected_class@, size.0 as int, size.1 as int, a),
    {
        let (w, h) = size;
        let total = selected_class.len();
        let mut r: Vec<u8> = Vec::new();
        let mut i: usize = 0;
        while i < w
            invariant
                selected_class@.len() == w * h,
                total == selected_class@.len(),
                i <= w,
                r@.len() == i,
                forall|a: int| 0 <= a < i ==> #[trigger] r@[a] as int == mean(selected_class@, w as int, h as int, a),
            decreases w - i,
        {
            let mut sum: u128 = 0;
            let mut j: usize = 0;
            while j < h
                invariant
                    selected_class@.len() == w * h,
                    total == selected_class@.len(),
                    i < w,
                    j <= h,
                    sum == column_sum(selected_class@, w as int, i as int, j as int),
                decreases h - j,
            {
                proof {
                    lemma_column_sum_bounded(selected_class@, w as int, i as int, j as int);
                    assert(i + j * w < w * h && j * w <= i + j * w) by (nonlinear_arith)
                        requires i < w, j < h;
                    assert(255 * j <= 255 * h) by (nonlinear_arith)
                        requires j < h;
                }
                sum = sum + selected_class[i + j * w] as u128;
                j += 1;
            }
            let value: u8 = if h == 0 {
                0
            } else {
                proof {
                    lemma_column_sum_bounded(selected_class@, w as int, i as int, h as int);
                    assert(sum / (h as u128) <= 255) by (nonlinear_arith)
                        requires sum <= 255 * h, h > 0;
                }
                (sum / (h as u128)) as u8
            };
            r.push(value);
            i += 1;
        }
        r
    }

    fn calculate_lower_allowance(&mut self)
        ensures
            final(self).expectation@ == old(self).expectation@,
            final(self).delta == old(self).delta,
            final(self).allowances.upper@ == old(self).allowances.upper@,
            final(self).allowances.lower@.len() == old(self).expectation@.len(),
            forall|a: int|
                0 <= a < old(self).expectation@.len() ==> #[trigger] final(self).allowances.lower@[a] == lower_edge(
                    old(self).expectation@[a],
                    old(self).delta,
                ),
    {
        let mut lower: Vec<u8> = Vec::new();
        let mut i: usize = 0;
        while i < self.expectation.len()
            invariant
                i <= self.expectation@.len(),
                lower@.len() == i,
                forall|a: int| 0 <= a < i ==> #[trigger] lower@[a] == lower_edge(self.expectation@[a], self.delta),
            decreases self.expectation@.len() - i,
        {
            lower.push(self.expectation[i].saturating_sub(self.delta));
            i += 1;
        }
        self.allowances.lower = lower;
    }

    fn calculate_upper_allowance(&mut self)
        ensures
            final(self).expectation@ == old(self).expectation@,
            final(self).delta == old(self).delta,
            final(self).allowances.lower@ == old(self).allowances.lower@,
            final(self).allowances.upper@.len() == old(self).expectation@.len(),
            forall|a: int|
                0 <= a < old(self).expectation@.len() ==> #[trigger] final(self).allowances.upper@[a] == upper_edge(
                    old(self).expectation@[a],
                    old(self).delta,
                ),
    {
        let mut upper: Vec<u8> = Vec::new();
        let mut i: usize = 0;
        while i < self.expectation.len()
            invariant
                i <= self.expectation@.len(),
                upper@.len() == i,
                forall|a: int| 0 <= a < i ==> #[trigger] upper@[a] == upper_edge(self.expectation@[a], self.delta),
            decreases self.expectation@.len() - i,
        {
            upper.push(self.expectation[i].saturating_add(self.delta));
            i += 1;
        }
        self.allowances.upper = upper;
    }
}

/// Builds the corridor of `base_class`, a flattened matrix of `size.1` realizations with
/// `size.0` attributes each, with tolerance `delta`.
pub fn build_corridor(base_class: &[u8], size: (usize, usize), delta: u8) -> (r: Corridor)
    requires
        base_class@.len() == size.0 * size.1,
    ensures
        r.wf(),
        r.expects(base_class@, size),
        r.delta == delta,
{
    let mut corridor = Corridor::new(base_class, size);
    corridor.delta(delta);
    corridor
}

} // verus!
