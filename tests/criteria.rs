use satpr::criteria::{Characteristics, Criteria};

fn sample() -> Criteria {
    // class 0: own distances [0, 1, 3]; class 1's realizations at [2, 4, 5]
    let distances = vec![vec![0u32, 1, 3], vec![2u32, 4, 5]];
    Criteria::new(0, &distances, 3)
}

#[test]
fn characteristics_count_realizations_within_radius() {
    let c = sample();
    assert_eq!(c.characteristics.len(), 5);
    let at = |d1, alpha, beta, d2| Characteristics { d1, alpha, beta, d2, own_total: 3, others_total: 3 };
    assert_eq!(c.characteristics[0], at(1, 2, 0, 3));
    assert_eq!(c.characteristics[1], at(2, 1, 0, 3));
    assert_eq!(c.characteristics[2], at(2, 1, 1, 2));
    assert_eq!(c.characteristics[3], at(3, 0, 1, 2));
    assert_eq!(c.characteristics[4], at(3, 0, 2, 1));
}

#[test]
fn working_space_needs_both_rates_at_least_half() {
    let c = sample();
    assert_eq!(c.working_space, vec![1, 2, 3]);
    for &x in &c.working_space {
        let ch = c.characteristics[x];
        assert!(2 * ch.d1 >= ch.own_total && 2 * ch.d2 >= ch.others_total);
    }
}

#[test]
fn rates_are_complementary() {
    let c = sample();
    for ch in &c.characteristics {
        assert_eq!(ch.d1 + ch.alpha, ch.own_total);
        assert_eq!(ch.beta + ch.d2, ch.others_total);
        let d1 = ch.d1 as f64 / ch.own_total as f64;
        let d2 = ch.d2 as f64 / ch.others_total as f64;
        assert!((0.0..=1.0).contains(&d1) && (0.0..=1.0).contains(&d2));
    }
}

#[test]
fn kullback_radii_minimize_error_rates() {
    let c = sample();
    // alpha + beta is 1/3 at radii 1 and 3, 2/3 at radius 2
    assert_eq!(c.r_kullback, vec![1, 3]);
    assert_eq!(c.min_radius(), 1);
    assert_eq!(c.max_kullback_criteria(), Some(3));
}

#[test]
fn perfect_separation_is_kullback_optimal() {
    // own realizations all at 0, the other class's at 4
    let distances = vec![vec![0u32, 0], vec![4u32, 4]];
    let c = Criteria::new(0, &distances, 2);
    assert_eq!(c.working_space, vec![1, 2, 3]);
    assert_eq!(c.r_kullback, vec![1, 2, 3]);
    assert_eq!(c.min_radius(), 1);
    // alpha + beta is 0 there: the criterion is not a normal number
    assert_eq!(c.max_kullback_criteria(), None);
}

#[test]
fn others_are_pooled_over_all_other_classes() {
    let distances = vec![vec![3u32, 1], vec![0u32, 2], vec![1u32, 1]];
    let c = Criteria::new(1, &distances, 2);
    assert_eq!(c.characteristics.len(), 3);
    assert_eq!(c.characteristics[1], Characteristics { d1: 1, alpha: 1, beta: 3, d2: 1, own_total: 2, others_total: 4 });
    assert_eq!(c.characteristics[2], Characteristics { d1: 2, alpha: 0, beta: 3, d2: 1, own_total: 2, others_total: 4 });
    assert!(c.working_space.is_empty());
    assert!(c.r_kullback.is_empty());
    assert_eq!(c.min_radius(), 0);
}

#[test]
fn single_class_has_empty_working_space() {
    let distances = vec![vec![0u32]];
    let c = Criteria::new(0, &distances, 1);
    assert!(c.characteristics.is_empty());
    assert!(c.working_space.is_empty());
    assert_eq!(c.min_radius(), 0);
    assert_eq!(c.max_kullback_criteria(), None);
}

#[test]
fn kullback_value_of_zero_is_a_candidate() {
    // alpha = beta = 1/2 at the only radius of the working space: the criterion is 0
    let c = Criteria::new(0, &[vec![1u32, 2], vec![1u32, 2]], 2);
    assert_eq!(c.working_space, vec![1]);
    assert_eq!(c.max_kullback_criteria(), Some(1));
    assert_eq!(c.r_kullback, vec![1]);
}
