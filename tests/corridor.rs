use satpr::corridor::{build_corridor, Corridor};

#[test]
fn expectation_is_truncated_mean_per_attribute() {
    // 2 attributes, 3 realizations, realization-major
    let class = [10u8, 100, 11, 101, 13, 104];
    let c = Corridor::new(&class, (2, 3));
    assert_eq!(c.expectation, vec![11, 101]);
    assert_eq!(c.allowances.lower, vec![11, 101]);
    assert_eq!(c.allowances.upper, vec![11, 101]);
    assert_eq!(c.delta, 0);
}

#[test]
fn allowances_saturate_at_byte_range() {
    let class = [3u8, 250];
    let c = build_corridor(&class, (2, 1), 10);
    assert_eq!(c.expectation, vec![3, 250]);
    assert_eq!(c.allowances.lower, vec![0, 240]);
    assert_eq!(c.allowances.upper, vec![13, 255]);
}

#[test]
fn delta_recomputes_allowances() {
    let class = [100u8, 200];
    let mut c = Corridor::new(&class, (1, 2));
    assert_eq!(c.expectation, vec![150]);
    c.delta(20);
    assert_eq!(c.allowances.lower, vec![130]);
    assert_eq!(c.allowances.upper, vec![170]);
    c.set_base_class(&[10, 20], (1, 2));
    assert_eq!(c.expectation, vec![15]);
    assert_eq!(c.allowances.lower, vec![0]);
    assert_eq!(c.allowances.upper, vec![35]);
    assert_eq!(c.delta, 20);
}

#[test]
fn corridor_of_single_realization() {
    let c = build_corridor(&[7, 8, 9], (3, 1), 1);
    assert_eq!(c.expectation, vec![7, 8, 9]);
    assert_eq!(c.allowances.lower, vec![6, 7, 8]);
}

#[test]
fn corridor_without_realizations_is_zero() {
    let c = build_corridor(&[], (3, 0), 4);
    assert_eq!(c.expectation, vec![0, 0, 0]);
    assert_eq!(c.allowances.upper, vec![4, 4, 4]);
}

#[test]
fn largest_delta_covers_whole_byte_range() {
    let c = build_corridor(&[0, 128, 255], (3, 1), 255);
    assert_eq!(c.allowances.lower, vec![0, 0, 0]);
    assert_eq!(c.allowances.upper, vec![255, 255, 255]);
}
