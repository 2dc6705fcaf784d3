use satpr::criteria::Criteria;
use satpr::exam_data::{exam, ExamResult};
use satpr::pipeline::{all_in_working_space, select_best_delta, ClassificationState};
use satpr::sk_manager::SKManager;

fn uniform(value: u8, attributes: usize, realizations: usize) -> Vec<u8> {
    vec![value; attributes * realizations]
}

#[test]
fn two_uniform_classes_end_to_end() {
    let classes = vec![uniform(10, 4, 3), uniform(200, 4, 3)];
    let state = ClassificationState::compute(&classes, &[], (4, 3), 0, 5);
    let b = &state.binary_representation;
    assert_eq!(b.matrices[0], vec![255u8; 12]);
    assert_eq!(b.matrices[1], vec![0u8; 12]);
    assert_eq!(b.reference_vectors[0], vec![255u8; 4]);
    assert_eq!(b.reference_vectors[1], vec![0u8; 4]);
    assert_eq!(SKManager::distance_between(&b.reference_vectors[0], &b.reference_vectors[1]), 4);
    assert_eq!(state.sk_manager.distances[0][1], 4);

    let found = exam(&b.reference_vectors, &[b.reference_vectors[0].clone()], &state.criterias, 1);
    assert!(matches!(found[0], ExamResult::Found(0, _)));
    let halfway = exam(&b.reference_vectors, &[vec![255u8, 255, 0, 0]], &state.criterias, 1);
    assert!(matches!(halfway[0], ExamResult::Unknown(_)));
}

#[test]
fn exam_classes_are_binarized_with_the_same_corridor() {
    let classes = vec![uniform(10, 4, 3), uniform(200, 4, 3)];
    let exam_classes = vec![uniform(12, 4, 3), uniform(198, 4, 3), uniform(100, 4, 3)];
    let state = ClassificationState::compute(&classes, &exam_classes, (4, 3), 0, 5);
    assert_eq!(state.exam_binary_representation.matrices[0], vec![255u8; 12]);
    assert!(matches!(state.exam_data[0], ExamResult::Found(0, _)));
    assert!(matches!(state.exam_data[1], ExamResult::Found(1, _)));
    // 100 is outside the corridor around 10, like class 1
    assert!(matches!(state.exam_data[2], ExamResult::Found(1, _)));
}

#[test]
fn single_class_single_realization() {
    let classes = vec![vec![1u8, 2, 3, 4]];
    let state = ClassificationState::compute(&classes, &[vec![250u8, 250, 250, 250]], (4, 1), 0, 0);
    assert_eq!(state.corridor.expectation, vec![1, 2, 3, 4]);
    assert!(state.criterias[0].working_space.is_empty());
    assert_eq!(state.criterias[0].min_radius(), 0);
    assert!(matches!(state.exam_data[0], ExamResult::Unknown(_)));
    let unrelated = exam(
        &state.binary_representation.reference_vectors,
        &[vec![0u8, 255, 0, 255]],
        &state.criterias,
        1,
    );
    assert!(matches!(unrelated[0], ExamResult::Unknown(_)));
}

fn synthetic_classes() -> Vec<Vec<u8>> {
    // 4 attributes x 8 realizations per class, values from a fixed recurrence
    let mut seed: u32 = 12345;
    let mut next = move || {
        seed = seed.wrapping_mul(1103515245).wrapping_add(12345);
        (seed >> 16) as u8 % 40
    };
    let a: Vec<u8> = (0..32).map(|_| 60 + next()).collect();
    let b: Vec<u8> = (0..32).map(|_| 140 + next()).collect();
    vec![a, b]
}

fn sweep(classes: &[Vec<u8>]) -> (Vec<Vec<usize>>, u8) {
    let mut radii = Vec::new();
    let mut scores = Vec::new();
    let mut eligible = Vec::new();
    for delta in 0..=255u8 {
        let state = ClassificationState::compute(classes, &[], (4, 8), 0, delta);
        let optimal: Vec<Option<usize>> = state.criterias.iter().map(Criteria::max_kullback_criteria).collect();
        radii.push(state.criterias.iter().map(|c| c.min_radius()).collect());
        scores.push(state.criterias.iter().map(|c| c.working_space.len() as u64).sum());
        eligible.push(all_in_working_space(&state.criterias, &optimal));
    }
    (radii, select_best_delta(&scores, &eligible))
}

#[test]
fn delta_sweep_is_reproducible() {
    let classes = synthetic_classes();
    let first = sweep(&classes);
    let second = sweep(&classes);
    assert_eq!(first, second);
    assert_eq!(first.0.len(), 256);
}

#[test]
fn best_delta_is_last_highest_eligible_score() {
    assert_eq!(select_best_delta(&[5, 9, 9, 3], &[true, true, true, false]), 2);
    assert_eq!(select_best_delta(&[5, 9, 9, 30], &[true, true, false, false]), 1);
    assert_eq!(select_best_delta(&[5, 9], &[false, false]), 0);
    assert_eq!(select_best_delta(&[], &[]), 0);
}

#[test]
fn working_space_check_needs_every_class() {
    let distances0 = vec![vec![0u32, 1, 3], vec![2u32, 4, 5]];
    let c0 = Criteria::new(0, &distances0, 3);
    // radius 1: d1 = 2/3, d2 = 1; radius 4: d2 = 1/3
    assert!(all_in_working_space(std::slice::from_ref(&c0), &[Some(1)]));
    assert!(!all_in_working_space(std::slice::from_ref(&c0), &[Some(4)]));
    assert!(!all_in_working_space(std::slice::from_ref(&c0), &[None]));
    assert!(!all_in_working_space(std::slice::from_ref(&c0), &[Some(9)]));
}

#[test]
fn working_space_check_accepts_rates_of_exactly_half() {
    let c = Criteria::new(0, &[vec![1u32, 2], vec![1u32, 2]], 2);
    assert_eq!(c.working_space, vec![1]);
    assert!(all_in_working_space(std::slice::from_ref(&c), &[Some(1)]));
    assert!(!all_in_working_space(std::slice::from_ref(&c), &[Some(0)]));
}
