use satpr::criteria::Criteria;
use satpr::exam_data::{exam, ExamResult};

fn two_class_criteria() -> Vec<Criteria> {
    // both classes: own realizations at 0, the other's at 4; containment radius 1
    vec![
        Criteria::new(0, &[vec![0u32, 0], vec![4u32, 4]], 2),
        Criteria::new(1, &[vec![4u32, 4], vec![0u32, 0]], 2),
    ]
}

fn refs() -> Vec<Vec<u8>> {
    vec![vec![255u8, 255, 255, 255], vec![0u8, 0, 0, 0]]
}

#[test]
fn exam_finds_the_class_that_alone_contains_the_sample() {
    let criterias = two_class_criteria();
    let sample = vec![255u8, 255, 255, 255];
    let r = exam(&refs(), &[sample], &criterias, 1);
    assert_eq!(r.len(), 1);
    match &r[0] {
        ExamResult::Found(class, (results, unknown)) => {
            assert_eq!(*class, 0);
            assert_eq!(results, &vec![1, 0]);
            assert_eq!(*unknown, 0);
        }
        other => panic!("unexpected {:?}", other),
    }
}

#[test]
fn exam_halfway_sample_is_unknown() {
    let criterias = two_class_criteria();
    let sample = vec![255u8, 255, 0, 0];
    let r = exam(&refs(), &[sample], &criterias, 1);
    match &r[0] {
        ExamResult::Unknown((results, unknown)) => {
            assert_eq!(results, &vec![0, 0]);
            assert_eq!(*unknown, 1);
        }
        other => panic!("unexpected {:?}", other),
    }
}

#[test]
fn exam_tallies_each_realization() {
    let criterias = two_class_criteria();
    // three realizations: in class 1's ball, in class 0's ball, in neither
    let matrix = vec![0u8, 0, 0, 0, 255, 255, 255, 255, 255, 0, 255, 0];
    let r = exam(&refs(), &[matrix], &criterias, 3);
    match &r[0] {
        // class 0: distances 4, 0, 2 (sum 6 >= 3); class 1: 0, 4, 2 (sum 6 >= 3)
        ExamResult::Unknown((results, unknown)) => {
            assert_eq!(results, &vec![1, 1]);
            assert_eq!(*unknown, 1);
        }
        other => panic!("unexpected {:?}", other),
    }
}

#[test]
fn exam_with_zero_radius_never_contains() {
    let criterias = vec![Criteria::new(0, &[vec![0u32]], 1)];
    assert_eq!(criterias[0].min_radius(), 0);
    let r = exam(&[vec![255u8, 255]], &[vec![255u8, 255]], &criterias, 1);
    match &r[0] {
        ExamResult::Unknown((results, unknown)) => {
            assert_eq!(results, &vec![0]);
            assert_eq!(*unknown, 1);
        }
        other => panic!("unexpected {:?}", other),
    }
}

#[test]
fn exam_of_several_matrices_keeps_order() {
    let criterias = two_class_criteria();
    let a = vec![255u8, 255, 255, 255];
    let b = vec![0u8, 0, 0, 0];
    let r = exam(&refs(), &[a, b], &criterias, 1);
    assert!(matches!(r[0], ExamResult::Found(0, _)));
    assert!(matches!(r[1], ExamResult::Found(1, _)));
}
