use satpr::class_loader::{ClassLoader, ClassType, LoadError};
use satpr::class_manager::{ClassManager, ClassManagerControlsResponse};
use satpr::corridor::build_corridor;

#[test]
fn first_class_sets_the_size() {
    let mut loader = ClassLoader::new();
    let training = ClassManager::new();
    let exam = ClassManager::new();
    let r = loader.accept(&training, &exam, vec![1, 2, 3, 4, 5, 6], 3, 2);
    assert_eq!(r, Ok(vec![1, 2, 3, 4, 5, 6]));
    assert_eq!(loader.size, (3, 2));
    assert_eq!(loader.error, None);
}

#[test]
fn duplicate_class_is_refused() {
    let mut loader = ClassLoader::new();
    let mut training = ClassManager::new();
    let exam = ClassManager::new();
    training.add_class(vec![1, 2, 3, 4]);
    loader.size = (2, 2);
    assert_eq!(loader.accept(&training, &exam, vec![1, 2, 3, 4], 2, 2), Err(LoadError::AlreadyLoaded));
    assert_eq!(loader.error, Some(LoadError::AlreadyLoaded));
    // the exam set is checked on its own
    loader.class_type = ClassType::Exam;
    assert_eq!(loader.accept(&training, &exam, vec![1, 2, 3, 4], 2, 2), Ok(vec![1, 2, 3, 4]));
    assert_eq!(loader.error, None);
}

#[test]
fn class_of_other_size_is_refused() {
    let mut loader = ClassLoader::new();
    let mut training = ClassManager::new();
    let exam = ClassManager::new();
    training.add_class(vec![1, 2, 3, 4]);
    loader.size = (2, 2);
    let r = loader.accept(&training, &exam, vec![1, 2, 3, 4, 5, 6], 3, 2);
    assert_eq!(
        r,
        Err(LoadError::SizeMismatch { expected_width: 2, expected_height: 2, found_width: 3, found_height: 2 })
    );
    assert_eq!(loader.size, (2, 2));
}

#[test]
fn default_class_type_is_training() {
    assert_eq!(ClassType::default(), ClassType::Training);
}

#[test]
fn manager_keeps_classes_of_one_length() {
    let mut m = ClassManager::new();
    m.add_class(vec![1, 2]);
    m.add_class(vec![1, 2, 3]);
    m.add_class(vec![3, 4]);
    assert_eq!(m.classes, vec![vec![1, 2], vec![3, 4]]);
}

#[test]
fn manager_selection_and_deletion() {
    let mut m = ClassManager::new();
    m.add_class(vec![1, 2]);
    m.add_class(vec![3, 4]);
    m.add_class(vec![5, 6]);
    let r = m.select_class(1);
    assert!(r.changed());
    assert_eq!(m.selected_class, 1);
    let r = m.delete_selected();
    assert!(r.changed());
    assert_eq!(m.classes, vec![vec![1, 2], vec![5, 6]]);
    assert_eq!(m.selected_class, 0);
    m.selected_class = 7;
    m.normalize_selection();
    assert_eq!(m.selected_class, 0);
    assert!(!ClassManagerControlsResponse::new().changed());
}

#[test]
fn manager_recalculates_binary_representation() {
    let mut m = ClassManager::new();
    m.add_class(vec![10, 10, 10, 200]);
    let c = build_corridor(&m.classes[0].clone(), (2, 2), 5);
    m.recalculate_binary_representation((2, 2), &c.allowances);
    assert_eq!(m.binary_representations.matrices, vec![vec![255u8, 0, 255, 0]]);
}
