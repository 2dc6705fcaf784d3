use satpr::binary_representation::{binarize, build_reference_vector, BinaryRepresentation};
use satpr::corridor::{build_corridor, Allowances};

#[test]
fn binarize_marks_values_inside_band() {
    let allowances = Allowances { lower: vec![10, 0], upper: vec![20, 5] };
    let raw = [10u8, 6, 21, 5, 15, 0];
    assert_eq!(binarize(&raw, &allowances), vec![255, 0, 0, 255, 255, 255]);
}

#[test]
fn binarize_binary_matrix_is_identity() {
    let allowances = Allowances { lower: vec![1, 200, 255], upper: vec![255, 255, 255] };
    let m = vec![255u8, 0, 255, 0, 0, 0, 255, 255, 0];
    assert_eq!(binarize(&m, &allowances), m);
    assert_eq!(binarize(&binarize(&m, &allowances), &allowances), m);
}

#[test]
fn binarize_is_deterministic() {
    let c = build_corridor(&[30, 40, 50, 60], (2, 2), 7);
    let raw = [33u8, 52, 48, 59, 36, 60];
    assert_eq!(binarize(&raw, &c.allowances), binarize(&raw, &c.allowances));
    assert_eq!(binarize(&raw, &c.allowances), vec![255, 255, 0, 0, 255, 0]);
}

#[test]
fn reference_vector_is_strict_majority() {
    // 3 attributes, 4 realizations
    let m = [
        255u8, 255, 0, //
        255, 0, 0, //
        255, 255, 255, //
        0, 0, 255,
    ];
    // attribute 0: 3 of 4, attribute 1: 2 of 4 (a tie gives 0), attribute 2: 2 of 4
    assert_eq!(build_reference_vector(&m, (3, 4)), vec![255, 0, 0]);
}

#[test]
fn reference_vector_without_realizations_is_all_false() {
    assert_eq!(build_reference_vector(&[], (4, 0)), vec![0, 0, 0, 0]);
}

#[test]
fn reference_vector_is_majority_stable() {
    // 1 attribute, 5 realizations; 3 of them true
    let m = [255u8, 255, 0, 255, 0];
    let before = build_reference_vector(&m, (1, 5));
    // flip a minority bit towards the majority
    let flipped = [255u8, 255, 255, 255, 0];
    assert_eq!(build_reference_vector(&flipped, (1, 5)), before);
    assert_eq!(before, vec![255]);
}

#[test]
fn representation_binarizes_every_class() {
    let allowances = Allowances { lower: vec![5, 5], upper: vec![15, 15] };
    let classes = vec![vec![10u8, 10, 10, 200], vec![200u8, 200, 10, 200]];
    let b = BinaryRepresentation::new(&classes, (2, 2), &allowances);
    assert_eq!(b.matrices, vec![vec![255, 255, 255, 0], vec![0, 0, 255, 0]]);
    assert_eq!(b.reference_vectors, vec![vec![255, 0], vec![0, 0]]);
}

#[test]
fn reference_vector_survives_flips_within_margin() {
    // 1 attribute, 5 realizations, all true: flipping two of them away keeps the majority
    let m = [255u8, 255, 255, 255, 255];
    let flipped = [0u8, 255, 0, 255, 255];
    assert_eq!(build_reference_vector(&flipped, (1, 5)), build_reference_vector(&m, (1, 5)));
    // flipping three crosses the margin
    let too_many = [0u8, 0, 0, 255, 255];
    assert_eq!(build_reference_vector(&too_many, (1, 5)), vec![0]);
}
