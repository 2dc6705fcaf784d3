use satpr::sk_manager::SKManager;

#[test]
fn distance_counts_differing_positions() {
    assert_eq!(SKManager::distance_between(&[0, 255, 255, 0], &[0, 0, 255, 255]), 2);
    assert_eq!(SKManager::distance_between(&[], &[]), 0);
    assert_eq!(SKManager::distance_between(&[7, 8, 9], &[1, 2, 3]), 3);
}

#[test]
fn distance_is_symmetric() {
    let u = [255u8, 0, 0, 255, 255];
    let v = [0u8, 0, 255, 255, 0];
    assert_eq!(SKManager::distance_between(&u, &v), SKManager::distance_between(&v, &u));
    assert_eq!(SKManager::distance_between(&u, &v), 3);
}

#[test]
fn distance_zero_only_for_identical_vectors() {
    let u = [255u8, 0, 255];
    assert_eq!(SKManager::distance_between(&u, &u), 0);
    let w = [255u8, 0, 0];
    assert_ne!(SKManager::distance_between(&u, &w), 0);
}

#[test]
fn distance_obeys_triangle_inequality() {
    let u = [255u8, 255, 0, 0];
    let v = [255u8, 0, 255, 0];
    let w = [0u8, 0, 255, 255];
    let uw = SKManager::distance_between(&u, &w);
    let uv = SKManager::distance_between(&u, &v);
    let vw = SKManager::distance_between(&v, &w);
    assert_eq!((uv, vw, uw), (2, 2, 4));
    assert!(uw <= uv + vw);
}

#[test]
fn distances_between_keeps_realization_order() {
    let center = [255u8, 0];
    let realizations = [255u8, 0, 0, 0, 0, 255, 255, 0];
    assert_eq!(SKManager::distances_between(&realizations, &center), vec![0, 1, 2, 0]);
    assert_eq!(SKManager::distances_between(&[], &center), Vec::<u32>::new());
}

#[test]
fn manager_finds_closest_class_first_minimum() {
    let refs = vec![vec![255u8, 255, 255], vec![255u8, 255, 0], vec![255u8, 0, 255]];
    let matrices = vec![
        vec![255u8, 255, 255, 0, 255, 255],
        vec![255u8, 255, 0, 255, 255, 0],
        vec![255u8, 0, 255, 0, 0, 0],
    ];
    let m = SKManager::new(&matrices, &refs);
    assert_eq!(m.distances, vec![vec![0, 1, 1], vec![1, 0, 2], vec![1, 2, 0]]);
    assert_eq!(m.distances_to_realizations[0][1], vec![1, 1]);
    assert_eq!(m.distances_to_realizations[2][0], vec![1, 2]);
    // class 0 is equally close to 1 and 2: the first wins
    assert_eq!(m.sk[0].closest, 1);
    assert_eq!(m.sk[0].distance, 1);
    assert_eq!(m.sk[0].distances_to_self, vec![0, 1]);
    assert_eq!(m.sk[0].distances_to_closest, vec![1, 1]);
    assert_eq!(m.sk[0].distances_from_closest_to_itself, vec![0, 0]);
    assert_eq!(m.sk[0].distances_from_closest, vec![1, 2]);
    assert_eq!(m.sk[2].closest, 0);
}

#[test]
fn single_class_is_its_own_closest() {
    let refs = vec![vec![255u8, 0]];
    let matrices = vec![vec![255u8, 0]];
    let m = SKManager::new(&matrices, &refs);
    assert_eq!(m.sk[0].closest, 0);
    assert_eq!(m.sk[0].distance, 0);
}
