use asap_core::matrix::{
    count_matrix, unroll_observations, validate_matrix, validate_observation, InputError,
};

#[test]
fn matrix_valid_square_accepted() {
    let m = vec![vec![0, 0], vec![1, 0]];
    assert_eq!(validate_matrix(&m, 2), Ok(()));
}

#[test]
fn matrix_self_loop_rejected() {
    let m = vec![vec![0, 2], vec![1, 3]];
    assert_eq!(
        validate_matrix(&m, 2),
        Err(InputError::SelfComparison { index: 1 })
    );
}

#[test]
fn matrix_first_self_loop_reported() {
    let m = vec![vec![0, 1, 0], vec![0, 0, 0], vec![4, 0, 7]];
    assert_eq!(
        validate_matrix(&m, 3),
        Err(InputError::SelfComparison { index: 2 })
    );
}

#[test]
fn matrix_wrong_shape_rejected() {
    let m = vec![vec![0, 0], vec![0, 0]];
    assert_eq!(validate_matrix(&m, 3), Err(InputError::Shape));
    let ragged = vec![vec![0, 0], vec![0]];
    assert_eq!(validate_matrix(&ragged, 2), Err(InputError::Shape));
}

#[test]
fn observation_validation_cases() {
    assert_eq!(validate_observation(3, 2, 0), Ok(()));
    assert_eq!(
        validate_observation(3, 3, 0),
        Err(InputError::OutOfRange { index: 3 })
    );
    assert_eq!(
        validate_observation(3, 1, 5),
        Err(InputError::OutOfRange { index: 5 })
    );
    assert_eq!(
        validate_observation(3, 1, 1),
        Err(InputError::SelfComparison { index: 1 })
    );
}

#[test]
fn unroll_single_observation() {
    let m = vec![vec![0, 0], vec![1, 0]];
    let obs = unroll_observations(&m, 2);
    assert_eq!(obs, vec![(1, 0)]);
}

#[test]
fn unroll_is_row_major_with_multiplicity() {
    let m = vec![vec![0, 2, 0], vec![0, 0, 1], vec![3, 0, 0]];
    let obs = unroll_observations(&m, 3);
    assert_eq!(obs, vec![(0, 1), (0, 1), (1, 2), (2, 0), (2, 0), (2, 0)]);
}

#[test]
fn unroll_empty_matrix_gives_no_observations() {
    let m = vec![vec![0; 4]; 4];
    let obs = unroll_observations(&m, 4);
    assert!(obs.is_empty());
}

#[test]
fn count_matrix_tallies_observations() {
    let obs = vec![(1, 0), (2, 0), (1, 0), (0, 2)];
    let m = count_matrix(&obs, 3);
    assert_eq!(m, vec![vec![0, 0, 1], vec![2, 0, 0], vec![1, 0, 0]]);
}

#[test]
fn count_then_unroll_preserves_observation_counts() {
    let obs = vec![(1, 0), (2, 1), (1, 0), (2, 0), (1, 2)];
    let m = count_matrix(&obs, 3);
    let unrolled = unroll_observations(&m, 3);
    assert_eq!(unrolled.len(), obs.len());
    let count = |v: &Vec<(usize, usize)>, p: (usize, usize)| {
        v.iter().filter(|&&q| q == p).count()
    };
    for a in 0..3 {
        for b in 0..3 {
            assert_eq!(count(&unrolled, (a, b)), count(&obs, (a, b)));
        }
    }
}

#[test]
fn unroll_merged_matrix_matches_merged_observations() {
    let m1 = vec![vec![0, 1], vec![2, 0]];
    let m2 = vec![vec![0, 3], vec![1, 0]];
    let msum = vec![vec![0, 4], vec![3, 0]];
    let mut merged = unroll_observations(&m1, 2);
    merged.extend(unroll_observations(&m2, 2));
    let one_shot = unroll_observations(&msum, 2);
    let count = |obs: &Vec<(usize, usize)>, p: (usize, usize)| {
        obs.iter().filter(|&&q| q == p).count()
    };
    for a in 0..2 {
        for b in 0..2 {
            assert_eq!(count(&one_shot, (a, b)), count(&merged, (a, b)));
        }
    }
    assert_eq!(one_shot.len(), merged.len());
}
