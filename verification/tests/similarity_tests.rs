use recommend_core::similarity::{SIM_SCALE, compute_cosine_similarity, row_total};

#[test]
fn diagonal_is_one_unit_for_nonzero_rows() {
    let matrix = vec![vec![2, 0], vec![1, 1]];
    let sim = compute_cosine_similarity(&matrix);
    assert_eq!(sim[0][0], SIM_SCALE);
    assert_eq!(sim[1][1], SIM_SCALE);
}

#[test]
fn similarity_matrix_is_symmetric() {
    let matrix = vec![vec![2, 0, 1], vec![1, 1, 0], vec![0, 3, 2]];
    let sim = compute_cosine_similarity(&matrix);
    for i in 0..3 {
        for j in 0..3 {
            assert_eq!(sim[i][j], sim[j][i]);
        }
    }
}

#[test]
fn similarity_values_lie_within_one_unit() {
    let matrix = vec![vec![2, 0, 1], vec![1, 1, 0], vec![0, 3, 2]];
    let sim = compute_cosine_similarity(&matrix);
    for i in 0..3 {
        for j in 0..3 {
            assert!(sim[i][j] <= SIM_SCALE);
        }
    }
}

#[test]
fn zero_row_pairs_resolve_to_zero_by_policy() {
    let matrix = vec![vec![2, 1], vec![0, 0]];
    let sim = compute_cosine_similarity(&matrix);
    assert_eq!(sim[0][1], 0);
    assert_eq!(sim[1][0], 0);
    assert_eq!(sim[1][1], 0);
    assert_eq!(sim[0][0], SIM_SCALE);
}

#[test]
fn cosine_value_is_exact_floor_in_millionths() {
    // rows (2,0) and (1,1): cosine = 2 / sqrt(4 * 2) = 0.707106...
    let matrix = vec![vec![2, 0], vec![1, 1]];
    let sim = compute_cosine_similarity(&matrix);
    assert_eq!(sim[0][1], 707_106);
    // rows (1,1,1) and (1,1,0): cosine = 2 / sqrt(3 * 2) = 0.816496...
    let matrix2 = vec![vec![1, 1, 1], vec![1, 1, 0]];
    let sim2 = compute_cosine_similarity(&matrix2);
    assert_eq!(sim2[0][1], 816_496);
}

#[test]
fn identical_rows_have_unit_similarity() {
    let matrix = vec![vec![3, 1, 2], vec![3, 1, 2]];
    let sim = compute_cosine_similarity(&matrix);
    assert_eq!(sim[0][1], SIM_SCALE);
}

#[test]
fn row_total_sums_within_cap() {
    assert_eq!(row_total(&vec![1, 2, 3]), Some(6));
    assert_eq!(row_total(&vec![]), Some(0));
    assert_eq!(row_total(&vec![65536]), Some(65536));
    assert_eq!(row_total(&vec![65536, 1]), None);
    assert_eq!(row_total(&vec![u64::MAX]), None);
}
