use ctddump::convert::common::{
    create_observation_sequence, create_profile_no_sequence, create_profile_no_sequence_chunk,
    expand_coords_from_indices, get_base_file_name, get_qc_value_chunk, i8_to_qc_string,
    retain_by_mask, time_chunks,
};

#[test]
fn test_i8_to_qc_string_all_digits() {
    for d in 0i8..=9 {
        assert_eq!(i8_to_qc_string(d), d.to_string(), "digit {d}");
    }
}

#[test]
fn test_i8_to_qc_string_min_is_empty() {
    assert_eq!(i8_to_qc_string(i8::MIN), "");
}

#[test]
fn test_i8_to_qc_string_negative_is_empty() {
    assert_eq!(i8_to_qc_string(-1), "");
}

#[test]
fn test_i8_to_qc_string_above_9_is_empty() {
    assert_eq!(i8_to_qc_string(10), "");
    assert_eq!(i8_to_qc_string(100), "");
}

#[test]
fn test_get_base_file_name_simple() {
    assert_eq!(get_base_file_name("file.nc").unwrap(), "file");
}

#[test]
fn test_get_base_file_name_relative_path() {
    assert_eq!(get_base_file_name("./data/AR_PR_CT_ITP-71.nc").unwrap(), "AR_PR_CT_ITP-71");
}

#[test]
fn test_get_base_file_name_absolute_path() {
    assert_eq!(
        get_base_file_name("/ocean/CO_DMQCGL01_19861204_PR_CT.nc").unwrap(),
        "CO_DMQCGL01_19861204_PR_CT"
    );
}

#[test]
fn test_profile_no_sequence_basic() {
    assert_eq!(create_profile_no_sequence(3, 2).unwrap(), vec![1u32, 1, 2, 2, 3, 3]);
}

#[test]
fn test_profile_no_sequence_single_profile() {
    assert_eq!(create_profile_no_sequence(1, 4).unwrap(), vec![1u32, 1, 1, 1]);
}

#[test]
fn test_profile_no_sequence_single_obs() {
    assert_eq!(create_profile_no_sequence(3, 1).unwrap(), vec![1u32, 2, 3]);
}

#[test]
fn test_observation_sequence_basic() {
    assert_eq!(create_observation_sequence(2, 3).unwrap(), vec![1u32, 2, 3, 1, 2, 3]);
}

#[test]
fn test_observation_sequence_single_obs() {
    assert_eq!(create_observation_sequence(3, 1).unwrap(), vec![1u32, 1, 1]);
}

#[test]
fn test_observation_sequence_restarts_each_profile() {
    let seq = create_observation_sequence(4, 5).unwrap();
    assert_eq!(seq.len(), 20);
    for p in 0..4usize {
        assert_eq!(seq[p * 5], 1, "profile {p} obs start");
        assert_eq!(seq[p * 5 + 4], 5, "profile {p} obs end");
    }
}

#[test]
fn test_expand_single_deployment_covers_all_times() {
    let result = expand_coords_from_indices(&vec![0], &vec![10.5_f32], 4, 1, f32::NAN);
    assert_eq!(result, vec![10.5, 10.5, 10.5, 10.5]);
}

#[test]
fn test_expand_two_deployments_boundary() {
    let result = expand_coords_from_indices(&vec![0, 3], &vec![1.0_f32, 2.0], 5, 1, f32::NAN);
    assert_eq!(result, vec![1.0, 1.0, 1.0, 2.0, 2.0]);
}

#[test]
fn test_expand_obs_tiling() {
    let result = expand_coords_from_indices(&vec![0], &vec![5.0_f32], 2, 3, f32::NAN);
    assert_eq!(result, vec![5.0, 5.0, 5.0, 5.0, 5.0, 5.0]);
}

#[test]
fn test_expand_obs_tiling_two_deployments() {
    let result = expand_coords_from_indices(&vec![0, 2], &vec![1.0_f32, 3.0], 4, 2, f32::NAN);
    assert_eq!(result, vec![1.0, 1.0, 1.0, 1.0, 3.0, 3.0, 3.0, 3.0]);
}

#[test]
fn test_expand_unsorted_input_sorted_correctly() {
    let result = expand_coords_from_indices(&vec![3, 0], &vec![10.0_f32, 20.0], 5, 1, f32::NAN);
    assert_eq!(result, vec![20.0, 20.0, 20.0, 10.0, 10.0]);
}

#[test]
fn test_expand_deployment_starts_after_t0_nan_early() {
    let result = expand_coords_from_indices(&vec![2], &vec![7.0_f32], 4, 1, f32::NAN);
    assert!(result[0].is_nan(), "t=0 should be NaN");
    assert!(result[1].is_nan(), "t=1 should be NaN");
    assert_eq!(result[2], 7.0);
    assert_eq!(result[3], 7.0);
}

#[test]
fn test_expand_three_deployments() {
    let result =
        expand_coords_from_indices(&vec![0, 2, 4], &vec![1.0_f32, 2.0, 3.0], 6, 1, f32::NAN);
    assert_eq!(result, vec![1.0, 1.0, 2.0, 2.0, 3.0, 3.0]);
}

#[test]
fn test_expand_negative_index_clamped_to_zero() {
    let result = expand_coords_from_indices(&vec![-5], &vec![99.0_f32], 3, 1, f32::NAN);
    assert_eq!(result, vec![99.0, 99.0, 99.0]);
}

#[test]
fn test_expand_result_length() {
    let result = expand_coords_from_indices(&vec![0, 3], &vec![1.0_f32, 2.0], 5, 4, f32::NAN);
    assert_eq!(result.len(), 20);
}

#[test]
fn profile_numbers_of_a_later_chunk_continue_the_count() {
    assert_eq!(create_profile_no_sequence_chunk(2, 2, 2).unwrap(), vec![3u32, 3, 4, 4]);
}

#[test]
fn time_chunks_cover_the_outer_dimension_without_gaps() {
    let chunks = time_chunks(10, 3, 7);
    assert_eq!(chunks, vec![(0, 2), (2, 2), (4, 2), (6, 2), (8, 2)]);
    assert!(time_chunks(0, 3, 7).is_empty());
    // A budget smaller than one profile still advances one profile at a time.
    assert_eq!(time_chunks(3, 100, 7), vec![(0, 1), (1, 1), (2, 1)]);
}

#[test]
fn qc_values_of_a_missing_variable_are_empty() {
    let v = get_qc_value_chunk(&None, 0, 2, 3).unwrap();
    assert_eq!(v.len(), 6);
    assert!(v.iter().all(|s| s.is_empty()));
}

#[test]
fn qc_values_are_read_from_the_requested_rows() {
    let grid = vec![vec![1i8, 2], vec![3, -128], vec![4, 9]];
    let v = get_qc_value_chunk(&Some(grid.clone()), 1, 2, 2).unwrap();
    assert_eq!(v, vec!["3", "", "4", "9"]);
    assert!(get_qc_value_chunk(&Some(grid), 2, 2, 2).is_err());
}

#[test]
fn retain_by_mask_keeps_marked_entries_in_order() {
    let v = retain_by_mask(vec![10, 20, 30, 40], &vec![true, false, false, true]);
    assert_eq!(v, vec![10, 40]);
}

#[test]
fn profile_number_chunks_join_into_the_whole_column() {
    let mut joined = create_profile_no_sequence_chunk(0, 2, 3).unwrap();
    joined.extend(create_profile_no_sequence_chunk(2, 3, 3).unwrap());
    assert_eq!(joined, create_profile_no_sequence_chunk(0, 5, 3).unwrap());
    assert_eq!(joined, create_profile_no_sequence(5, 3).unwrap());
}
