use blindsort::blindsort::{apply_permutation, blind_sort, blind_sort_2bp, sorting_permutation};

#[test]
fn test_sorting_permutation() {
    let data = [5u8, 7, 3, 2];
    let permutation = sorting_permutation(&(), &data);
    assert_eq!(permutation, [2, 3, 1, 0]);
}

#[test]
fn test_blind_sort_ds() {
    let data: Vec<u8> = Vec::from_iter(0..32);
    let sorted = blind_sort(&(), &data);
    let mut data = data;
    data.sort();
    assert_eq!(sorted, data);
}

#[test]
fn test_blind_sort_2bp() {
    let data: Vec<u8> = Vec::from_iter(0..32);
    let sorted = blind_sort_2bp(&(), &data);
    let mut data = data;
    data.sort();
    data.rotate_left(1);
    assert_eq!(sorted, data);
}

#[test]
fn direct_sort_of_small_example() {
    assert_eq!(blind_sort(&(), &[5, 7, 3, 2]), vec![2, 3, 5, 7]);
}

#[test]
fn direct_sort_of_reversed_input() {
    let data: Vec<u8> = (0..32).rev().collect();
    let expected: Vec<u8> = (0..32).collect();
    assert_eq!(blind_sort(&(), &data), expected);
}

#[test]
fn direct_sort_is_idempotent() {
    let data = [9u8, 1, 200, 1, 0, 77, 9, 255];
    let once = blind_sort(&(), &data);
    assert_eq!(once, vec![0, 1, 1, 9, 9, 77, 200, 255]);
    assert_eq!(blind_sort(&(), &once), once);
}

#[test]
fn rank_of_equal_values_favours_the_earlier() {
    assert_eq!(sorting_permutation(&(), &[4, 4]), vec![1, 0]);
    assert_eq!(sorting_permutation(&(), &[3, 1, 3, 1]), vec![3, 1, 2, 0]);
}

#[test]
fn rank_is_a_permutation_with_duplicates() {
    let data = [6u8, 2, 6, 6, 0, 2];
    let mut ranks = sorting_permutation(&(), &data);
    ranks.sort();
    assert_eq!(ranks, vec![0, 1, 2, 3, 4, 5]);
}

#[test]
fn empty_input() {
    assert_eq!(sorting_permutation(&(), &[] as &[u8]), Vec::<u8>::new());
    assert_eq!(apply_permutation(&(), &[] as &[u8], &[]), Vec::<u8>::new());
    assert_eq!(blind_sort(&(), &[] as &[u8]), Vec::<u8>::new());
    assert_eq!(blind_sort_2bp(&(), &[] as &[u8]), Vec::<u8>::new());
}

#[test]
fn identity_permutation_keeps_data() {
    let data = [10u8, 20, 30, 40, 50];
    let identity = [0u8, 1, 2, 3, 4];
    assert_eq!(apply_permutation(&(), &data, &identity), data.to_vec());
}

#[test]
fn permutation_reorders_data() {
    let data = [10u8, 20, 30];
    let permutation = [2u8, 0, 1];
    assert_eq!(apply_permutation(&(), &data, &permutation), vec![20, 30, 10]);
}

#[test]
fn out_of_range_entry_is_dropped() {
    let data = [10u8, 20, 30, 40];
    let permutation = [1u8, 9, 0, 3];
    assert_eq!(apply_permutation(&(), &data, &permutation), vec![30, 10, 0, 40]);
}

#[test]
fn duplicate_entries_are_summed() {
    let data = [10u8, 20, 30];
    let permutation = [0u8, 0, 2];
    assert_eq!(apply_permutation(&(), &data, &permutation), vec![30, 0, 30]);
}

#[test]
fn duplicate_entries_wrap_modulo_256() {
    let data = [200u8, 100];
    let permutation = [1u8, 1];
    assert_eq!(apply_permutation(&(), &data, &permutation), vec![0, 44]);
}

#[test]
fn ranks_wrap_beyond_256_elements() {
    let data: Vec<u8> = vec![0; 257];
    let ranks = sorting_permutation(&(), &data);
    assert_eq!(ranks[0], 0);
    assert_eq!(ranks[1], 255);
    assert_eq!(ranks[256], 0);
}

#[test]
fn two_pass_on_small_dense_input() {
    assert_eq!(blind_sort_2bp(&(), &[2, 0, 3, 1]), vec![1, 2, 3, 0]);
}

#[test]
fn two_pass_on_shuffled_dense_input() {
    assert_eq!(blind_sort_2bp(&(), &[3, 0, 2, 1]), vec![1, 2, 3, 0]);
}

#[test]
fn two_pass_on_all_256_values() {
    let data: Vec<u8> = (0..=255).rev().collect();
    let mut expected: Vec<u8> = (0..=255).collect();
    expected.rotate_left(1);
    assert_eq!(blind_sort_2bp(&(), &data), expected);
}

#[test]
fn direct_sort_of_all_256_values() {
    let data: Vec<u8> = (0..=255).map(|v: u8| v.wrapping_mul(37)).collect();
    let expected: Vec<u8> = (0..=255).collect();
    assert_eq!(blind_sort(&(), &data), expected);
}

#[test]
fn positions_from_256_on_are_never_named() {
    let data: Vec<u8> = vec![1; 257];
    let permutation: Vec<u8> = vec![0; 257];
    let out = apply_permutation(&(), &data, &permutation);
    assert_eq!(out[0], 1);
    assert_eq!(out[256], 0);
    assert!(out[1..].iter().all(|&v| v == 0));
}

#[test]
fn entries_land_only_at_their_own_position() {
    let data: Vec<u8> = vec![1; 300];
    let permutation: Vec<u8> = vec![5; 300];
    let out = apply_permutation(&(), &data, &permutation);
    assert_eq!(out[5], 44);
    assert_eq!(out[261], 0);
}
