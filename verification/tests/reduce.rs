use parallel_operations::parallel_binary_operation;
use parallel_operations::parallel_binary_operation_with_workers;

#[test]
fn test_parallel_addition() {
    let data = vec![1, 2, 3, 4, 5];
    let result = parallel_binary_operation(data, |a, b| a + b);
    assert_eq!(result, 15);
}

#[test]
fn test_parallel_multiplication() {
    let data = vec![1, 2, 3, 4, 5];
    let result = parallel_binary_operation(data, |a, b| a * b);
    assert_eq!(result, 120);
}

#[test]
fn test_single_element() {
    let data = vec![42];
    let result = parallel_binary_operation(data, |a, b| a + b);
    assert_eq!(result, 42);
}

#[test]
fn test_empty_vector() {
    let data: Vec<i32> = Vec::new();
    let result = parallel_binary_operation(data, |a, b| a + b);
    assert_eq!(result, 0);
}

#[test]
fn test_odd_number_of_elements() {
    let data = vec![1, 2, 3, 4, 5];
    let result = parallel_binary_operation(data, |a, b| a + b);
    assert_eq!(result, 15);
}

#[test]
fn sum_matches_sequential_sum() {
    let data: Vec<u64> = (1..=1000).collect();
    let expected: u64 = data.iter().copied().sum();
    assert_eq!(expected, 500_500);
    let result = parallel_binary_operation(data, |a: u64, b: u64| a.wrapping_add(b));
    assert_eq!(result, 500_500);
}

#[test]
fn product_matches_sequential_product() {
    let data: Vec<u64> = (1..=20).collect();
    let expected: u64 = data.iter().copied().product();
    assert_eq!(expected, 2_432_902_008_176_640_000);
    let result = parallel_binary_operation(data, |a: u64, b: u64| a.wrapping_mul(b));
    assert_eq!(result, 2_432_902_008_176_640_000);
}

#[test]
fn sum_wraps_modulo_two_to_the_64() {
    let data: Vec<u64> = vec![u64::MAX, 2, u64::MAX, 5];
    let result = parallel_binary_operation_with_workers(data, |a: u64, b: u64| a.wrapping_add(b), 2);
    assert_eq!(result, 5);
}

#[test]
fn product_wraps_modulo_two_to_the_64() {
    let data: Vec<u64> = vec![1 << 63, 2, 7];
    let result = parallel_binary_operation_with_workers(data, |a: u64, b: u64| a.wrapping_mul(b), 3);
    assert_eq!(result, 0);
    let data: Vec<u64> = vec![(1 << 63) + 1, 2, 7];
    let result = parallel_binary_operation_with_workers(data, |a: u64, b: u64| a.wrapping_mul(b), 2);
    assert_eq!(result, 14);
}

#[test]
fn empty_input_gives_the_default_for_any_operation() {
    let data: Vec<u64> = Vec::new();
    assert_eq!(parallel_binary_operation(data, |a: u64, b: u64| a.wrapping_mul(b)), 0);
    let data: Vec<i64> = Vec::new();
    assert_eq!(parallel_binary_operation(data, |a: i64, _b: i64| a - 7), 0);
    let data: Vec<u8> = Vec::new();
    assert_eq!(parallel_binary_operation_with_workers(data, |a: u8, b: u8| a.max(b), 4), 0);
}

#[test]
fn single_element_is_returned_untouched() {
    assert_eq!(parallel_binary_operation(vec![42u32], |_a: u32, _b: u32| 7), 42);
    assert_eq!(parallel_binary_operation(vec![-3i64], |a: i64, b: i64| a * b), -3);
    assert_eq!(parallel_binary_operation_with_workers(vec![9u8], |a: u8, b: u8| a ^ b, 16), 9);
}

#[test]
fn one_worker_folds_the_whole_input() {
    let data = vec![1, 2, 3, 4, 5];
    assert_eq!(parallel_binary_operation_with_workers(data, |a, b| a + b, 1), 15);
}

#[test]
fn two_workers_give_the_same_sum() {
    let data = vec![1, 2, 3, 4, 5];
    assert_eq!(parallel_binary_operation_with_workers(data, |a, b| a + b, 2), 15);
}

#[test]
fn three_workers_give_uneven_chunks_and_the_same_sum() {
    let data = vec![1, 2, 3, 4, 5];
    assert_eq!(parallel_binary_operation_with_workers(data, |a, b| a + b, 3), 15);
}

#[test]
fn as_many_workers_as_elements_give_the_same_sum() {
    let data = vec![1, 2, 3, 4, 5];
    assert_eq!(parallel_binary_operation_with_workers(data, |a, b| a + b, 5), 15);
}

#[test]
fn more_workers_than_elements_give_the_same_sum() {
    let data = vec![1, 2, 3, 4, 5];
    assert_eq!(parallel_binary_operation_with_workers(data, |a, b| a + b, 64), 15);
}

#[test]
fn result_does_not_depend_on_the_number_of_workers() {
    let data: Vec<u64> = (1..=257).map(|x| x * x + 3).collect();
    let expected: u64 = data.iter().copied().sum();
    for workers in 1..=300usize {
        let result =
            parallel_binary_operation_with_workers(data.clone(), |a: u64, b: u64| a.wrapping_add(b), workers);
        assert_eq!(result, expected);
    }
    let factors: Vec<u64> = vec![3, 5, 7, 11, 13, 17, 19, 23];
    for workers in [1usize, 2, 3, 4, 7, 8, 9] {
        let result =
            parallel_binary_operation_with_workers(factors.clone(), |a: u64, b: u64| a.wrapping_mul(b), workers);
        assert_eq!(result, 111_546_435);
    }
}

fn first_set(a: u32, b: u32) -> u32 {
    if a != 0 {
        a
    } else {
        b
    }
}

fn last_set(a: u32, b: u32) -> u32 {
    if b != 0 {
        b
    } else {
        a
    }
}

#[test]
fn order_is_kept_for_an_operation_that_does_not_commute() {
    let data: Vec<u32> = vec![0, 0, 5, 3, 0, 9, 0, 7, 0];
    for workers in 1..=12usize {
        assert_eq!(parallel_binary_operation_with_workers(data.clone(), first_set, workers), 5);
        assert_eq!(parallel_binary_operation_with_workers(data.clone(), last_set, workers), 7);
    }
    assert_eq!(parallel_binary_operation(data.clone(), first_set), 5);
    assert_eq!(parallel_binary_operation(data, last_set), 7);
}

#[test]
fn large_input_sums_like_a_sequential_loop() {
    let data: Vec<i128> = (1..=100_000).collect();
    let result = parallel_binary_operation(data, |a, b| a + b);
    assert_eq!(result, 5_000_050_000);
}

#[test]
fn two_elements_are_combined() {
    assert_eq!(parallel_binary_operation(vec![20u16, 22], |a: u16, b: u16| a + b), 42);
    assert_eq!(parallel_binary_operation(vec![6u16, 7], |a: u16, b: u16| a * b), 42);
}
