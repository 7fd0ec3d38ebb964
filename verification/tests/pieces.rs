use parallel_operations::chunking::chunk_size;
use parallel_operations::identity::get_initial_value;
use parallel_operations::reduce::fold_chunk;

#[test]
fn chunk_size_rounds_up() {
    assert_eq!(chunk_size(5, 3), 2);
    assert_eq!(chunk_size(5, 2), 3);
    assert_eq!(chunk_size(5, 1), 5);
    assert_eq!(chunk_size(5, 5), 1);
    assert_eq!(chunk_size(5, 64), 1);
    assert_eq!(chunk_size(6, 3), 2);
    assert_eq!(chunk_size(7, 3), 3);
    assert_eq!(chunk_size(10_000_000, 8), 1_250_000);
    assert_eq!(chunk_size(10_000_001, 8), 1_250_001);
}

#[test]
fn chunk_size_of_nothing_is_zero() {
    assert_eq!(chunk_size(0, 1), 0);
    assert_eq!(chunk_size(0, 12), 0);
}

#[test]
fn chunk_size_does_not_overflow() {
    assert_eq!(chunk_size(usize::MAX, 1), usize::MAX);
    assert_eq!(chunk_size(usize::MAX, 2), usize::MAX / 2 + 1);
    assert_eq!(chunk_size(usize::MAX, usize::MAX), 1);
    assert_eq!(chunk_size(usize::MAX - 1, usize::MAX), 1);
}

#[test]
fn chunks_of_that_size_are_at_most_one_per_worker() {
    for len in 1..200usize {
        for workers in 1..40usize {
            let size = chunk_size(len, workers);
            assert!(size >= 1);
            let count = len.div_ceil(size);
            assert!(count <= workers);
            assert!(count >= 1);
            assert!(size * (count - 1) < len);
            assert!(size * count >= len);
        }
    }
}

#[test]
fn addition_is_seeded_with_zero() {
    assert_eq!(get_initial_value(&|a: i32, b: i32| a + b), 0);
    assert_eq!(get_initial_value(&|a: u64, b: u64| a.wrapping_add(b)), 0);
}

#[test]
fn multiplication_is_seeded_with_one() {
    assert_eq!(get_initial_value(&|a: i32, b: i32| a * b), 1);
    assert_eq!(get_initial_value(&|a: u8, b: u8| a.wrapping_mul(b)), 1);
}

#[test]
fn subtraction_is_seeded_with_zero() {
    assert_eq!(get_initial_value(&|a: i64, b: i64| a - b), 0);
}

#[test]
fn division_is_seeded_with_one() {
    assert_eq!(get_initial_value(&|a: u16, b: u16| a / b), 1);
}

#[test]
fn any_other_operation_is_seeded_with_the_default() {
    assert_eq!(get_initial_value(&|a: i32, b: i32| a.max(b)), 0);
    assert_eq!(get_initial_value(&|a: u32, b: u32| a & b), 0);
    assert_eq!(get_initial_value(&|a: u8, _b: u8| a + 9), 0);
}

#[test]
fn addition_is_recognised_before_the_other_three() {
    assert_eq!(get_initial_value(&|_a: u8, _b: u8| 16), 0);
    assert_eq!(get_initial_value(&|_a: u8, _b: u8| 64), 1);
    assert_eq!(get_initial_value(&|_a: u8, _b: u8| 0), 0);
    assert_eq!(get_initial_value(&|_a: u8, _b: u8| 1), 1);
}

#[test]
fn fold_chunk_goes_from_left_to_right() {
    let chunk = [3i64, 4, 5];
    assert_eq!(fold_chunk(&chunk, 100, &|a: i64, b: i64| a - b), 88);
    assert_eq!(fold_chunk(&chunk, 2, &|a: i64, b: i64| a * 10 + b), 2345);
}

#[test]
fn fold_chunk_of_nothing_is_the_seed() {
    let chunk: [u32; 0] = [];
    assert_eq!(fold_chunk(&chunk, 17, &|a: u32, b: u32| a + b), 17);
}

#[test]
fn fold_chunk_of_one_element_applies_the_operation_once() {
    let chunk = [5u32];
    assert_eq!(fold_chunk(&chunk, 1, &|a: u32, b: u32| a * 8 + b), 13);
}
