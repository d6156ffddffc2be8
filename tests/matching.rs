use rusty_mosaic::{
    elementwise_squared_difference_i32, find_best_tile_i32, find_best_tiles_i32, BatchError,
    MatchError,
};

#[test]
fn distance_exact_value() {
    assert_eq!(elementwise_squared_difference_i32(&[1, 2, 3], &[4, 0, 3]), Ok(13));
    assert_eq!(elementwise_squared_difference_i32(&[-5], &[5]), Ok(100));
}

#[test]
fn distance_of_empty_vectors_is_zero() {
    assert_eq!(elementwise_squared_difference_i32(&[], &[]), Ok(0));
}

#[test]
fn distance_is_symmetric() {
    let a = [3, -7, 12, 0];
    let b = [-1, 4, 12, 9];
    let ab = elementwise_squared_difference_i32(&a, &b);
    assert_eq!(ab, elementwise_squared_difference_i32(&b, &a));
    assert_eq!(ab, Ok(16 + 121 + 0 + 81));
    assert_eq!(
        elementwise_squared_difference_i32(&[1, 2], &[1]),
        elementwise_squared_difference_i32(&[1], &[1, 2])
    );
}

#[test]
fn distance_to_itself_is_zero() {
    let a = [7, -3, 2147483647, -2147483648];
    assert_eq!(elementwise_squared_difference_i32(&a, &a), Ok(0));
}

#[test]
fn distance_length_mismatch() {
    assert_eq!(
        elementwise_squared_difference_i32(&[1, 2], &[1, 2, 3]),
        Err(MatchError::LengthMismatch)
    );
}

#[test]
fn distance_largest_value_that_fits() {
    assert_eq!(elementwise_squared_difference_i32(&[46340], &[0]), Ok(2147395600));
}

#[test]
fn distance_overflow_in_square() {
    assert_eq!(elementwise_squared_difference_i32(&[46341], &[0]), Err(MatchError::Overflow));
    assert_eq!(
        elementwise_squared_difference_i32(&[-2147483648], &[0]),
        Err(MatchError::Overflow)
    );
}

#[test]
fn distance_overflow_in_difference() {
    assert_eq!(
        elementwise_squared_difference_i32(&[2147483647], &[-1]),
        Err(MatchError::Overflow)
    );
}

#[test]
fn distance_overflow_in_sum() {
    assert_eq!(
        elementwise_squared_difference_i32(&[46340, 1000], &[0, 0]),
        Err(MatchError::Overflow)
    );
}

#[test]
fn best_tile_picks_closest() {
    let tiles = vec![vec![10, 10], vec![3, 4], vec![0, 9]];
    assert_eq!(find_best_tile_i32(&[2, 4], &tiles), Ok(1));
}

#[test]
fn best_tile_empty_library_gives_zero() {
    let tiles: Vec<Vec<i32>> = Vec::new();
    assert_eq!(find_best_tile_i32(&[1, 2, 3], &tiles), Ok(0));
}

#[test]
fn best_tile_reports_first_failure() {
    let tiles = vec![vec![0, 0], vec![46341, 0], vec![1, 2, 3]];
    assert_eq!(find_best_tile_i32(&[0, 0], &tiles), Err(MatchError::Overflow));
    let tiles = vec![vec![0, 0], vec![1], vec![46341, 0]];
    assert_eq!(find_best_tile_i32(&[0, 0], &tiles), Err(MatchError::LengthMismatch));
}

#[test]
fn best_tile_lowest_index_among_equal_later_minimum() {
    let tiles = vec![vec![9, 9], vec![1, 1], vec![4, 4], vec![1, 1]];
    assert_eq!(find_best_tile_i32(&[1, 1], &tiles), Ok(1));
}

#[test]
fn batch_integer_path_is_deterministic() {
    let images = vec![vec![1, 2], vec![5, 5]];
    let tiles = vec![vec![1, 2], vec![0, 0], vec![5, 5]];
    for _ in 0..5 {
        assert_eq!(find_best_tiles_i32(images.clone(), tiles.clone()), Ok(vec![0, 2]));
    }
}

#[test]
fn batch_tie_break_lowest_index() {
    let images = vec![vec![0, 0]];
    let tiles = vec![vec![0, 0], vec![0, 0]];
    for _ in 0..5 {
        assert_eq!(find_best_tiles_i32(images.clone(), tiles.clone()), Ok(vec![0]));
    }
}

#[test]
fn batch_length_mismatch_fails() {
    let images = vec![vec![1, 2]];
    let tiles = vec![vec![1, 2, 3]];
    assert_eq!(
        find_best_tiles_i32(images, tiles),
        Err(BatchError { image: 0, error: MatchError::LengthMismatch })
    );
}

#[test]
fn batch_failure_names_first_failing_image() {
    let images = vec![vec![1, 2], vec![1, 2, 3], vec![46341, 0]];
    let tiles = vec![vec![1, 2]];
    assert_eq!(
        find_best_tiles_i32(images, tiles),
        Err(BatchError { image: 1, error: MatchError::LengthMismatch })
    );
}

#[test]
fn batch_cardinality_and_range() {
    let images = vec![vec![0, 0], vec![9, 9], vec![4, 5], vec![2, 2], vec![100, -100]];
    let tiles = vec![vec![0, 0], vec![5, 5], vec![9, 9]];
    let r = find_best_tiles_i32(images.clone(), tiles.clone()).unwrap();
    assert_eq!(r.len(), images.len());
    assert!(r.iter().all(|&i| i < tiles.len()));
    assert_eq!(r, vec![0, 2, 1, 0, 0]);
}

#[test]
fn batch_empty_library_gives_zero_per_image() {
    let images = vec![vec![1, 2], vec![3], vec![]];
    let tiles: Vec<Vec<i32>> = Vec::new();
    assert_eq!(find_best_tiles_i32(images, tiles), Ok(vec![0, 0, 0]));
}

#[test]
fn batch_of_no_images() {
    let images: Vec<Vec<i32>> = Vec::new();
    let tiles = vec![vec![1, 2]];
    assert_eq!(find_best_tiles_i32(images, tiles), Ok(vec![]));
}
