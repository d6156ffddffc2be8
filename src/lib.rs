//! Exhaustive nearest-tile matching under the sum-of-squared-differences
//! distance, on integer sample vectors.

pub mod distance;
pub mod error;
pub mod matcher;

pub use distance::elementwise_squared_difference_i32;
pub use error::{BatchError, MatchError};
pub use matcher::{find_best_tile_i32, find_best_tiles_i32};
