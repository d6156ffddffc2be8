use vstd::prelude::*;

use crate::distance::{distance_outcome, elementwise_squared_difference_i32, sq_dist};
use crate::error::{BatchError, MatchError};

verus! {

/// The image can be compared with every tile without error.
pub open spec fn comparable(image: Seq<i32>, tiles: Seq<Seq<i32>>) -> bool {
    forall|k: int| 0 <= k < tiles.len() ==> (#[trigger] distance_outcome(image, tiles[k])).is_ok()
}

/// `j` is the first tile, by ascending index, whose comparison with the
/// image fails.
pub open spec fn first_failing_tile(image: Seq<i32>, tiles: Seq<Seq<i32>>, j: int) -> bool {
    &&& 0 <= j < tiles.len()
    &&& distance_outcome(image, tiles[j]).is_err()
    &&& comparable(image, tiles.take(j))
}

/// `i` is the first tile, by ascending index, at the least distance from the
/// image.
pub open spec fn first_minimum(image: Seq<i32>, tiles: Seq<Seq<i32>>, i: int) -> bool {
    &&& 0 <= i < tiles.len()
    &&& forall|k: int| 0 <= k < tiles.len() ==> sq_dist(image, tiles[i]) <= #[trigger] sq_dist(image, tiles[k])
    &&& forall|k: int| 0 <= k < i ==> sq_dist(image, tiles[i]) < #[trigger] sq_dist(image, tiles[k])
}

/// What matching one image against the tile library yields: the first
/// failure when a comparison fails; otherwise the first closest tile, or 0
/// for an empty library.
pub open spec fn tile_outcome(image: Seq<i32>, tiles: Seq<Seq<i32>>, r: Result<usize, MatchError>) -> bool {
    match r {
        Ok(i) => comparable(image, tiles) && if tiles.len() == 0 {
            i == 0
        } else {
            first_minimum(image, tiles, i as int)
        },
        Err(e) => exists|j: int| #[trigger]
            first_failing_tile(image, tiles, j) && distance_outcome(image, tiles[j]) == Err::<int, MatchError>(e),
    }
}

/// Index of the tile closest to `image`; on equal distances the lowest index
/// wins. An empty library gives index 0.
pub fn find_best_tile_i32(image: &[i32], tiles: &Vec<Vec<i32>>) -> (r: Result<usize, MatchError>)
    ensures
        tile_outcome(image@, tiles.deep_view(), r),
        r matches Ok(i) ==> (tiles.len() == 0 && i == 0) || i < tiles.len(),
{
    let ghost ts = tiles.deep_view();
    let n = tiles.len();
    let mut best: usize = 0;
    let mut best_d: i32 = 0;
    let mut j: usize = 0;
    while j < n
        invariant
            n == tiles@.len(),
            ts == tiles.deep_view(),
            j <= n,
            comparable(image@, ts.take(j as int)),
            j == 0 ==> best == 0,
            j > 0 ==> first_minimum(image@, ts.take(j as int), best as int),
            j > 0 ==> best_d as int == sq_dist(image@, ts[best as int]),
        decreases n - j,
    {
        proof {
            assert(ts[j as int] == tiles@[j as int]@);
            assert(ts.take(j + 1).drop_last() =~= ts.take(j as int));
        }
        let d = match elementwise_squared_difference_i32(image, tiles[j].as_slice()) {
            Ok(d) => d,
            Err(e) => {
                assert(first_failing_tile(image@, ts, j as int));
                return Err(e);
            },
        };
        if j == 0 || d < best_d {
            best = j;
            best_d = d;
        }
        j = j + 1;
    }
    assert(ts.take(n as int) =~= ts);
    Ok(best)
}

/// One index per image, in input order, each that of the tile closest to the
/// image (lowest index on ties, 0 for an empty library). The first image whose
/// matching fails makes the whole batch fail.
pub fn find_best_tiles_i32(images: Vec<Vec<i32>>, tiles: Vec<Vec<i32>>) -> (r: Result<Vec<usize>, BatchError>)
    ensures
        match r {
            Ok(v) => v@.len() == images@.len() && forall|i: int|
                0 <= i < images@.len() ==> tile_outcome(
                    images.deep_view()[i],
                    tiles.deep_view(),
                    Ok::<usize, MatchError>(#[trigger] v@[i]),
                ),
            Err(be) => be.image < images@.len() && tile_outcome(
                images.deep_view()[be.image as int],
                tiles.deep_view(),
                Err::<usize, MatchError>(be.error),
            ) && forall|i: int| 0 <= i < be.image ==> comparable(#[trigger] images.deep_view()[i], tiles.deep_view()),
        },
        r matches Ok(v) ==> v@.len() == images@.len(),
        r matches Ok(v) ==> forall|i: int| 0 <= i < v@.len() ==> if tiles@.len() == 0 {
            v@[i] == 0
        } else {
            #[trigger] v@[i] < tiles@.len()
        },
{
    let ghost is = images.deep_view();
    let ghost ts = tiles.deep_view();
    let n = images.len();
    let mut out: Vec<usize> = Vec::new();
    let mut i: usize = 0;
    while i < n
        invariant
            n == images@.len(),
            is == images.deep_view(),
            ts == tiles.deep_view(),
            i <= n,
            out@.len() == i,
            forall|k: int| 0 <= k < i ==> tile_outcome(is[k], ts, Ok::<usize, MatchError>(#[trigger] out@[k])),
            forall|k: int| 0 <= k < i ==> if tiles@.len() == 0 {
                out@[k] == 0
            } else {
                #[trigger] out@[k] < tiles@.len()
            },
        decreases n - i,
    {
        proof {
            assert(is[i as int] == images@[i as int]@);
        }
        match find_best_tile_i32(images[i].as_slice(), &tiles) {
            Ok(t) => {
                out.push(t);
            },
            Err(e) => {
                assert forall|k: int| 0 <= k < i implies comparable(#[trigger] is[k], ts) by {
                    assert(tile_outcome(is[k], ts, Ok::<usize, MatchError>(out@[k])));
                }
                return Err(BatchError { image: i, error: e });
            },
        }
        i = i + 1;
    }
    Ok(out)
}

} // verus!
