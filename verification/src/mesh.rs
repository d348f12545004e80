//! Triangle indices of a latitude-longitude grid, such as the sphere that
//! marks a node of a scene graph.

use vstd::prelude::*;

verus! {

/// Corner `k` of the two triangles of grid cell (`lat`, `long`), whose
/// vertices are numbered row by row, `long_segments + 1` a row: the cell's
/// first vertex, the next in its row, and the two below them make the
/// triangles first-second-third and second-fourth-third.
pub open spec fn cell_corner(lat: int, long: int, long_segments: int, k: int) -> int {
    let first = lat * (long_segments + 1) + long;
    let third = (lat + 1) * (long_segments + 1) + long;
    if k == 0 {
        first
    } else if k == 1 || k == 3 {
        first + 1
    } else if k == 4 {
        third + 1
    } else {
        third
    }
}

/// The triangle indices of a grid of `lat_segments` by `long_segments`
/// cells, six a cell, cell after cell, row after row.
pub fn sphere_indices(lat_segments: usize, long_segments: usize) -> (indices: Vec<u32>)
    requires
        (lat_segments + 1) * (long_segments + 1) <= u32::MAX,
    ensures
        indices.len() == 6 * (lat_segments * long_segments),
        forall|lat: int, long: int, k: int|
            0 <= lat < lat_segments && 0 <= long < long_segments && 0 <= k < 6 ==> indices@[6 * (
            lat * long_segments + long) + k] == #[trigger] cell_corner(
                lat,
                long,
                long_segments as int,
                k,
            ),
{
    let mut indices: Vec<u32> = Vec::new();
    assert(long_segments + 1 <= (lat_segments + 1) * (long_segments + 1)) by (nonlinear_arith);
    let width = long_segments + 1;
    let mut lat: usize = 0;
    let mut row: usize = 0;
    assert(lat_segments * width <= (lat_segments + 1) * width) by (nonlinear_arith);
    while lat < lat_segments
        invariant
            lat <= lat_segments,
            width == long_segments + 1,
            (lat_segments + 1) * width <= u32::MAX,
            row == lat * width,
            indices.len() == 6 * (lat * long_segments),
            forall|a: int, b: int, k: int|
                0 <= a < lat && 0 <= b < long_segments && 0 <= k < 6 ==> indices@[6 * (a
                    * long_segments + b) + k] == #[trigger] cell_corner(
                    a,
                    b,
                    long_segments as int,
                    k,
                ),
        decreases lat_segments - lat,
    {
        proof {
            assert((lat + 1) * width == lat * width + width) by (nonlinear_arith);
            assert((lat + 1) * long_segments == lat * long_segments + long_segments)
                by (nonlinear_arith);
            assert((lat + 1) * width <= lat_segments * width) by (nonlinear_arith)
                requires
                    lat + 1 <= lat_segments,
                    0 <= width,
            ;
            assert((lat_segments + 1) * width == lat_segments * width + width)
                by (nonlinear_arith);
        }
        let below = row + width;
        let mut long: usize = 0;
        while long < long_segments
            invariant
                long <= long_segments,
                lat < lat_segments,
                width == long_segments + 1,
                row == lat * width,
                below == (lat + 1) * width,
                below == row + width,
                below + width <= u32::MAX,
                indices.len() == 6 * (lat * long_segments + long),
                forall|a: int, b: int, k: int|
                    0 <= a < lat && 0 <= b < long_segments && 0 <= k < 6 ==> indices@[6 * (a
                        * long_segments + b) + k] == #[trigger] cell_corner(
                        a,
                        b,
                        long_segments as int,
                        k,
                    ),
                forall|b: int, k: int|
                    0 <= b < long && 0 <= k < 6 ==> indices@[6 * (lat * long_segments + b) + k]
                        == #[trigger] cell_corner(lat as int, b, long_segments as int, k),
            decreases long_segments - long,
        {
            let ghost before = indices@;
            let ghost base = 6 * (lat * long_segments + long);
            let first = (row + long) as u32;
            let third = (below + long) as u32;
            indices.push(first);
            indices.push(first + 1);
            indices.push(third);
            indices.push(first + 1);
            indices.push(third + 1);
            indices.push(third);
            proof {
                assert forall|a: int, b: int, k: int|
                    0 <= a < lat && 0 <= b < long_segments && 0 <= k < 6 implies indices@[6 * (a
                    * long_segments + b) + k] == #[trigger] cell_corner(
                    a,
                    b,
                    long_segments as int,
                    k,
                ) by {
                    assert(a * long_segments + b < lat * long_segments) by (nonlinear_arith)
                        requires
                            0 <= a < lat,
                            0 <= b < long_segments,
                    ;
                    assert(indices@[6 * (a * long_segments + b) + k] == before[6 * (a
                        * long_segments + b) + k]);
                }
                assert forall|b: int, k: int| 0 <= b < long + 1 && 0 <= k < 6 implies indices@[6
                    * (lat * long_segments + b) + k] == #[trigger] cell_corner(
                    lat as int,
                    b,
                    long_segments as int,
                    k,
                ) by {
                    if b < long {
                        assert(indices@[6 * (lat * long_segments + b) + k] == before[6 * (lat
                            * long_segments + b) + k]);
                    } else {
                        assert(6 * (lat * long_segments + b) + k == base + k);
                    }
                }
            }
            long += 1;
        }
        row = below;
        lat += 1;
    }
    indices
}

} // verus!
