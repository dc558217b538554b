//! Triangle indices for a terrain grid.
//!
//! A heightmap of `w` by `h` samples becomes a grid of `w * h` vertices in
//! row-major order. Each grid cell between two neighbouring rows and
//! columns is covered by two triangles; this module computes the index
//! buffer for those triangles. The vertex positions and normals are
//! floating-point work and stay outside the library.

use vstd::prelude::*;

verus! {

/// Vertex index `k` (of six) of the two triangles that cover the grid cell
/// at column `x` between rows `y - 1` and `y`, with `w` vertices per row:
/// the first triangle is bottom-left, bottom-right, top-left; the second is
/// top-left, bottom-right, top-right.
pub open spec fn terrain_index_at(w: u32, y: int, x: int, k: int) -> int {
    if k == 0 {
        (y - 1) * w + x
    } else if k == 1 {
        (y - 1) * w + x + 1
    } else if k == 2 {
        y * w + x
    } else if k == 3 {
        y * w + x
    } else if k == 4 {
        (y - 1) * w + x + 1
    } else {
        y * w + x + 1
    }
}

/// The index buffer of the terrain grid: for each of the `(h - 1) * (w - 1)`
/// cells, in row-major order, the six vertex indices of its two triangles.
/// Every index names a vertex of the grid, so it is below `w * h`.
pub fn terrain_grid_indices(w: u32, h: u32) -> (r: Vec<u32>)
    requires
        1 <= w,
        1 <= h,
        6 * (h as int) * ((w as int) - 1) <= u32::MAX,
        (w as int) * (h as int) <= u32::MAX as int + 1,
    ensures
        r@.len() == 6 * ((h as int) - 1) * ((w as int) - 1),
        forall|y: int, x: int, k: int|
            1 <= y < h && 0 <= x < (w as int) - 1 && 0 <= k < 6 ==> r@[6 * ((y - 1) * ((
            w as int) - 1) + x) + k] == terrain_index_at(w, y, x, k),
        forall|t: int| 0 <= t < r@.len() ==> r@[t] < (w as int) * (h as int),
{
    let ghost wi = w as int;
    let ghost hi = h as int;
    proof {
        assert(0 <= hi * (wi - 1) && (hi * (wi - 1)) * 6 == 6 * hi * (wi - 1))
            by (nonlinear_arith)
            requires
                1 <= wi,
                1 <= hi,
        ;
    }
    let capacity = h * (w - 1) * 6;
    let mut indices: Vec<u32> = Vec::with_capacity(capacity as usize);
    proof {
        assert(6 * (1 - 1) * (wi - 1) == 0) by (nonlinear_arith);
    }
    let mut y: u32 = 1;
    while y < h
        invariant
            1 <= w,
            1 <= h,
            6 * hi * (wi - 1) <= u32::MAX,
            wi * hi <= u32::MAX as int + 1,
            wi == w as int,
            hi == h as int,
            1 <= y <= h,
            indices@.len() == 6 * (y - 1) * (wi - 1),
            forall|yy: int, xx: int, k: int|
                1 <= yy < y && 0 <= xx < wi - 1 && 0 <= k < 6 ==> indices@[6 * ((yy - 1) * (wi
                - 1) + xx) + k] == terrain_index_at(w, yy, xx, k),
            forall|t: int| 0 <= t < indices@.len() ==> indices@[t] < wi * hi,
        decreases h - y,
    {
        proof {
            assert(6 * (y - 1) * (wi - 1) == 6 * ((y - 1) * (wi - 1) + 0)) by (nonlinear_arith);
        }
        let mut x: u32 = 0;
        while x < w - 1
            invariant
                1 <= w,
                1 <= h,
                6 * hi * (wi - 1) <= u32::MAX,
                wi * hi <= u32::MAX as int + 1,
                wi == w as int,
                hi == h as int,
                1 <= y < h,
                0 <= x <= w - 1,
                indices@.len() == 6 * ((y - 1) * (wi - 1) + x),
                forall|yy: int, xx: int, k: int|
                    1 <= yy < y && 0 <= xx < wi - 1 && 0 <= k < 6 ==> indices@[6 * ((yy - 1) * (
                    wi - 1) + xx) + k] == terrain_index_at(w, yy, xx, k),
                forall|xx: int, k: int|
                    0 <= xx < x && 0 <= k < 6 ==> indices@[6 * ((y - 1) * (wi - 1) + xx) + k]
                        == terrain_index_at(w, y as int, xx, k),
                forall|t: int| 0 <= t < indices@.len() ==> indices@[t] < wi * hi,
            decreases w - 1 - x,
        {
            proof {
                assert((y - 1) * wi + x + 1 < wi * hi && y * wi + x + 1 < wi * hi && (y - 1) * wi
                    + x >= 0) by (nonlinear_arith)
                    requires
                        1 <= y < hi,
                        0 <= x < wi - 1,
                        1 <= wi,
                ;
                assert(6 * ((y - 1) * (wi - 1) + x) + 6 <= 6 * (y - 1) * (wi - 1) + 6 * (wi - 1))
                    by (nonlinear_arith)
                    requires
                        0 <= x < wi - 1,
                ;
                assert(6 * (y - 1) * (wi - 1) + 6 * (wi - 1) <= 6 * hi * (wi - 1))
                    by (nonlinear_arith)
                    requires
                        1 <= y < hi,
                        1 <= wi,
                ;
            }
            let ghost len0 = indices@.len() as int;
            indices.push((y - 1) * w + x);
            indices.push((y - 1) * w + x + 1);
            indices.push(y * w + x);
            indices.push(y * w + x);
            indices.push((y - 1) * w + x + 1);
            indices.push(y * w + x + 1);
            proof {
                assert forall|xx: int, k: int|
                    0 <= xx < x + 1 && 0 <= k < 6 implies indices@[6 * ((y - 1) * (wi - 1) + xx)
                    + k] == terrain_index_at(w, y as int, xx, k) by {
                    if xx < x {
                        assert(6 * ((y - 1) * (wi - 1) + xx) + k < len0) by (nonlinear_arith)
                            requires
                                0 <= xx < x,
                                0 <= k < 6,
                                len0 == 6 * ((y - 1) * (wi - 1) + x),
                        ;
                    } else {
                        assert(6 * ((y - 1) * (wi - 1) + xx) + k == len0 + k) by (nonlinear_arith)
                            requires
                                xx == x,
                                len0 == 6 * ((y - 1) * (wi - 1) + x),
                        ;
                    }
                }
                assert forall|yy: int, xx: int, k: int|
                    1 <= yy < y && 0 <= xx < wi - 1 && 0 <= k < 6 implies indices@[6 * ((yy - 1)
                    * (wi - 1) + xx) + k] == terrain_index_at(w, yy, xx, k) by {
                    assert(0 <= 6 * ((yy - 1) * (wi - 1) + xx) + k < len0) by (nonlinear_arith)
                        requires
                            1 <= yy < y,
                            0 <= xx < wi - 1,
                            0 <= k < 6,
                            0 <= x,
                            len0 == 6 * ((y - 1) * (wi - 1) + x),
                    ;
                }
            }
            x += 1;
        }
        proof {
            assert(6 * ((y - 1) * (wi - 1) + (wi - 1)) == 6 * ((y + 1) - 1) * (wi - 1))
                by (nonlinear_arith);
        }
        y += 1;
    }
    indices
}

} // verus!
