//! The unit cube: its corners, its six faces and the texture corners of a
//! quad. Every piece of face geometry in the crate is read from here.

use vstd::prelude::*;

verus! {

/// Width (and depth) of a chunk when nothing else is configured.
pub const CHUNK_WIDTH: i32 = 32;

/// Height of a chunk when nothing else is configured.
pub const CHUNK_HEIGHT: i32 = 8;

/// The eight corners of the unit cube.
pub const VERTICES: [[i32; 3]; 8] = [
    [0, 0, 0],
    [1, 0, 0],
    [1, 1, 0],
    [0, 1, 0],
    [0, 0, 1],
    [1, 0, 1],
    [1, 1, 1],
    [0, 1, 1],
];

/// Texture coordinates of the four corners of a quad.
pub const UVS: [[i32; 2]; 4] = [[0, 0], [0, 1], [1, 0], [1, 1]];

/// For each face, the four cube corners that span it, in winding order.
pub const TRIANGLES: [[usize; 4]; 6] = [
    [0, 3, 1, 2],
    [5, 6, 4, 7],
    [3, 7, 2, 6],
    [1, 5, 0, 4],
    [4, 7, 0, 3],
    [1, 2, 5, 6],
];

/// For each face, the step to the neighbour that can hide it.
pub const FACE_CHECKS: [[i32; 3]; 6] = [
    [0, 0, -1],
    [0, 0, 1],
    [0, 1, 0],
    [0, -1, 0],
    [-1, 0, 0],
    [1, 0, 0],
];

/// Position of cube corner `c`, for `0 <= c < 8`.
pub open spec fn cube_corner(c: int) -> (int, int, int) {
    (VERTICES[c][0] as int, VERTICES[c][1] as int, VERTICES[c][2] as int)
}

/// Step from a voxel to its neighbour across face `f`, for `0 <= f < 6`:
/// -Z, +Z, +Y, -Y, -X, +X.
pub open spec fn face_offset(f: int) -> (int, int, int) {
    (FACE_CHECKS[f][0] as int, FACE_CHECKS[f][1] as int, FACE_CHECKS[f][2] as int)
}

/// The cube corner that is the `k`-th corner of face `f`, for `0 <= f < 6`
/// and `0 <= k < 4`.
pub open spec fn face_corner(f: int, k: int) -> int {
    TRIANGLES[f][k] as int
}

/// Texture coordinate of the `k`-th corner of a quad, for `0 <= k < 4`.
pub open spec fn uv_corner(k: int) -> (int, int) {
    (UVS[k][0] as int, UVS[k][1] as int)
}

/// Reads `FACE_CHECKS`.
pub(crate) fn neighbour_step(f: usize) -> (step: (i32, i32, i32))
    requires
        f < 6,
    ensures
        (step.0 as int, step.1 as int, step.2 as int) == face_offset(f as int),
        -1 <= step.0 <= 1,
        -1 <= step.1 <= 1,
        -1 <= step.2 <= 1,
{
    let row = FACE_CHECKS[f];
    (row[0], row[1], row[2])
}

/// Reads `VERTICES` through `TRIANGLES`: the `k`-th corner of face `f`.
pub(crate) fn face_vertex(f: usize, k: usize) -> (corner: (i32, i32, i32))
    requires
        f < 6,
        k < 4,
    ensures
        (corner.0 as int, corner.1 as int, corner.2 as int) == cube_corner(
            face_corner(f as int, k as int),
        ),
        0 <= corner.0 <= 1,
        0 <= corner.1 <= 1,
        0 <= corner.2 <= 1,
{
    let c: usize = TRIANGLES[f][k];
    let row = VERTICES[c];
    (row[0], row[1], row[2])
}

/// Reads `UVS`.
pub(crate) fn quad_uv(k: usize) -> (uv: (i32, i32))
    requires
        k < 4,
    ensures
        (uv.0 as int, uv.1 as int) == uv_corner(k as int),
{
    let row = UVS[k];
    (row[0], row[1])
}

} // verus!
