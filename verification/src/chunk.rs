//! The solid/air grid of one chunk.

use vstd::prelude::*;
use crate::noise::{NoiseField, NoiseView};

verus! {

/// Largest number of voxels a chunk may hold. A voxel contributes at most
/// 24 vertices to a mesh, so with this bound every vertex of a chunk's mesh
/// can be numbered by a `u32`.
pub const MAX_VOXELS: i64 = 178_956_970;

/// Why a chunk (or a table of samples for one) could not be built.
#[derive(Clone, Copy, Debug, PartialEq, Eq, Structural)]
pub enum ChunkError {
    /// Width or height is zero or negative.
    NonPositiveDimension,
    /// `width * width * height` exceeds `MAX_VOXELS`.
    TooLarge,
    /// A flat table does not hold exactly one entry per cell.
    LengthMismatch,
}

/// Dimensions a chunk can be built with.
pub open spec fn valid_dimensions(width: int, height: int) -> bool {
    &&& width > 0
    &&& height > 0
    &&& width * width * height <= MAX_VOXELS
}

/// The error that dimensions are rejected with, if they are rejected.
/// A non-positive dimension is reported before an excessive size.
pub open spec fn dimension_error(width: int, height: int) -> Option<ChunkError> {
    if width <= 0 || height <= 0 {
        Some(ChunkError::NonPositiveDimension)
    } else if width * width * height > MAX_VOXELS {
        Some(ChunkError::TooLarge)
    } else {
        None
    }
}

/// Position of voxel `(x, y, z)` in a flat table of a chunk of the given
/// width: layers of constant `y`, each made of rows of constant `x`.
pub open spec fn cell_index(width: int, x: int, y: int, z: int) -> int {
    (y * width + x) * width + z
}

/// A chunk as a mathematical object: its dimensions and the set of
/// coordinates that are solid.
pub struct ChunkView {
    pub width: int,
    pub height: int,
    pub solid: Set<(int, int, int)>,
}

impl ChunkView {
    /// `(x, y, z)` names a voxel of the chunk.
    pub open spec fn in_bounds(self, x: int, y: int, z: int) -> bool {
        &&& 0 <= x < self.width
        &&& 0 <= y < self.height
        &&& 0 <= z < self.width
    }

    /// `(x, y, z)` is solid. Coordinates outside the chunk never are.
    pub open spec fn solid_at(self, x: int, y: int, z: int) -> bool {
        self.solid.contains((x, y, z))
    }

    /// The dimensions are valid and only voxels of the chunk are solid.
    pub open spec fn wf(self) -> bool {
        &&& valid_dimensions(self.width, self.height)
        &&& forall|x: int, y: int, z: int| #[trigger]
            self.solid.contains((x, y, z)) ==> self.in_bounds(x, y, z)
    }
}

/// Neither dimension of a chunk exceeds the bound on its volume.
pub proof fn lemma_dimension_bounds(width: int, height: int)
    requires
        valid_dimensions(width, height),
    ensures
        0 < width <= MAX_VOXELS,
        0 < height <= MAX_VOXELS,
        0 < width * width * height,
{
    assert(width <= width * width * height && height <= width * width * height && 0 < width
        * width * height) by (nonlinear_arith)
        requires
            0 < width,
            0 < height,
    ;
}

/// In-bounds coordinates index into a table of `width * width * height`
/// entries.
pub proof fn lemma_cell_index_in_range(width: int, height: int, x: int, y: int, z: int)
    requires
        0 <= x < width,
        0 <= y < height,
        0 <= z < width,
    ensures
        0 <= cell_index(width, x, y, z) < width * width * height,
        0 <= y * width <= y * width + x < width * height <= width * width * height,
        0 <= (y * width + x) * width,
{
    assert(0 <= y * width && y * width + width <= height * width) by (nonlinear_arith)
        requires
            0 <= y < height,
            0 < width,
    ;
    let row = y * width + x;
    assert(0 <= row * width && row * width + width <= (height * width) * width)
        by (nonlinear_arith)
        requires
            0 <= row,
            row + 1 <= height * width,
            0 < width,
    ;
    assert((height * width) * width == width * width * height) by (nonlinear_arith);
    assert(width * height == height * width) by (nonlinear_arith);
    assert(width * height <= width * width * height) by (nonlinear_arith)
        requires
            0 < width,
            0 < height,
    ;
}

/// Distinct voxels have distinct places in the table.
pub proof fn lemma_cell_index_injective(
    width: int,
    x1: int,
    y1: int,
    z1: int,
    x2: int,
    y2: int,
    z2: int,
)
    requires
        0 <= x1 < width,
        0 <= z1 < width,
        0 <= x2 < width,
        0 <= z2 < width,
        cell_index(width, x1, y1, z1) == cell_index(width, x2, y2, z2),
    ensures
        x1 == x2,
        y1 == y2,
        z1 == z2,
{
    let r1 = y1 * width + x1;
    let r2 = y2 * width + x2;
    vstd::arithmetic::div_mod::lemma_fundamental_div_mod_converse(
        cell_index(width, x1, y1, z1),
        width,
        r1,
        z1,
    );
    vstd::arithmetic::div_mod::lemma_fundamental_div_mod_converse(
        cell_index(width, x2, y2, z2),
        width,
        r2,
        z2,
    );
    vstd::arithmetic::div_mod::lemma_fundamental_div_mod_converse(r1, width, y1, x1);
    vstd::arithmetic::div_mod::lemma_fundamental_div_mod_converse(r2, width, y2, x2);
}

/// Whether terrain generation makes `(x, y, z)` solid: the voxel lies below
/// the surface of its column and its cave density does not exceed the
/// threshold. Carving wins over filling.
pub open spec fn terrain_solid(
    noise: NoiseView,
    x: int,
    y: int,
    z: int,
    cave_threshold: int,
) -> bool {
    &&& y < noise.surface_height(x, z)
    &&& !(noise.cave_density(x, y, z) > cave_threshold)
}

/// The chunk that terrain generation produces from a noise field.
pub open spec fn populated(
    width: int,
    height: int,
    noise: NoiseView,
    cave_threshold: int,
) -> ChunkView {
    ChunkView {
        width,
        height,
        solid: Set::new(
            |p: (int, int, int)|
                0 <= p.0 < width && 0 <= p.1 < height && 0 <= p.2 < width && terrain_solid(
                    noise,
                    p.0,
                    p.1,
                    p.2,
                    cave_threshold,
                ),
        ),
    }
}

/// Every entry of a partly filled table that belongs to a voxel holds what
/// terrain generation decides for that voxel.
spec fn cells_follow(
    cells: Seq<bool>,
    width: int,
    height: int,
    noise: NoiseView,
    cave_threshold: int,
) -> bool {
    forall|x: int, y: int, z: int|
        0 <= x < width && 0 <= y < height && 0 <= z < width && #[trigger] cell_index(
            width,
            x,
            y,
            z,
        ) < cells.len() ==> cells[cell_index(width, x, y, z)] == terrain_solid(
            noise,
            x,
            y,
            z,
            cave_threshold,
        )
}

/// The solid/air flags of a `width x height x width` block of voxels.
#[derive(Debug)]
pub struct VoxelChunk {
    width: i32,
    height: i32,
    cells: Vec<bool>,
}

/// Checks chunk dimensions and returns the number of voxels they give.
pub fn check_dimensions(width: i32, height: i32) -> (r: Result<usize, ChunkError>)
    ensures
        match r {
            Ok(volume) => valid_dimensions(width as int, height as int) && volume == width
                * width * height,
            Err(e) => dimension_error(width as int, height as int) == Some(e),
        },
{
    if width <= 0 || height <= 0 {
        return Err(ChunkError::NonPositiveDimension);
    }
    let w: i64 = width as i64;
    let h: i64 = height as i64;
    assert(0 < w * w <= 0x4000_0000_0000_0000) by (nonlinear_arith)
        requires
            0 < w <= 0x7fff_ffff,
    ;
    let layer: i64 = w * w;
    if layer > MAX_VOXELS {
        assert(w * w * h > MAX_VOXELS) by (nonlinear_arith)
            requires
                w * w > MAX_VOXELS,
                h >= 1,
        ;
        return Err(ChunkError::TooLarge);
    }
    assert(0 < layer * h <= MAX_VOXELS * 0x7fff_ffff) by (nonlinear_arith)
        requires
            0 < layer <= MAX_VOXELS,
            0 < h <= 0x7fff_ffff,
    ;
    let volume: i64 = layer * h;
    if volume > MAX_VOXELS {
        return Err(ChunkError::TooLarge);
    }
    Ok(volume as usize)
}

impl VoxelChunk {
    /// The table matches the dimensions, and the dimensions are valid.
    pub closed spec fn wf(&self) -> bool {
        &&& valid_dimensions(self.width as int, self.height as int)
        &&& self.cells.len() == self.width * self.width * self.height
    }

    /// The chunk as dimensions and a set of solid coordinates.
    pub closed spec fn view(&self) -> ChunkView {
        ChunkView {
            width: self.width as int,
            height: self.height as int,
            solid: Set::new(
                |p: (int, int, int)|
                    0 <= p.0 < self.width && 0 <= p.1 < self.height && 0 <= p.2 < self.width
                        && self.cells@[cell_index(self.width as int, p.0, p.1, p.2)],
            ),
        }
    }

    /// A well-formed chunk has a well-formed view.
    pub proof fn lemma_view_wf(&self)
        requires
            self.wf(),
        ensures
            self@.wf(),
    {
    }

    /// A chunk of the given dimensions in which every voxel is air.
    pub fn new(width: i32, height: i32) -> (r: Result<VoxelChunk, ChunkError>)
        ensures
            match r {
                Ok(chunk) => {
                    &&& valid_dimensions(width as int, height as int)
                    &&& chunk.wf()
                    &&& chunk@ == (ChunkView {
                        width: width as int,
                        height: height as int,
                        solid: Set::empty(),
                    })
                },
                Err(e) => dimension_error(width as int, height as int) == Some(e),
            },
    {
        let volume: usize = match check_dimensions(width, height) {
            Ok(volume) => volume,
            Err(e) => {
                return Err(e);
            },
        };
        let mut cells: Vec<bool> = Vec::new();
        let mut i: usize = 0;
        while i < volume
            invariant
                i <= volume,
                cells.len() == i,
                forall|k: int| 0 <= k < i ==> !cells[k],
            decreases volume - i,
        {
            cells.push(false);
            i += 1;
        }
        let chunk = VoxelChunk { width, height, cells };
        proof {
            assert forall|p: (int, int, int)| !chunk@.solid.contains(p) by {
                if 0 <= p.0 < width && 0 <= p.1 < height && 0 <= p.2 < width {
                    lemma_cell_index_in_range(width as int, height as int, p.0, p.1, p.2);
                }
            }
            assert(chunk@.solid =~= Set::empty());
        }
        Ok(chunk)
    }

    /// A chunk whose flags are read from a flat table: voxel `(x, y, z)` is
    /// solid where the entry at `cell_index(width, x, y, z)` is `true`.
    pub fn from_cells(width: i32, height: i32, cells: Vec<bool>) -> (r: Result<
        VoxelChunk,
        ChunkError,
    >)
        ensures
            match r {
                Ok(chunk) => {
                    &&& valid_dimensions(width as int, height as int)
                    &&& cells.len() == width * width * height
                    &&& chunk.wf()
                    &&& chunk@.width == width
                    &&& chunk@.height == height
                    &&& forall|x: int, y: int, z: int|
                        chunk@.in_bounds(x, y, z) ==> (#[trigger] chunk@.solid_at(x, y, z)
                            == cells@[cell_index(width as int, x, y, z)])
                },
                Err(e) => match dimension_error(width as int, height as int) {
                    Some(d) => e == d,
                    None => e == ChunkError::LengthMismatch && cells.len() != width * width
                        * height,
                },
            },
    {
        let volume: usize = match check_dimensions(width, height) {
            Ok(volume) => volume,
            Err(e) => {
                return Err(e);
            },
        };
        if cells.len() != volume {
            return Err(ChunkError::LengthMismatch);
        }
        Ok(VoxelChunk { width, height, cells })
    }

    /// Fills the chunk from a noise field, replacing what it held: a voxel
    /// is solid where it lies below the sampled surface height of its
    /// column, unless its cave density exceeds `cave_threshold`.
    pub fn populate(&mut self, noise: &NoiseField, cave_threshold: i32)
        requires
            old(self).wf(),
            noise.wf(),
        ensures
            final(self).wf(),
            final(self)@ == populated(
                old(self)@.width,
                old(self)@.height,
                noise@,
                cave_threshold as int,
            ),
    {
        let width: i32 = self.width;
        let height: i32 = self.height;
        let ghost w: int = width as int;
        let ghost h: int = height as int;
        let ghost t: int = cave_threshold as int;
        let mut cells: Vec<bool> = Vec::new();
        let mut y: i32 = 0;
        while y < height
            invariant
                valid_dimensions(w, h),
                w == width,
                h == height,
                t == cave_threshold,
                noise.wf(),
                0 <= y <= height,
                cells.len() == cell_index(w, 0, y as int, 0),
                cells_follow(cells@, w, h, noise@, t),
            decreases height - y,
        {
            let mut x: i32 = 0;
            while x < width
                invariant
                    valid_dimensions(w, h),
                    w == width,
                    h == height,
                    t == cave_threshold,
                    noise.wf(),
                    0 <= y < height,
                    0 <= x <= width,
                    cells.len() == cell_index(w, x as int, y as int, 0),
                    cells_follow(cells@, w, h, noise@, t),
                decreases width - x,
            {
                let mut z: i32 = 0;
                while z < width
                    invariant
                        valid_dimensions(w, h),
                        w == width,
                        h == height,
                        t == cave_threshold,
                        noise.wf(),
                        0 <= y < height,
                        0 <= x < width,
                        0 <= z <= width,
                        cells.len() == cell_index(w, x as int, y as int, z as int),
                        cells_follow(cells@, w, h, noise@, t),
                    decreases width - z,
                {
                    let mut solid: bool = (y as i64) < noise.sample_surface_height(x, z);
                    if noise.sample_cave_density(x, y, z) > cave_threshold as i64 {
                        solid = false;
                    }
                    let ghost before = cells@;
                    cells.push(solid);
                    proof {
                        assert forall|x2: int, y2: int, z2: int|
                            0 <= x2 < w && 0 <= y2 < h && 0 <= z2 < w && #[trigger] cell_index(
                                w,
                                x2,
                                y2,
                                z2,
                            ) < cells@.len() implies cells@[cell_index(w, x2, y2, z2)]
                            == terrain_solid(noise@, x2, y2, z2, t) by {
                            if cell_index(w, x2, y2, z2) == before.len() {
                                lemma_cell_index_injective(
                                    w,
                                    x2,
                                    y2,
                                    z2,
                                    x as int,
                                    y as int,
                                    z as int,
                                );
                            }
                        }
                    }
                    z += 1;
                }
                assert(cell_index(w, x as int, y as int, w) == cell_index(
                    w,
                    x as int + 1,
                    y as int,
                    0,
                )) by (nonlinear_arith);
                x += 1;
            }
            assert(cell_index(w, w, y as int, 0) == cell_index(w, 0, y as int + 1, 0))
                by (nonlinear_arith);
            y += 1;
        }
        assert(cell_index(w, 0, h, 0) == w * w * h) by (nonlinear_arith);
        self.cells = cells;
        proof {
            assert forall|p: (int, int, int)|
                self@.solid.contains(p) == populated(w, h, noise@, t).solid.contains(p) by {
                if 0 <= p.0 < w && 0 <= p.1 < h && 0 <= p.2 < w {
                    lemma_cell_index_in_range(w, h, p.0, p.1, p.2);
                }
            }
            assert(self@.solid =~= populated(w, h, noise@, t).solid);
        }
    }

    /// Width (and depth) of the chunk.
    pub fn width(&self) -> (w: i32)
        ensures
            w == self@.width,
    {
        self.width
    }

    /// Height of the chunk.
    pub fn height(&self) -> (h: i32)
        ensures
            h == self@.height,
    {
        self.height
    }

    /// Whether `(x, y, z)` names a voxel of this chunk.
    pub fn is_block_inside_chunk(&self, x: i32, y: i32, z: i32) -> (inside: bool)
        ensures
            inside == self@.in_bounds(x as int, y as int, z as int),
    {
        !(x < 0 || x >= self.width || y < 0 || y >= self.height || z < 0 || z >= self.width)
    }

    /// Whether `(x, y, z)` is solid. Any coordinate can be asked for: what
    /// lies outside the chunk is air.
    pub fn is_solid(&self, x: i32, y: i32, z: i32) -> (solid: bool)
        requires
            self.wf(),
        ensures
            solid == self@.solid_at(x as int, y as int, z as int),
            !self@.in_bounds(x as int, y as int, z as int) ==> !solid,
    {
        if !self.is_block_inside_chunk(x, y, z) {
            return false;
        }
        proof {
            lemma_cell_index_in_range(
                self.width as int,
                self.height as int,
                x as int,
                y as int,
                z as int,
            );
        }
        let w: usize = self.width as usize;
        let row: usize = y as usize * w + x as usize;
        let idx: usize = row * w + z as usize;
        self.cells[idx]
    }
}

} // verus!
