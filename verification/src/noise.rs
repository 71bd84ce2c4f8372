//! Sampled noise: the values that terrain generation reads.
//!
//! A field is a table of raw noise samples taken at the voxel positions of
//! one chunk. Surface samples are in blocks; cave samples are fixed-point
//! with `NOISE_UNIT` to the whole.

use vstd::prelude::*;
use crate::chunk::{cell_index, dimension_error, valid_dimensions, check_dimensions, ChunkError};

verus! {

/// Fixed-point scale of cave samples: a sample of `NOISE_UNIT` stands for 1.
pub const NOISE_UNIT: i32 = 1000;

/// Cave density above which a voxel is carved out, unless another
/// threshold is chosen: 1 in fixed point.
pub const CAVE_THRESHOLD: i32 = NOISE_UNIT;

/// Absolute value.
pub open spec fn magnitude(v: int) -> int {
    if v < 0 {
        -v
    } else {
        v
    }
}

/// A noise field as a mathematical object: the dimensions it was sampled
/// for and its two tables of raw samples.
pub struct NoiseView {
    pub width: int,
    pub height: int,
    /// One sample per column, `(x, z)` at `x * width + z`.
    pub surface: Seq<i32>,
    /// One sample per voxel, `(x, y, z)` at `cell_index(width, x, y, z)`.
    pub cave: Seq<i32>,
}

impl NoiseView {
    /// The tables hold one sample per column and one per voxel.
    pub open spec fn wf(self) -> bool {
        &&& valid_dimensions(self.width, self.height)
        &&& self.surface.len() == self.width * self.width
        &&& self.cave.len() == self.width * self.width * self.height
    }

    /// Raw 2D sample of column `(x, z)`; zero outside the sampled columns.
    pub open spec fn surface_sample(self, x: int, z: int) -> int {
        if 0 <= x < self.width && 0 <= z < self.width {
            self.surface[x * self.width + z] as int
        } else {
            0
        }
    }

    /// Raw 3D sample of voxel `(x, y, z)`; zero outside the sampled voxels.
    pub open spec fn cave_sample(self, x: int, y: int, z: int) -> int {
        if 0 <= x < self.width && 0 <= y < self.height && 0 <= z < self.width {
            self.cave[cell_index(self.width, x, y, z)] as int
        } else {
            0
        }
    }

    /// Height of the terrain surface over column `(x, z)`: the magnitude of
    /// the sample, raised by half the chunk height.
    pub open spec fn surface_height(self, x: int, z: int) -> int {
        magnitude(self.surface_sample(x, z)) + self.height / 2
    }

    /// Cave density at `(x, y, z)`: the magnitude of the sample.
    pub open spec fn cave_density(self, x: int, y: int, z: int) -> int {
        magnitude(self.cave_sample(x, y, z))
    }
}

/// Noise sampled at the voxel positions of one chunk.
#[derive(Debug)]
pub struct NoiseField {
    width: i32,
    height: i32,
    surface: Vec<i32>,
    cave: Vec<i32>,
}

impl NoiseField {
    /// The field as dimensions and tables.
    pub closed spec fn view(&self) -> NoiseView {
        NoiseView {
            width: self.width as int,
            height: self.height as int,
            surface: self.surface@,
            cave: self.cave@,
        }
    }

    /// The tables match the dimensions, and the dimensions are valid.
    pub open spec fn wf(&self) -> bool {
        self@.wf()
    }

    /// A field over the given tables of raw samples: `surface` holds column
    /// `(x, z)` at `x * width + z`, `cave` holds voxel `(x, y, z)` at
    /// `cell_index(width, x, y, z)`.
    pub fn from_samples(width: i32, height: i32, surface: Vec<i32>, cave: Vec<i32>) -> (r:
        Result<NoiseField, ChunkError>)
        ensures
            match r {
                Ok(field) => {
                    &&& field.wf()
                    &&& field@ == (NoiseView {
                        width: width as int,
                        height: height as int,
                        surface: surface@,
                        cave: cave@,
                    })
                },
                Err(e) => match dimension_error(width as int, height as int) {
                    Some(d) => e == d,
                    None => {
                        &&& e == ChunkError::LengthMismatch
                        &&& (surface.len() != width * width || cave.len() != width * width
                            * height)
                    },
                },
            },
    {
        let volume: usize = match check_dimensions(width, height) {
            Ok(volume) => volume,
            Err(e) => {
                return Err(e);
            },
        };
        assert(0 < width * width <= width * width * height) by (nonlinear_arith)
            requires
                0 < width,
                0 < height,
        ;
        let columns: usize = width as usize * width as usize;
        if surface.len() != columns || cave.len() != volume {
            return Err(ChunkError::LengthMismatch);
        }
        Ok(NoiseField { width, height, surface, cave })
    }

    /// Width (and depth) the field was sampled for.
    pub fn width(&self) -> (w: i32)
        ensures
            w == self@.width,
    {
        self.width
    }

    /// Height the field was sampled for.
    pub fn height(&self) -> (h: i32)
        ensures
            h == self@.height,
    {
        self.height
    }

    /// Height of the terrain surface over column `(x, z)`.
    pub fn sample_surface_height(&self, x: i32, z: i32) -> (h: i64)
        requires
            self.wf(),
        ensures
            h == self@.surface_height(x as int, z as int),
    {
        let mut sample: i64 = 0;
        if 0 <= x && x < self.width && 0 <= z && z < self.width {
            assert(0 <= x * self.width <= x * self.width + z < self.width * self.width)
                by (nonlinear_arith)
                requires
                    0 <= x < self.width,
                    0 <= z < self.width,
            ;
            assert(self.width * self.width <= self.width * self.width * self.height)
                by (nonlinear_arith)
                requires
                    0 < self.width,
                    0 < self.height,
            ;
            let idx: usize = x as usize * self.width as usize + z as usize;
            sample = self.surface[idx] as i64;
        }
        if sample < 0 {
            sample = -sample;
        }
        sample + (self.height / 2) as i64
    }

    /// Cave density at `(x, y, z)`, in fixed point.
    pub fn sample_cave_density(&self, x: i32, y: i32, z: i32) -> (d: i64)
        requires
            self.wf(),
        ensures
            d == self@.cave_density(x as int, y as int, z as int),
    {
        let mut sample: i64 = 0;
        if 0 <= x && x < self.width && 0 <= y && y < self.height && 0 <= z && z < self.width {
            proof {
                crate::chunk::lemma_cell_index_in_range(
                    self.width as int,
                    self.height as int,
                    x as int,
                    y as int,
                    z as int,
                );
            }
            let w: usize = self.width as usize;
            let row: usize = y as usize * w + x as usize;
            let idx: usize = row * w + z as usize;
            sample = self.cave[idx] as i64;
        }
        if sample < 0 {
            sample = -sample;
        }
        sample
    }
}

} // verus!
