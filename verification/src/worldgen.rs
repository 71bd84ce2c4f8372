//! Generation of whole chunks: random fill, then meshing.

use vstd::prelude::*;
use crate::chunk::{
    cell_index, check_dimensions, dimension_error, lemma_cell_index_in_range, valid_dimensions,
    ChunkError, ChunkView, VoxelChunk,
};
use crate::mesh::{generate_mesh_data, mesh_of, MeshBuffer};
use crate::tables::{CHUNK_HEIGHT, CHUNK_WIDTH};

verus! {

/// One random boolean: calls `rand::random::<bool>()`, which draws it from
/// the generator of the running thread and panics only if the operating
/// system cannot seed that generator. The body is not verified, and nothing
/// is claimed of the value that comes back.
#[verifier::external_body]
fn random_flag() -> (flag: bool) {
    rand::random::<bool>()
}

/// The chunk that a table of draws stands for: a voxel is solid unless the
/// draw at its `cell_index` came up `true`.
pub fn voxelmap_from_draws(width: i32, height: i32, draws: &Vec<bool>) -> (r: Result<
    VoxelChunk,
    ChunkError,
>)
    ensures
        match r {
            Ok(chunk) => {
                &&& valid_dimensions(width as int, height as int)
                &&& draws.len() == width * width * height
                &&& chunk.wf()
                &&& chunk@.width == width
                &&& chunk@.height == height
                &&& forall|x: int, y: int, z: int|
                    chunk@.in_bounds(x, y, z) ==> (#[trigger] chunk@.solid_at(x, y, z)
                        == !draws@[cell_index(width as int, x, y, z)])
            },
            Err(e) => match dimension_error(width as int, height as int) {
                Some(d) => e == d,
                None => e == ChunkError::LengthMismatch && draws.len() != width * width * height,
            },
        },
{
    let mut cells: Vec<bool> = Vec::new();
    let mut i: usize = 0;
    while i < draws.len()
        invariant
            i <= draws.len(),
            cells.len() == i,
            forall|k: int| 0 <= k < i ==> cells[k] == !draws[k],
        decreases draws.len() - i,
    {
        let mut solid: bool = true;
        if draws[i] {
            solid = false;
        }
        cells.push(solid);
        i += 1;
    }
    let r = VoxelChunk::from_cells(width, height, cells);
    proof {
        if r is Ok {
            let chunk = r->Ok_0;
            assert forall|x: int, y: int, z: int| chunk@.in_bounds(x, y, z) implies #[trigger]
            chunk@.solid_at(x, y, z) == !draws@[cell_index(width as int, x, y, z)] by {
                lemma_cell_index_in_range(width as int, height as int, x, y, z);
            }
        }
    }
    r
}

/// A chunk of the given dimensions in which every voxel is solid or air
/// by its own random draw.
pub fn generate_voxelmap(width: i32, height: i32) -> (r: Result<VoxelChunk, ChunkError>)
    ensures
        match r {
            Ok(chunk) => {
                &&& valid_dimensions(width as int, height as int)
                &&& chunk.wf()
                &&& chunk@.width == width
                &&& chunk@.height == height
            },
            Err(e) => dimension_error(width as int, height as int) == Some(e),
        },
{
    let volume: usize = match check_dimensions(width, height) {
        Ok(volume) => volume,
        Err(e) => {
            return Err(e);
        },
    };
    let mut draws: Vec<bool> = Vec::new();
    let mut i: usize = 0;
    while i < volume
        invariant
            i <= volume,
            draws.len() == i,
        decreases volume - i,
    {
        draws.push(random_flag());
        i += 1;
    }
    voxelmap_from_draws(width, height, &draws)
}

/// The surface mesh of a randomly filled chunk of the given dimensions.
pub fn generate_chunk(width: i32, height: i32) -> (r: Result<MeshBuffer, ChunkError>)
    ensures
        match r {
            Ok(mesh) => {
                &&& valid_dimensions(width as int, height as int)
                &&& mesh.wf()
                &&& exists|chunk: ChunkView|
                    chunk.wf() && chunk.width == width && chunk.height == height && mesh@
                        == #[trigger] mesh_of(chunk)
            },
            Err(e) => dimension_error(width as int, height as int) == Some(e),
        },
{
    let voxelmap = match generate_voxelmap(width, height) {
        Ok(voxelmap) => voxelmap,
        Err(e) => {
            return Err(e);
        },
    };
    let mesh = generate_mesh_data(&voxelmap);
    proof {
        voxelmap.lemma_view_wf();
    }
    Ok(mesh)
}

/// The chunk generator: the dimensions of the chunks it builds.
#[derive(Clone, Copy, Debug, PartialEq, Eq)]
pub struct WorldGen {
    pub width: i32,
    pub height: i32,
}

impl WorldGen {
    /// Builds the surface mesh of one randomly filled chunk.
    pub fn build(&self) -> (r: Result<MeshBuffer, ChunkError>)
        ensures
            match r {
                Ok(mesh) => {
                    &&& valid_dimensions(self.width as int, self.height as int)
                    &&& mesh.wf()
                    &&& exists|chunk: ChunkView|
                        chunk.wf() && chunk.width == self.width && chunk.height == self.height
                            && mesh@ == #[trigger] mesh_of(chunk)
                },
                Err(e) => dimension_error(self.width as int, self.height as int) == Some(e),
            },
    {
        generate_chunk(self.width, self.height)
    }
}

impl Default for WorldGen {
    /// A generator of `CHUNK_WIDTH x CHUNK_HEIGHT x CHUNK_WIDTH` chunks.
    fn default() -> (r: WorldGen)
        ensures
            r.width == CHUNK_WIDTH,
            r.height == CHUNK_HEIGHT,
    {
        WorldGen { width: CHUNK_WIDTH, height: CHUNK_HEIGHT }
    }
}

} // verus!
