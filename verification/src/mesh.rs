//! Face culling: from a chunk to the quads of its surface.

use vstd::prelude::*;
use crate::chunk::{
    cell_index, lemma_cell_index_in_range, lemma_dimension_bounds, ChunkView, VoxelChunk,
    MAX_VOXELS,
};
use crate::tables::{
    cube_corner, face_corner, face_offset, face_vertex, neighbour_step, quad_uv, uv_corner,
};

verus! {

/// One face of one voxel.
pub struct Quad {
    pub x: int,
    pub y: int,
    pub z: int,
    pub face: int,
}

/// The coordinate that face `f` of voxel `(x, y, z)` looks at.
pub open spec fn neighbour(x: int, y: int, z: int, f: int) -> (int, int, int) {
    (x + face_offset(f).0, y + face_offset(f).1, z + face_offset(f).2)
}

/// Face `f` of voxel `(x, y, z)` belongs to the surface: the voxel is solid
/// and what the face looks at is not.
pub open spec fn exposed(chunk: ChunkView, x: int, y: int, z: int, f: int) -> bool {
    &&& chunk.solid_at(x, y, z)
    &&& !chunk.solid_at(neighbour(x, y, z, f).0, neighbour(x, y, z, f).1, neighbour(x, y, z, f).2)
}

/// The exposed faces among faces `0..n` of voxel `(x, y, z)`, by face number.
pub open spec fn voxel_faces(chunk: ChunkView, x: int, y: int, z: int, n: int) -> Seq<Quad>
    decreases n,
{
    if n <= 0 {
        Seq::empty()
    } else if exposed(chunk, x, y, z, n - 1) {
        voxel_faces(chunk, x, y, z, n - 1).push(Quad { x, y, z, face: n - 1 })
    } else {
        voxel_faces(chunk, x, y, z, n - 1)
    }
}

/// The exposed faces of voxels `(x, y, 0..nz)`, by `z`.
pub open spec fn row_faces(chunk: ChunkView, x: int, y: int, nz: int) -> Seq<Quad>
    decreases nz,
{
    if nz <= 0 {
        Seq::empty()
    } else {
        row_faces(chunk, x, y, nz - 1) + voxel_faces(chunk, x, y, nz - 1, 6)
    }
}

/// The exposed faces of rows `0..nx` of layer `y`, by `x`.
pub open spec fn layer_faces(chunk: ChunkView, y: int, nx: int) -> Seq<Quad>
    decreases nx,
{
    if nx <= 0 {
        Seq::empty()
    } else {
        layer_faces(chunk, y, nx - 1) + row_faces(chunk, nx - 1, y, chunk.width)
    }
}

/// The exposed faces of layers `0..ny`, by `y`.
pub open spec fn chunk_faces(chunk: ChunkView, ny: int) -> Seq<Quad>
    decreases ny,
{
    if ny <= 0 {
        Seq::empty()
    } else {
        chunk_faces(chunk, ny - 1) + layer_faces(chunk, ny - 1, chunk.width)
    }
}

/// Every exposed face of the chunk, once, ordered by `y`, then `x`, then
/// `z`, then face number.
pub open spec fn exposed_faces(chunk: ChunkView) -> Seq<Quad> {
    chunk_faces(chunk, chunk.height)
}

/// Position of the `k`-th corner of a quad.
pub open spec fn quad_vertex(q: Quad, k: int) -> (int, int, int) {
    (
        q.x + cube_corner(face_corner(q.face, k)).0,
        q.y + cube_corner(face_corner(q.face, k)).1,
        q.z + cube_corner(face_corner(q.face, k)).2,
    )
}

/// Which corner of its quad the `j`-th index of a quad refers to: the
/// triangles are corners (0, 1, 2) and (2, 1, 3).
pub open spec fn triangle_corner(j: int) -> int {
    if j == 0 {
        0
    } else if j == 1 {
        1
    } else if j == 2 {
        2
    } else if j == 3 {
        2
    } else if j == 4 {
        1
    } else {
        3
    }
}

/// A mesh as a mathematical object: three parallel sequences.
pub struct MeshView {
    pub vertices: Seq<(int, int, int)>,
    pub uvs: Seq<(int, int)>,
    pub indices: Seq<int>,
}

impl MeshView {
    /// The mesh without any face.
    pub open spec fn empty() -> MeshView {
        MeshView { vertices: Seq::empty(), uvs: Seq::empty(), indices: Seq::empty() }
    }

    /// This mesh with the given quads appended: four vertices and four
    /// texture coordinates per quad, and six indices that count on from the
    /// vertices already present.
    pub open spec fn extended(self, quads: Seq<Quad>) -> MeshView {
        MeshView {
            vertices: self.vertices + Seq::new(
                4 * quads.len(),
                |i: int| quad_vertex(quads[i / 4], i % 4),
            ),
            uvs: self.uvs + Seq::new(4 * quads.len(), |i: int| uv_corner(i % 4)),
            indices: self.indices + Seq::new(
                6 * quads.len(),
                |i: int| self.vertices.len() + 4 * (i / 6) + triangle_corner(i % 6),
            ),
        }
    }

    /// The sequences are parallel, made of whole quads (four vertices and
    /// six indices each), and every index names a vertex.
    pub open spec fn wf(self) -> bool {
        &&& self.vertices.len() == self.uvs.len()
        &&& self.vertices.len() % 4 == 0
        &&& self.indices.len() % 6 == 0
        &&& self.indices.len() / 6 == self.vertices.len() / 4
        &&& forall|i: int|
            0 <= i < self.indices.len() ==> 0 <= #[trigger] self.indices[i] < self.vertices.len()
    }
}

/// The mesh that consists of the given quads.
pub open spec fn quad_mesh(quads: Seq<Quad>) -> MeshView {
    MeshView::empty().extended(quads)
}

/// The surface mesh of a chunk.
pub open spec fn mesh_of(chunk: ChunkView) -> MeshView {
    quad_mesh(exposed_faces(chunk))
}

/// Appending quads in two steps is appending them at once.
pub proof fn lemma_extended_append(m: MeshView, a: Seq<Quad>, b: Seq<Quad>)
    ensures
        m.extended(a).extended(b) == m.extended(a + b),
{
    let two = m.extended(a).extended(b);
    let one = m.extended(a + b);
    assert(two.vertices.len() == one.vertices.len());
    assert forall|i: int| 0 <= i < one.vertices.len() implies two.vertices[i]
        == one.vertices[i] by {
        let j = i - m.vertices.len();
        if j >= 4 * a.len() {
            assert((j - 4 * a.len()) / 4 == j / 4 - a.len());
            assert((j - 4 * a.len()) % 4 == j % 4);
        }
    }
    assert(two.vertices =~= one.vertices);
    assert forall|i: int| 0 <= i < one.uvs.len() implies two.uvs[i] == one.uvs[i] by {
        let j = i - m.uvs.len();
        if j >= 4 * a.len() {
            assert((j - 4 * a.len()) % 4 == j % 4);
        }
    }
    assert(two.uvs =~= one.uvs);
    assert forall|i: int| 0 <= i < one.indices.len() implies two.indices[i] == one.indices[i] by {
        let j = i - m.indices.len();
        if j >= 6 * a.len() {
            assert((j - 6 * a.len()) / 6 == j / 6 - a.len());
            assert((j - 6 * a.len()) % 6 == j % 6);
        }
    }
    assert(two.indices =~= one.indices);
}

/// Appending quads keeps a mesh well formed.
pub proof fn lemma_extended_wf(m: MeshView, quads: Seq<Quad>)
    requires
        m.wf(),
    ensures
        m.extended(quads).wf(),
        m.extended(quads).vertices.len() == m.vertices.len() + 4 * quads.len(),
        m.extended(quads).indices.len() == m.indices.len() + 6 * quads.len(),
{
    let e = m.extended(quads);
    assert forall|i: int| 0 <= i < e.indices.len() implies 0 <= #[trigger] e.indices[i]
        < e.vertices.len() by {
        if i >= m.indices.len() {
            let j = i - m.indices.len();
            assert(0 <= j / 6 < quads.len());
            assert(0 <= triangle_corner(j % 6) <= 3);
        }
    }
}

/// A voxel has at most six exposed faces.
pub proof fn lemma_voxel_faces_len(chunk: ChunkView, x: int, y: int, z: int, n: int)
    requires
        0 <= n,
    ensures
        voxel_faces(chunk, x, y, z, n).len() <= n,
    decreases n,
{
    if n > 0 {
        lemma_voxel_faces_len(chunk, x, y, z, n - 1);
    }
}

/// Vertex, texture and index buffers of a surface mesh.
#[derive(Debug)]
pub struct MeshBuffer {
    vertices: Vec<(i32, i32, i32)>,
    uvs: Vec<(i32, i32)>,
    indices: Vec<u32>,
}

impl MeshBuffer {
    /// The buffers as sequences of mathematical integers.
    pub closed spec fn view(&self) -> MeshView {
        MeshView {
            vertices: Seq::new(
                self.vertices@.len(),
                |i: int|
                    (
                        self.vertices@[i].0 as int,
                        self.vertices@[i].1 as int,
                        self.vertices@[i].2 as int,
                    ),
            ),
            uvs: Seq::new(
                self.uvs@.len(),
                |i: int| (self.uvs@[i].0 as int, self.uvs@[i].1 as int),
            ),
            indices: Seq::new(self.indices@.len(), |i: int| self.indices@[i] as int),
        }
    }

    /// The buffers are parallel, hold whole quads, and every index names a
    /// vertex.
    pub open spec fn wf(&self) -> bool {
        self@.wf()
    }

    /// A mesh without any face.
    pub fn new() -> (mesh: MeshBuffer)
        ensures
            mesh.wf(),
            mesh@ == MeshView::empty(),
    {
        let mesh = MeshBuffer { vertices: Vec::new(), uvs: Vec::new(), indices: Vec::new() };
        assert(mesh@.vertices =~= Seq::empty());
        assert(mesh@.uvs =~= Seq::empty());
        assert(mesh@.indices =~= Seq::empty());
        mesh
    }

    /// Appends face `f` of voxel `(x, y, z)`.
    fn push_quad(&mut self, x: i32, y: i32, z: i32, f: usize)
        requires
            old(self).wf(),
            old(self)@.vertices.len() + 4 <= u32::MAX,
            f < 6,
            x < i32::MAX,
            y < i32::MAX,
            z < i32::MAX,
        ensures
            final(self).wf(),
            final(self)@ == old(self)@.extended(
                seq![Quad { x: x as int, y: y as int, z: z as int, face: f as int }],
            ),
    {
        let ghost q = Quad { x: x as int, y: y as int, z: z as int, face: f as int };
        let base: u32 = self.vertices.len() as u32;
        let mut k: usize = 0;
        while k < 4
            invariant
                k <= 4,
                f < 6,
                x < i32::MAX,
                y < i32::MAX,
                z < i32::MAX,
                q == (Quad { x: x as int, y: y as int, z: z as int, face: f as int }),
                self.indices == old(self).indices,
                self.vertices@.len() == old(self).vertices@.len() + k,
                self.uvs@.len() == old(self).uvs@.len() + k,
                forall|i: int|
                    0 <= i < old(self).vertices@.len() ==> self.vertices@[i] == old(
                        self,
                    ).vertices@[i],
                forall|i: int| 0 <= i < old(self).uvs@.len() ==> self.uvs@[i] == old(self).uvs@[i],
                forall|j: int|
                    0 <= j < k ==> (
                        self.vertices@[old(self).vertices@.len() + j].0 as int,
                        self.vertices@[old(self).vertices@.len() + j].1 as int,
                        self.vertices@[old(self).vertices@.len() + j].2 as int,
                    ) == quad_vertex(q, j),
                forall|j: int|
                    0 <= j < k ==> (
                        self.uvs@[old(self).uvs@.len() + j].0 as int,
                        self.uvs@[old(self).uvs@.len() + j].1 as int,
                    ) == uv_corner(j),
            decreases 4 - k,
        {
            let corner = face_vertex(f, k);
            self.vertices.push((x + corner.0, y + corner.1, z + corner.2));
            self.uvs.push(quad_uv(k));
            k += 1;
        }
        self.indices.push(base);
        self.indices.push(base + 1);
        self.indices.push(base + 2);
        self.indices.push(base + 2);
        self.indices.push(base + 1);
        self.indices.push(base + 3);
        proof {
            let want = old(self)@.extended(seq![q]);
            assert forall|i: int| 0 <= i < want.vertices.len() implies self@.vertices[i]
                == want.vertices[i] by {
                let j = i - old(self)@.vertices.len();
                if j >= 0 {
                    assert(j / 4 == 0 && j % 4 == j);
                }
            }
            assert(self@.vertices =~= want.vertices);
            assert forall|i: int| 0 <= i < want.uvs.len() implies self@.uvs[i] == want.uvs[i] by {
                let j = i - old(self)@.uvs.len();
                if j >= 0 {
                    assert(j % 4 == j);
                }
            }
            assert(self@.uvs =~= want.uvs);
            assert forall|i: int| 0 <= i < want.indices.len() implies self@.indices[i]
                == want.indices[i] by {
                let j = i - old(self)@.indices.len();
                if j >= 0 {
                    assert(j / 6 == 0 && j % 6 == j);
                }
            }
            assert(self@.indices =~= want.indices);
            lemma_extended_wf(old(self)@, seq![q]);
        }
    }

    /// Hands the three buffers over: vertex positions, texture coordinates
    /// and indices.
    pub fn into_parts(self) -> (parts: (Vec<(i32, i32, i32)>, Vec<(i32, i32)>, Vec<u32>))
        ensures
            parts.0@.len() == self@.vertices.len(),
            parts.1@.len() == self@.uvs.len(),
            parts.2@.len() == self@.indices.len(),
            forall|i: int|
                0 <= i < parts.0@.len() ==> (
                    parts.0@[i].0 as int,
                    parts.0@[i].1 as int,
                    parts.0@[i].2 as int,
                ) == #[trigger] self@.vertices[i],
            forall|i: int|
                0 <= i < parts.1@.len() ==> (parts.1@[i].0 as int, parts.1@[i].1 as int)
                    == #[trigger] self@.uvs[i],
            forall|i: int|
                0 <= i < parts.2@.len() ==> parts.2@[i] as int == #[trigger] self@.indices[i],
    {
        (self.vertices, self.uvs, self.indices)
    }

    /// Vertex positions, four per quad.
    pub fn vertices(&self) -> (v: &Vec<(i32, i32, i32)>)
        ensures
            v@.len() == self@.vertices.len(),
            forall|i: int|
                0 <= i < v@.len() ==> (v@[i].0 as int, v@[i].1 as int, v@[i].2 as int)
                    == #[trigger] self@.vertices[i],
    {
        &self.vertices
    }

    /// Texture coordinates, one per vertex.
    pub fn uvs(&self) -> (t: &Vec<(i32, i32)>)
        ensures
            t@.len() == self@.uvs.len(),
            forall|i: int|
                0 <= i < t@.len() ==> (t@[i].0 as int, t@[i].1 as int) == #[trigger] self@.uvs[i],
    {
        &self.uvs
    }

    /// Triangle corners as vertex numbers, six per quad.
    pub fn indices(&self) -> (n: &Vec<u32>)
        ensures
            n@.len() == self@.indices.len(),
            forall|i: int| 0 <= i < n@.len() ==> n@[i] as int == #[trigger] self@.indices[i],
    {
        &self.indices
    }
}

/// Appends to `mesh` the exposed faces of voxel `(x, y, z)`: nothing if the
/// voxel is air or outside the chunk, else one quad for each face whose
/// neighbour is not solid.
pub fn generate_face_data(chunk: &VoxelChunk, x: i32, y: i32, z: i32, mesh: &mut MeshBuffer)
    requires
        chunk.wf(),
        old(mesh).wf(),
        old(mesh)@.vertices.len() + 24 <= u32::MAX,
    ensures
        final(mesh).wf(),
        final(mesh)@ == old(mesh)@.extended(
            voxel_faces(chunk@, x as int, y as int, z as int, 6),
        ),
{
    let ghost c = chunk@;
    let ghost xi = x as int;
    let ghost yi = y as int;
    let ghost zi = z as int;
    proof {
        chunk.lemma_view_wf();
        lemma_dimension_bounds(c.width, c.height);
    }
    if chunk.is_block_inside_chunk(x, y, z) && chunk.is_solid(x, y, z) {
        let mut f: usize = 0;
        while f < 6
            invariant
                f <= 6,
                chunk.wf(),
                c == chunk@,
                xi == x,
                yi == y,
                zi == z,
                c.in_bounds(xi, yi, zi),
                c.solid_at(xi, yi, zi),
                c.width <= MAX_VOXELS,
                c.height <= MAX_VOXELS,
                mesh.wf(),
                old(mesh).wf(),
                old(mesh)@.vertices.len() + 24 <= u32::MAX,
                voxel_faces(c, xi, yi, zi, f as int).len() <= f,
                mesh@ == old(mesh)@.extended(voxel_faces(c, xi, yi, zi, f as int)),
            decreases 6 - f,
        {
            let step = neighbour_step(f);
            let ghost done = voxel_faces(c, xi, yi, zi, f as int);
            proof {
                lemma_extended_wf(old(mesh)@, done);
            }
            if !chunk.is_solid(x + step.0, y + step.1, z + step.2) {
                mesh.push_quad(x, y, z, f);
                proof {
                    let q = Quad { x: xi, y: yi, z: zi, face: f as int };
                    lemma_extended_append(old(mesh)@, done, seq![q]);
                    assert(done + seq![q] =~= done.push(q));
                }
            }
            f += 1;
        }
    } else {
        proof {
            lemma_air_has_no_faces(c, xi, yi, zi, 6);
            assert(old(mesh)@.extended(Seq::empty()).vertices =~= old(mesh)@.vertices);
            assert(old(mesh)@.extended(Seq::empty()).uvs =~= old(mesh)@.uvs);
            assert(old(mesh)@.extended(Seq::empty()).indices =~= old(mesh)@.indices);
        }
    }
}

/// Builds the surface mesh of a chunk: the voxels are visited by `y`, then
/// `x`, then `z`, and each contributes its exposed faces by face number.
pub fn generate_mesh_data(chunk: &VoxelChunk) -> (mesh: MeshBuffer)
    requires
        chunk.wf(),
    ensures
        mesh.wf(),
        mesh@ == mesh_of(chunk@),
{
    let width: i32 = chunk.width();
    let height: i32 = chunk.height();
    let ghost c = chunk@;
    let ghost w = c.width;
    let ghost h = c.height;
    proof {
        chunk.lemma_view_wf();
        lemma_dimension_bounds(w, h);
    }
    let mut mesh = MeshBuffer::new();
    let mut y: i32 = 0;
    while y < height
        invariant
            chunk.wf(),
            c == chunk@,
            c.wf(),
            w == c.width == width,
            h == c.height == height,
            0 <= y <= height,
            mesh.wf(),
            mesh@ == quad_mesh(chunk_faces(c, y as int)),
            chunk_faces(c, y as int).len() <= 6 * cell_index(w, 0, y as int, 0),
        decreases height - y,
    {
        let ghost below = chunk_faces(c, y as int);
        let mut x: i32 = 0;
        while x < width
            invariant
                chunk.wf(),
                c == chunk@,
                c.wf(),
                w == c.width == width,
                h == c.height == height,
                0 <= y < height,
                0 <= x <= width,
                below == chunk_faces(c, y as int),
                mesh.wf(),
                mesh@ == quad_mesh(below + layer_faces(c, y as int, x as int)),
                (below + layer_faces(c, y as int, x as int)).len() <= 6 * cell_index(
                    w,
                    x as int,
                    y as int,
                    0,
                ),
            decreases width - x,
        {
            let ghost before = below + layer_faces(c, y as int, x as int);
            let mut z: i32 = 0;
            while z < width
                invariant
                    chunk.wf(),
                    c == chunk@,
                    c.wf(),
                    w == c.width == width,
                    h == c.height == height,
                    0 <= y < height,
                    0 <= x < width,
                    0 <= z <= width,
                    before == below + layer_faces(c, y as int, x as int),
                    mesh.wf(),
                    mesh@ == quad_mesh(before + row_faces(c, x as int, y as int, z as int)),
                    (before + row_faces(c, x as int, y as int, z as int)).len() <= 6
                        * cell_index(w, x as int, y as int, z as int),
                decreases width - z,
            {
                let ghost sofar = before + row_faces(c, x as int, y as int, z as int);
                let ghost here = voxel_faces(c, x as int, y as int, z as int, 6);
                proof {
                    lemma_cell_index_in_range(w, h, x as int, y as int, z as int);
                    lemma_extended_wf(MeshView::empty(), sofar);
                }
                generate_face_data(chunk, x, y, z, &mut mesh);
                proof {
                    lemma_extended_append(MeshView::empty(), sofar, here);
                    lemma_voxel_faces_len(c, x as int, y as int, z as int, 6);
                    assert(sofar + here =~= before + row_faces(
                        c,
                        x as int,
                        y as int,
                        z as int + 1,
                    ));
                }
                z += 1;
            }
            proof {
                assert(before + row_faces(c, x as int, y as int, w) =~= below + layer_faces(
                    c,
                    y as int,
                    x as int + 1,
                ));
                assert(cell_index(w, x as int, y as int, w) == cell_index(
                    w,
                    x as int + 1,
                    y as int,
                    0,
                )) by (nonlinear_arith);
            }
            x += 1;
        }
        proof {
            assert(below + layer_faces(c, y as int, w) =~= chunk_faces(c, y as int + 1));
            assert(cell_index(w, w, y as int, 0) == cell_index(w, 0, y as int + 1, 0))
                by (nonlinear_arith);
        }
        y += 1;
    }
    mesh
}

/// A voxel that is not solid has no exposed face.
pub proof fn lemma_air_has_no_faces(chunk: ChunkView, x: int, y: int, z: int, n: int)
    requires
        !chunk.solid_at(x, y, z),
    ensures
        voxel_faces(chunk, x, y, z, n) == Seq::<Quad>::empty(),
    decreases n,
{
    if n > 0 {
        lemma_air_has_no_faces(chunk, x, y, z, n - 1);
    }
}

} // verus!
