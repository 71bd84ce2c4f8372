//! What holds of every chunk and every mesh: which faces a mesh holds, in
//! what order, and how its buffers hang together.

use vstd::prelude::*;
use crate::chunk::{populated, terrain_solid, ChunkView};
use crate::mesh::{
    chunk_faces, exposed, exposed_faces, layer_faces, lemma_air_has_no_faces, lemma_extended_wf,
    mesh_of, neighbour, quad_mesh, quad_vertex, row_faces, triangle_corner, voxel_faces, MeshView,
    Quad,
};
use crate::noise::NoiseView;
use crate::tables::{cube_corner, face_corner, face_offset, uv_corner};

verus! {

/// `p` is visited before `q`: voxels go by `y`, then `x`, then `z`, and the
/// faces of one voxel by face number.
pub open spec fn scan_before(p: Quad, q: Quad) -> bool {
    ||| p.y < q.y
    ||| p.y == q.y && p.x < q.x
    ||| p.y == q.y && p.x == q.x && p.z < q.z
    ||| p.y == q.y && p.x == q.x && p.z == q.z && p.face < q.face
}

/// Every quad of the sequence is visited before the ones that follow it.
pub open spec fn in_scan_order(s: Seq<Quad>) -> bool {
    forall|i: int, j: int| 0 <= i < j < s.len() ==> scan_before(#[trigger] s[i], #[trigger] s[j])
}

/// `q` is an exposed face of `chunk`.
pub open spec fn is_exposed_face(chunk: ChunkView, q: Quad) -> bool {
    &&& 0 <= q.face < 6
    &&& exposed(chunk, q.x, q.y, q.z, q.face)
}

proof fn lemma_add_contains(a: Seq<Quad>, b: Seq<Quad>, q: Quad)
    ensures
        (a + b).contains(q) <==> a.contains(q) || b.contains(q),
{
    if a.contains(q) {
        let i = choose|i: int| 0 <= i < a.len() && a[i] == q;
        assert((a + b)[i] == q);
    }
    if b.contains(q) {
        let i = choose|i: int| 0 <= i < b.len() && b[i] == q;
        assert((a + b)[a.len() + i] == q);
    }
    if (a + b).contains(q) {
        let i = choose|i: int| 0 <= i < (a + b).len() && (a + b)[i] == q;
        if i < a.len() {
            assert(a[i] == q);
        } else {
            assert(b[i - a.len()] == q);
        }
    }
}

/// Two ordered runs, the first wholly before the second, make an ordered
/// run.
proof fn lemma_add_in_scan_order(a: Seq<Quad>, b: Seq<Quad>)
    requires
        in_scan_order(a),
        in_scan_order(b),
        forall|p: Quad, q: Quad| a.contains(p) && b.contains(q) ==> scan_before(p, q),
    ensures
        in_scan_order(a + b),
{
    let s = a + b;
    assert forall|i: int, j: int| 0 <= i < j < s.len() implies scan_before(
        #[trigger] s[i],
        #[trigger] s[j],
    ) by {
        if j < a.len() {
            assert(s[i] == a[i] && s[j] == a[j]);
        } else if i >= a.len() {
            assert(s[i] == b[i - a.len()] && s[j] == b[j - a.len()]);
        } else {
            assert(a.contains(a[i]));
            assert(b.contains(b[j - a.len()]));
        }
    }
}

proof fn lemma_voxel_faces_hold(chunk: ChunkView, x: int, y: int, z: int, n: int)
    requires
        0 <= n <= 6,
    ensures
        forall|q: Quad| #[trigger]
            voxel_faces(chunk, x, y, z, n).contains(q) <==> q.x == x && q.y == y && q.z == z
                && q.face < n && is_exposed_face(chunk, q),
        in_scan_order(voxel_faces(chunk, x, y, z, n)),
    decreases n,
{
    let s = voxel_faces(chunk, x, y, z, n);
    if n > 0 {
        lemma_voxel_faces_hold(chunk, x, y, z, n - 1);
        let a = voxel_faces(chunk, x, y, z, n - 1);
        let last = Quad { x, y, z, face: n - 1 };
        let b = if exposed(chunk, x, y, z, n - 1) {
            seq![last]
        } else {
            Seq::empty()
        };
        assert(s =~= a + b);
        assert forall|q: Quad| #[trigger]
            s.contains(q) <==> q.x == x && q.y == y && q.z == z && q.face < n
                && is_exposed_face(chunk, q) by {
            lemma_add_contains(a, b, q);
            if exposed(chunk, x, y, z, n - 1) {
                assert(b[0] == last);
            }
        }
        lemma_add_in_scan_order(a, b);
    }
}

proof fn lemma_row_faces_hold(chunk: ChunkView, x: int, y: int, nz: int)
    ensures
        forall|q: Quad| #[trigger]
            row_faces(chunk, x, y, nz).contains(q) <==> q.x == x && q.y == y && 0 <= q.z < nz
                && is_exposed_face(chunk, q),
        in_scan_order(row_faces(chunk, x, y, nz)),
    decreases nz,
{
    let s = row_faces(chunk, x, y, nz);
    if nz > 0 {
        lemma_row_faces_hold(chunk, x, y, nz - 1);
        lemma_voxel_faces_hold(chunk, x, y, nz - 1, 6);
        let a = row_faces(chunk, x, y, nz - 1);
        let b = voxel_faces(chunk, x, y, nz - 1, 6);
        assert forall|q: Quad| #[trigger]
            s.contains(q) <==> q.x == x && q.y == y && 0 <= q.z < nz && is_exposed_face(
                chunk,
                q,
            ) by {
            lemma_add_contains(a, b, q);
        }
        lemma_add_in_scan_order(a, b);
    }
}

proof fn lemma_layer_faces_hold(chunk: ChunkView, y: int, nx: int)
    ensures
        forall|q: Quad| #[trigger]
            layer_faces(chunk, y, nx).contains(q) <==> q.y == y && 0 <= q.x < nx && 0 <= q.z
                < chunk.width && is_exposed_face(chunk, q),
        in_scan_order(layer_faces(chunk, y, nx)),
    decreases nx,
{
    let s = layer_faces(chunk, y, nx);
    if nx > 0 {
        lemma_layer_faces_hold(chunk, y, nx - 1);
        lemma_row_faces_hold(chunk, nx - 1, y, chunk.width);
        let a = layer_faces(chunk, y, nx - 1);
        let b = row_faces(chunk, nx - 1, y, chunk.width);
        assert forall|q: Quad| #[trigger]
            s.contains(q) <==> q.y == y && 0 <= q.x < nx && 0 <= q.z < chunk.width
                && is_exposed_face(chunk, q) by {
            lemma_add_contains(a, b, q);
        }
        lemma_add_in_scan_order(a, b);
    }
}

proof fn lemma_chunk_faces_hold(chunk: ChunkView, ny: int)
    ensures
        forall|q: Quad| #[trigger]
            chunk_faces(chunk, ny).contains(q) <==> 0 <= q.y < ny && 0 <= q.x < chunk.width && 0
                <= q.z < chunk.width && is_exposed_face(chunk, q),
        in_scan_order(chunk_faces(chunk, ny)),
    decreases ny,
{
    let s = chunk_faces(chunk, ny);
    if ny > 0 {
        lemma_chunk_faces_hold(chunk, ny - 1);
        lemma_layer_faces_hold(chunk, ny - 1, chunk.width);
        let a = chunk_faces(chunk, ny - 1);
        let b = layer_faces(chunk, ny - 1, chunk.width);
        assert forall|q: Quad| #[trigger]
            s.contains(q) <==> 0 <= q.y < ny && 0 <= q.x < chunk.width && 0 <= q.z
                < chunk.width && is_exposed_face(chunk, q) by {
            lemma_add_contains(a, b, q);
        }
        lemma_add_in_scan_order(a, b);
    }
}

/// The mesh of a chunk holds a face if and only if the face is exposed:
/// its voxel is solid and the neighbour it looks at is not. No face of an
/// air voxel and no hidden face is ever part of it.
pub proof fn lemma_exposed_faces_exact(chunk: ChunkView)
    requires
        chunk.wf(),
    ensures
        forall|q: Quad| #[trigger] exposed_faces(chunk).contains(q) <==> is_exposed_face(chunk, q),
{
    lemma_chunk_faces_hold(chunk, chunk.height);
}

/// The faces of a mesh come in visiting order, so none comes twice.
pub proof fn lemma_exposed_faces_ordered(chunk: ChunkView)
    ensures
        in_scan_order(exposed_faces(chunk)),
        exposed_faces(chunk).no_duplicates(),
{
    lemma_chunk_faces_hold(chunk, chunk.height);
}

proof fn lemma_same_members_same_run(a: Seq<Quad>, b: Seq<Quad>)
    requires
        in_scan_order(a),
        in_scan_order(b),
        forall|q: Quad| a.contains(q) <==> b.contains(q),
    ensures
        a == b,
    decreases a.len(),
{
    if a.len() == 0 {
        if b.len() > 0 {
            assert(b.contains(b[0]));
            assert(a.contains(b[0]));
        }
        assert(a =~= b);
    } else {
        assert(a.contains(a[0]));
        let j = choose|j: int| 0 <= j < b.len() && b[j] == a[0];
        assert(b.contains(b[0]));
        let i = choose|i: int| 0 <= i < a.len() && a[i] == b[0];
        if j > 0 && i > 0 {
            assert(scan_before(b[0], b[j]));
            assert(scan_before(a[0], a[i]));
        }
        if j > 0 && i == 0 {
            assert(scan_before(b[0], b[j]));
        }
        if i > 0 && j == 0 {
            assert(scan_before(a[0], a[i]));
        }
        assert(a[0] == b[0]);
        let ta = a.skip(1);
        let tb = b.skip(1);
        assert forall|k: int, l: int| 0 <= k < l < ta.len() implies scan_before(
            #[trigger] ta[k],
            #[trigger] ta[l],
        ) by {
            assert(ta[k] == a[k + 1] && ta[l] == a[l + 1]);
        }
        assert forall|k: int, l: int| 0 <= k < l < tb.len() implies scan_before(
            #[trigger] tb[k],
            #[trigger] tb[l],
        ) by {
            assert(tb[k] == b[k + 1] && tb[l] == b[l + 1]);
        }
        assert forall|q: Quad| ta.contains(q) <==> tb.contains(q) by {
            if ta.contains(q) {
                let k = choose|k: int| 0 <= k < ta.len() && ta[k] == q;
                assert(a[k + 1] == q);
                assert(scan_before(a[0], a[k + 1]));
                assert(a.contains(q));
                let l = choose|l: int| 0 <= l < b.len() && b[l] == q;
                assert(l != 0);
                assert(tb[l - 1] == q);
            }
            if tb.contains(q) {
                let k = choose|k: int| 0 <= k < tb.len() && tb[k] == q;
                assert(b[k + 1] == q);
                assert(scan_before(b[0], b[k + 1]));
                assert(b.contains(q));
                let l = choose|l: int| 0 <= l < a.len() && a[l] == q;
                assert(l != 0);
                assert(ta[l - 1] == q);
            }
        }
        lemma_same_members_same_run(ta, tb);
        assert(a =~= seq![a[0]] + ta);
        assert(b =~= seq![b[0]] + tb);
    }
}

/// What the faces of a mesh are and how they are ordered leaves no choice:
/// a run of quads in visiting order that holds exactly the exposed faces
/// of the chunk is the run of faces of its mesh.
pub proof fn lemma_exposed_faces_unique(chunk: ChunkView, run: Seq<Quad>)
    requires
        chunk.wf(),
        in_scan_order(run),
        forall|q: Quad| run.contains(q) <==> is_exposed_face(chunk, q),
    ensures
        run == exposed_faces(chunk),
{
    lemma_exposed_faces_exact(chunk);
    lemma_exposed_faces_ordered(chunk);
    lemma_same_members_same_run(run, exposed_faces(chunk));
}

/// Every vertex of the mesh of a chunk is a corner of one of its voxels:
/// it lies in the box from `(0, 0, 0)` to `(width, height, width)`.
pub proof fn lemma_vertices_lie_in_chunk(chunk: ChunkView, i: int)
    requires
        chunk.wf(),
        0 <= i < mesh_of(chunk).vertices.len(),
    ensures
        0 <= mesh_of(chunk).vertices[i].0 <= chunk.width,
        0 <= mesh_of(chunk).vertices[i].1 <= chunk.height,
        0 <= mesh_of(chunk).vertices[i].2 <= chunk.width,
{
    let quads = exposed_faces(chunk);
    lemma_exposed_faces_exact(chunk);
    let q = quads[i / 4];
    assert(quads.contains(q));
    assert(chunk.solid_at(q.x, q.y, q.z));
    assert(mesh_of(chunk).vertices[i] == quad_vertex(q, i % 4));
    let c = cube_corner(face_corner(q.face, i % 4));
    assert(0 <= c.0 <= 1 && 0 <= c.1 <= 1 && 0 <= c.2 <= 1);
}

/// Every voxel of the chunk is solid.
pub open spec fn fully_solid(chunk: ChunkView) -> bool {
    forall|x: int, y: int, z: int| chunk.in_bounds(x, y, z) ==> #[trigger] chunk.solid_at(x, y, z)
}

/// No voxel of the chunk is solid.
pub open spec fn fully_empty(chunk: ChunkView) -> bool {
    forall|x: int, y: int, z: int| !#[trigger] chunk.solid_at(x, y, z)
}

/// In a chunk that is solid throughout, the mesh holds a face of a voxel
/// exactly if the face looks out of the chunk: a voxel on the boundary
/// shows its outward faces and no others.
pub proof fn lemma_solid_chunk_shows_boundary(chunk: ChunkView, x: int, y: int, z: int, f: int)
    requires
        chunk.wf(),
        fully_solid(chunk),
        chunk.in_bounds(x, y, z),
        0 <= f < 6,
    ensures
        exposed_faces(chunk).contains(Quad { x, y, z, face: f }) <==> !chunk.in_bounds(
            neighbour(x, y, z, f).0,
            neighbour(x, y, z, f).1,
            neighbour(x, y, z, f).2,
        ),
{
    lemma_exposed_faces_exact(chunk);
    let n = neighbour(x, y, z, f);
    assert(chunk.solid_at(x, y, z));
    if chunk.in_bounds(n.0, n.1, n.2) {
        assert(chunk.solid_at(n.0, n.1, n.2));
    }
}

/// A voxel whose six neighbours are all solid contributes no face to the
/// mesh, whatever the voxel itself is.
pub proof fn lemma_enclosed_voxel_is_hidden(chunk: ChunkView, x: int, y: int, z: int)
    requires
        chunk.wf(),
        forall|f: int|
            0 <= f < 6 ==> chunk.solid_at(
                (#[trigger] neighbour(x, y, z, f)).0,
                neighbour(x, y, z, f).1,
                neighbour(x, y, z, f).2,
            ),
    ensures
        forall|q: Quad| #[trigger]
            exposed_faces(chunk).contains(q) ==> !(q.x == x && q.y == y && q.z == z),
{
    lemma_exposed_faces_exact(chunk);
    assert forall|q: Quad| #[trigger] exposed_faces(chunk).contains(q) implies !(q.x == x && q.y
        == y && q.z == z) by {
        if q.x == x && q.y == y && q.z == z {
            assert(chunk.solid_at(
                neighbour(x, y, z, q.face).0,
                neighbour(x, y, z, q.face).1,
                neighbour(x, y, z, q.face).2,
            ));
        }
    }
}

proof fn lemma_empty_row(chunk: ChunkView, x: int, y: int, nz: int)
    requires
        forall|z: int| 0 <= z < nz ==> !#[trigger] chunk.solid_at(x, y, z),
    ensures
        row_faces(chunk, x, y, nz) == Seq::<Quad>::empty(),
    decreases nz,
{
    if nz > 0 {
        lemma_empty_row(chunk, x, y, nz - 1);
        assert(!chunk.solid_at(x, y, nz - 1));
        lemma_air_has_no_faces(chunk, x, y, nz - 1, 6);
        assert(row_faces(chunk, x, y, nz) =~= Seq::<Quad>::empty());
    }
}

proof fn lemma_empty_layer(chunk: ChunkView, y: int, nx: int)
    requires
        forall|x: int, z: int| 0 <= x < nx ==> !#[trigger] chunk.solid_at(x, y, z),
    ensures
        layer_faces(chunk, y, nx) == Seq::<Quad>::empty(),
    decreases nx,
{
    if nx > 0 {
        lemma_empty_layer(chunk, y, nx - 1);
        lemma_empty_row(chunk, nx - 1, y, chunk.width);
        assert(layer_faces(chunk, y, nx) =~= Seq::<Quad>::empty());
    }
}

proof fn lemma_empty_layers(chunk: ChunkView, ny: int)
    requires
        forall|x: int, y: int, z: int| 0 <= y < ny ==> !#[trigger] chunk.solid_at(x, y, z),
    ensures
        chunk_faces(chunk, ny) == Seq::<Quad>::empty(),
    decreases ny,
{
    if ny > 0 {
        lemma_empty_layers(chunk, ny - 1);
        lemma_empty_layer(chunk, ny - 1, chunk.width);
        assert(chunk_faces(chunk, ny) =~= Seq::<Quad>::empty());
    }
}

/// A chunk without any solid voxel has a mesh without any vertex, texture
/// coordinate or index.
pub proof fn lemma_empty_chunk_has_empty_mesh(chunk: ChunkView)
    requires
        fully_empty(chunk),
    ensures
        exposed_faces(chunk).len() == 0,
        mesh_of(chunk) == MeshView::empty(),
        mesh_of(chunk).vertices.len() == 0,
        mesh_of(chunk).uvs.len() == 0,
        mesh_of(chunk).indices.len() == 0,
{
    lemma_empty_layers(chunk, chunk.height);
    assert(mesh_of(chunk).vertices =~= Seq::empty());
    assert(mesh_of(chunk).uvs =~= Seq::empty());
    assert(mesh_of(chunk).indices =~= Seq::empty());
}

/// In the mesh of any sequence of quads the buffers are parallel, four
/// vertices and six indices long per quad, and every index names a vertex.
pub proof fn lemma_quad_mesh_is_valid(quads: Seq<Quad>)
    ensures
        quad_mesh(quads).wf(),
        quad_mesh(quads).vertices.len() == 4 * quads.len(),
        quad_mesh(quads).uvs.len() == 4 * quads.len(),
        quad_mesh(quads).indices.len() == 6 * quads.len(),
        quad_mesh(quads).indices.len() % 6 == 0,
        forall|i: int|
            0 <= i < quad_mesh(quads).indices.len() ==> 0 <= #[trigger] quad_mesh(
                quads,
            ).indices[i] < quad_mesh(quads).vertices.len(),
{
    lemma_extended_wf(MeshView::empty(), quads);
}

/// The mesh of any chunk is valid in that sense.
pub proof fn lemma_chunk_mesh_is_valid(chunk: ChunkView)
    ensures
        mesh_of(chunk).wf(),
        mesh_of(chunk).indices.len() % 6 == 0,
        forall|i: int|
            0 <= i < mesh_of(chunk).indices.len() ==> 0 <= #[trigger] mesh_of(chunk).indices[i]
                < mesh_of(chunk).vertices.len(),
{
    lemma_quad_mesh_is_valid(exposed_faces(chunk));
}

/// The `k`-th quad of a mesh owns vertices `4k .. 4k + 4`, which are its
/// corners in winding order, and indices `6k .. 6k + 6`, which split it
/// into the triangles (0, 1, 2) and (2, 1, 3) of those corners: the two
/// triangles share the corners 1 and 2.
pub proof fn lemma_quad_layout(quads: Seq<Quad>, k: int)
    requires
        0 <= k < quads.len(),
    ensures
        forall|c: int|
            0 <= c < 4 ==> #[trigger] quad_mesh(quads).vertices[4 * k + c] == quad_vertex(
                quads[k],
                c,
            ),
        forall|c: int| 0 <= c < 4 ==> #[trigger] quad_mesh(quads).uvs[4 * k + c] == uv_corner(c),
        quad_mesh(quads).indices[6 * k] == 4 * k,
        quad_mesh(quads).indices[6 * k + 1] == 4 * k + 1,
        quad_mesh(quads).indices[6 * k + 2] == 4 * k + 2,
        quad_mesh(quads).indices[6 * k + 3] == 4 * k + 2,
        quad_mesh(quads).indices[6 * k + 4] == 4 * k + 1,
        quad_mesh(quads).indices[6 * k + 5] == 4 * k + 3,
{
    let m = quad_mesh(quads);
    assert forall|c: int| 0 <= c < 4 implies #[trigger] m.vertices[4 * k + c] == quad_vertex(
        quads[k],
        c,
    ) by {
        assert((4 * k + c) / 4 == k && (4 * k + c) % 4 == c);
    }
    assert forall|c: int| 0 <= c < 4 implies #[trigger] m.uvs[4 * k + c] == uv_corner(c) by {
        assert((4 * k + c) % 4 == c);
    }
    assert forall|j: int| 0 <= j < 6 implies #[trigger] m.indices[6 * k + j] == 4 * k
        + triangle_corner(j) by {
        assert((6 * k + j) / 6 == k && (6 * k + j) % 6 == j);
    }
    assert(m.indices[6 * k + 0] == 4 * k + triangle_corner(0));
    assert(m.indices[6 * k + 1] == 4 * k + triangle_corner(1));
    assert(m.indices[6 * k + 2] == 4 * k + triangle_corner(2));
    assert(m.indices[6 * k + 3] == 4 * k + triangle_corner(3));
    assert(m.indices[6 * k + 4] == 4 * k + triangle_corner(4));
    assert(m.indices[6 * k + 5] == 4 * k + triangle_corner(5));
}

/// `(x, y, z)` is the one solid voxel of the chunk.
pub open spec fn only_solid(chunk: ChunkView, x: int, y: int, z: int) -> bool {
    forall|a: int, b: int, c: int| #[trigger]
        chunk.solid_at(a, b, c) <==> a == x && b == y && c == z
}

/// Faces `0..n` of voxel `(x, y, z)`, by face number.
pub open spec fn first_faces(x: int, y: int, z: int, n: int) -> Seq<Quad> {
    Seq::new(n as nat, |f: int| Quad { x, y, z, face: f })
}

proof fn lemma_lone_voxel(chunk: ChunkView, x: int, y: int, z: int, n: int)
    requires
        only_solid(chunk, x, y, z),
        0 <= n <= 6,
    ensures
        voxel_faces(chunk, x, y, z, n) == first_faces(x, y, z, n),
    decreases n,
{
    if n > 0 {
        lemma_lone_voxel(chunk, x, y, z, n - 1);
        let o = face_offset(n - 1);
        assert(o.0 != 0 || o.1 != 0 || o.2 != 0);
        assert(chunk.solid_at(x, y, z));
        assert(!chunk.solid_at(x + o.0, y + o.1, z + o.2));
        assert(exposed(chunk, x, y, z, n - 1));
    }
    assert(voxel_faces(chunk, x, y, z, n) =~= first_faces(x, y, z, n));
}

proof fn lemma_lone_row(chunk: ChunkView, x: int, y: int, z: int, x2: int, y2: int, nz: int)
    requires
        only_solid(chunk, x, y, z),
        0 <= z,
    ensures
        row_faces(chunk, x2, y2, nz) == if x2 == x && y2 == y && z < nz {
            first_faces(x, y, z, 6)
        } else {
            Seq::empty()
        },
    decreases nz,
{
    if nz > 0 {
        lemma_lone_row(chunk, x, y, z, x2, y2, nz - 1);
        if x2 == x && y2 == y && z == nz - 1 {
            lemma_lone_voxel(chunk, x, y, z, 6);
        } else {
            assert(!chunk.solid_at(x2, y2, nz - 1));
            lemma_air_has_no_faces(chunk, x2, y2, nz - 1, 6);
        }
        assert(row_faces(chunk, x2, y2, nz) =~= if x2 == x && y2 == y && z < nz {
            first_faces(x, y, z, 6)
        } else {
            Seq::empty()
        });
    }
}

proof fn lemma_lone_layer(chunk: ChunkView, x: int, y: int, z: int, y2: int, nx: int)
    requires
        only_solid(chunk, x, y, z),
        0 <= x,
        0 <= z < chunk.width,
    ensures
        layer_faces(chunk, y2, nx) == if y2 == y && x < nx {
            first_faces(x, y, z, 6)
        } else {
            Seq::empty()
        },
    decreases nx,
{
    if nx > 0 {
        lemma_lone_layer(chunk, x, y, z, y2, nx - 1);
        lemma_lone_row(chunk, x, y, z, nx - 1, y2, chunk.width);
        assert(layer_faces(chunk, y2, nx) =~= if y2 == y && x < nx {
            first_faces(x, y, z, 6)
        } else {
            Seq::empty()
        });
    }
}

proof fn lemma_lone_layers(chunk: ChunkView, x: int, y: int, z: int, ny: int)
    requires
        only_solid(chunk, x, y, z),
        0 <= y,
        0 <= x < chunk.width,
        0 <= z < chunk.width,
    ensures
        chunk_faces(chunk, ny) == if y < ny {
            first_faces(x, y, z, 6)
        } else {
            Seq::empty()
        },
    decreases ny,
{
    if ny > 0 {
        lemma_lone_layers(chunk, x, y, z, ny - 1);
        lemma_lone_layer(chunk, x, y, z, ny - 1, chunk.width);
        assert(chunk_faces(chunk, ny) =~= if y < ny {
            first_faces(x, y, z, 6)
        } else {
            Seq::empty()
        });
    }
}

/// A chunk with a single solid voxel has a mesh of exactly that voxel's
/// six faces, by face number: 24 vertices, 24 texture coordinates and 36
/// indices.
pub proof fn lemma_single_voxel_mesh(chunk: ChunkView, x: int, y: int, z: int)
    requires
        chunk.wf(),
        only_solid(chunk, x, y, z),
    ensures
        exposed_faces(chunk) == first_faces(x, y, z, 6),
        exposed_faces(chunk).len() == 6,
        mesh_of(chunk).vertices.len() == 24,
        mesh_of(chunk).uvs.len() == 24,
        mesh_of(chunk).indices.len() == 36,
{
    assert(chunk.solid_at(x, y, z));
    lemma_lone_layers(chunk, x, y, z, chunk.height);
}

/// Generation reads a noise field only through the surface height of each
/// column and the cave density of each voxel of the chunk: two fields that
/// agree on those give the same chunk, and so the same mesh. In particular
/// the same field always gives the same chunk and mesh.
pub proof fn lemma_generation_is_deterministic(
    width: int,
    height: int,
    a: NoiseView,
    b: NoiseView,
    cave_threshold: int,
)
    requires
        forall|x: int, y: int, z: int|
            0 <= x < width && 0 <= y < height && 0 <= z < width ==> a.surface_height(x, z)
                == b.surface_height(x, z) && #[trigger] a.cave_density(x, y, z) == b.cave_density(
                x,
                y,
                z,
            ),
    ensures
        populated(width, height, a, cave_threshold) == populated(width, height, b, cave_threshold),
        mesh_of(populated(width, height, a, cave_threshold)) == mesh_of(
            populated(width, height, b, cave_threshold),
        ),
{
    let pa = populated(width, height, a, cave_threshold);
    let pb = populated(width, height, b, cave_threshold);
    assert forall|p: (int, int, int)| pa.solid.contains(p) == pb.solid.contains(p) by {
        if 0 <= p.0 < width && 0 <= p.1 < height && 0 <= p.2 < width {
            assert(a.cave_density(p.0, p.1, p.2) == b.cave_density(p.0, p.1, p.2));
        }
    }
    assert(pa.solid =~= pb.solid);
}

/// Carving wins over filling and never adds a voxel: a generated voxel is
/// solid only if it lies inside the chunk, below the surface of its
/// column, and its cave density does not exceed the threshold.
pub proof fn lemma_carving_wins(
    width: int,
    height: int,
    noise: NoiseView,
    cave_threshold: int,
    x: int,
    y: int,
    z: int,
)
    ensures
        populated(width, height, noise, cave_threshold).solid_at(x, y, z) <==> (0 <= x < width
            && 0 <= y < height && 0 <= z < width && terrain_solid(noise, x, y, z, cave_threshold)),
        noise.cave_density(x, y, z) > cave_threshold ==> !populated(
            width,
            height,
            noise,
            cave_threshold,
        ).solid_at(x, y, z),
        y >= noise.surface_height(x, z) ==> !populated(
            width,
            height,
            noise,
            cave_threshold,
        ).solid_at(x, y, z),
{
}

/// Cross product.
pub open spec fn cross(a: (int, int, int), b: (int, int, int)) -> (int, int, int) {
    (a.1 * b.2 - a.2 * b.1, a.2 * b.0 - a.0 * b.2, a.0 * b.1 - a.1 * b.0)
}

/// Difference of two positions.
pub open spec fn minus(a: (int, int, int), b: (int, int, int)) -> (int, int, int) {
    (a.0 - b.0, a.1 - b.1, a.2 - b.2)
}

/// Both triangles of a quad wind counter-clockwise seen from outside: the
/// cross product of two edges leaving a corner, taken in index order, is
/// the step to the neighbour that the face looks at. And the quad lies in
/// the side of its voxel that faces this neighbour.
pub proof fn lemma_quads_wind_outward(q: Quad)
    requires
        0 <= q.face < 6,
    ensures
        cross(
            minus(quad_vertex(q, 1), quad_vertex(q, 0)),
            minus(quad_vertex(q, 2), quad_vertex(q, 0)),
        ) == face_offset(q.face),
        cross(
            minus(quad_vertex(q, 1), quad_vertex(q, 2)),
            minus(quad_vertex(q, 3), quad_vertex(q, 2)),
        ) == face_offset(q.face),
        forall|k: int|
            0 <= k < 4 ==> {
                let c = #[trigger] cube_corner(face_corner(q.face, k));
                let o = face_offset(q.face);
                c.0 * o.0 + c.1 * o.1 + c.2 * o.2 == if o.0 + o.1 + o.2 > 0 {
                    1int
                } else {
                    0int
                }
            },
{
    let f = q.face;
    let c0 = cube_corner(face_corner(f, 0));
    let c1 = cube_corner(face_corner(f, 1));
    let c2 = cube_corner(face_corner(f, 2));
    let c3 = cube_corner(face_corner(f, 3));
    assert(minus(quad_vertex(q, 1), quad_vertex(q, 0)) == minus(c1, c0));
    assert(minus(quad_vertex(q, 2), quad_vertex(q, 0)) == minus(c2, c0));
    assert(minus(quad_vertex(q, 1), quad_vertex(q, 2)) == minus(c1, c2));
    assert(minus(quad_vertex(q, 3), quad_vertex(q, 2)) == minus(c3, c2));
    let o = face_offset(f);
    let a1 = minus(c1, c0);
    let b1 = minus(c2, c0);
    let a2 = minus(c1, c2);
    let b2 = minus(c3, c2);
    if f == 0 {
        assert(c0 == (0int, 0int, 0int) && c1 == (0int, 1int, 0int));
        assert(c2 == (1int, 0int, 0int) && c3 == (1int, 1int, 0int));
        assert(o == (0int, 0int, -1int));
        assert(cross(a1, b1) == o) by (nonlinear_arith)
            requires
                a1 == (0int, 1int, 0int),
                b1 == (1int, 0int, 0int),
                o == (0int, 0int, -1int),
        ;
        assert(cross(a2, b2) == o) by (nonlinear_arith)
            requires
                a2 == (-1int, 1int, 0int),
                b2 == (0int, 1int, 0int),
                o == (0int, 0int, -1int),
        ;
    } else if f == 1 {
        assert(c0 == (1int, 0int, 1int) && c1 == (1int, 1int, 1int));
        assert(c2 == (0int, 0int, 1int) && c3 == (0int, 1int, 1int));
        assert(o == (0int, 0int, 1int));
        assert(cross(a1, b1) == o) by (nonlinear_arith)
            requires
                a1 == (0int, 1int, 0int),
                b1 == (-1int, 0int, 0int),
                o == (0int, 0int, 1int),
        ;
        assert(cross(a2, b2) == o) by (nonlinear_arith)
            requires
                a2 == (1int, 1int, 0int),
                b2 == (0int, 1int, 0int),
                o == (0int, 0int, 1int),
        ;
    } else if f == 2 {
        assert(c0 == (0int, 1int, 0int) && c1 == (0int, 1int, 1int));
        assert(c2 == (1int, 1int, 0int) && c3 == (1int, 1int, 1int));
        assert(o == (0int, 1int, 0int));
        assert(cross(a1, b1) == o) by (nonlinear_arith)
            requires
                a1 == (0int, 0int, 1int),
                b1 == (1int, 0int, 0int),
                o == (0int, 1int, 0int),
        ;
        assert(cross(a2, b2) == o) by (nonlinear_arith)
            requires
                a2 == (-1int, 0int, 1int),
                b2 == (0int, 0int, 1int),
                o == (0int, 1int, 0int),
        ;
    } else if f == 3 {
        assert(c0 == (1int, 0int, 0int) && c1 == (1int, 0int, 1int));
        assert(c2 == (0int, 0int, 0int) && c3 == (0int, 0int, 1int));
        assert(o == (0int, -1int, 0int));
        assert(cross(a1, b1) == o) by (nonlinear_arith)
            requires
                a1 == (0int, 0int, 1int),
                b1 == (-1int, 0int, 0int),
                o == (0int, -1int, 0int),
        ;
        assert(cross(a2, b2) == o) by (nonlinear_arith)
            requires
                a2 == (1int, 0int, 1int),
                b2 == (0int, 0int, 1int),
                o == (0int, -1int, 0int),
        ;
    } else if f == 4 {
        assert(c0 == (0int, 0int, 1int) && c1 == (0int, 1int, 1int));
        assert(c2 == (0int, 0int, 0int) && c3 == (0int, 1int, 0int));
        assert(o == (-1int, 0int, 0int));
        assert(cross(a1, b1) == o) by (nonlinear_arith)
            requires
                a1 == (0int, 1int, 0int),
                b1 == (0int, 0int, -1int),
                o == (-1int, 0int, 0int),
        ;
        assert(cross(a2, b2) == o) by (nonlinear_arith)
            requires
                a2 == (0int, 1int, 1int),
                b2 == (0int, 1int, 0int),
                o == (-1int, 0int, 0int),
        ;
    } else {
        assert(c0 == (1int, 0int, 0int) && c1 == (1int, 1int, 0int));
        assert(c2 == (1int, 0int, 1int) && c3 == (1int, 1int, 1int));
        assert(o == (1int, 0int, 0int));
        assert(cross(a1, b1) == o) by (nonlinear_arith)
            requires
                a1 == (0int, 1int, 0int),
                b1 == (0int, 0int, 1int),
                o == (1int, 0int, 0int),
        ;
        assert(cross(a2, b2) == o) by (nonlinear_arith)
            requires
                a2 == (0int, 1int, -1int),
                b2 == (0int, 1int, 0int),
                o == (1int, 0int, 0int),
        ;
    }
    assert forall|k: int| 0 <= k < 4 implies {
        let c = #[trigger] cube_corner(face_corner(f, k));
        let o = face_offset(f);
        c.0 * o.0 + c.1 * o.1 + c.2 * o.2 == if o.0 + o.1 + o.2 > 0 {
            1int
        } else {
            0int
        }
    } by {
        let c = cube_corner(face_corner(f, k));
        assert(c == c0 || c == c1 || c == c2 || c == c3);
        assert(o.0 == 0 || o.0 == 1 || o.0 == -1);
        assert(o.1 == 0 || o.1 == 1 || o.1 == -1);
        assert(o.2 == 0 || o.2 == 1 || o.2 == -1);
        assert(c.0 == 0 || c.0 == 1);
        assert(c.1 == 0 || c.1 == 1);
        assert(c.2 == 0 || c.2 == 1);
    }
}

} // verus!
