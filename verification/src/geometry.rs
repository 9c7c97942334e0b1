//! Cube-sphere mesh generation on an integer lattice.
//!
//! A cube of half-extent `subdivisions` lattice units is centred on the
//! origin. One lattice unit is `radius / (2 * subdivisions)` world units, so
//! the cube's edge is `radius` world units long. Each of the six faces carries
//! a `(subdivisions + 1) x (subdivisions + 1)` grid of vertices and
//! `subdivisions x subdivisions` cells of two triangles each.

use crate::grid::{
    grid_index, grid_size, lemma_grid_index_bound, lemma_grid_index_injective,
    lemma_grid_index_onto, lemma_grid_index_steps, FACES,
};
use vstd::prelude::*;

verus! {

/// A point or direction with integer coordinates.
#[derive(Clone, Copy, Debug, PartialEq, Eq, Structural)]
pub struct Lattice {
    pub x: i64,
    pub y: i64,
    pub z: i64,
}

impl Lattice {
    /// The coordinates as mathematical integers.
    pub open spec fn view(&self) -> (int, int, int) {
        (self.x as int, self.y as int, self.z as int)
    }
}

/// Outward normal of a face, as a signed unit vector.
pub open spec fn face_normal(face: int) -> (int, int, int) {
    if face == 0 {
        (-1, 0, 0)
    } else if face == 1 {
        (1, 0, 0)
    } else if face == 2 {
        (0, -1, 0)
    } else if face == 3 {
        (0, 1, 0)
    } else if face == 4 {
        (0, 0, -1)
    } else {
        (0, 0, 1)
    }
}

/// First in-face axis of a face: the direction in which the row index grows.
pub open spec fn face_u(face: int) -> (int, int, int) {
    if face == 0 || face == 5 {
        (0, 1, 0)
    } else if face == 1 || face == 2 {
        (0, 0, 1)
    } else {
        (1, 0, 0)
    }
}

/// Second in-face axis of a face: the direction in which the column index grows.
pub open spec fn face_v(face: int) -> (int, int, int) {
    if face == 0 || face == 3 {
        (0, 0, 1)
    } else if face == 1 || face == 4 {
        (0, 1, 0)
    } else {
        (1, 0, 0)
    }
}

/// The three axes of a face: outward normal, row axis, column axis.
#[derive(Clone, Copy, Debug, PartialEq, Eq, Structural)]
pub struct FaceAxes {
    pub normal: Lattice,
    pub u: Lattice,
    pub v: Lattice,
}

/// Looks up the axes of one of the six faces.
pub fn face_axes(face: u32) -> (axes: FaceAxes)
    requires
        face < FACES,
    ensures
        axes.normal@ == face_normal(face as int),
        axes.u@ == face_u(face as int),
        axes.v@ == face_v(face as int),
{
    let x = Lattice { x: 1, y: 0, z: 0 };
    let y = Lattice { x: 0, y: 1, z: 0 };
    let z = Lattice { x: 0, y: 0, z: 1 };
    let nx = Lattice { x: -1, y: 0, z: 0 };
    let ny = Lattice { x: 0, y: -1, z: 0 };
    let nz = Lattice { x: 0, y: 0, z: -1 };
    if face == 0 {
        FaceAxes { normal: nx, u: y, v: z }
    } else if face == 1 {
        FaceAxes { normal: x, u: z, v: y }
    } else if face == 2 {
        FaceAxes { normal: ny, u: z, v: x }
    } else if face == 3 {
        FaceAxes { normal: y, u: x, v: z }
    } else if face == 4 {
        FaceAxes { normal: nz, u: x, v: y }
    } else {
        FaceAxes { normal: z, u: y, v: x }
    }
}

/// Largest number of subdivisions for which every vertex index fits in 32 bits.
pub const MAX_SUBDIVISIONS: u32 = 26_753;

/// A vector scaled by an integer.
pub open spec fn scaled(k: int, a: (int, int, int)) -> (int, int, int) {
    (k * a.0, k * a.1, k * a.2)
}

/// The sum of two vectors.
pub open spec fn sum(a: (int, int, int), b: (int, int, int)) -> (int, int, int) {
    (a.0 + b.0, a.1 + b.1, a.2 + b.2)
}

/// The scalar product of two vectors.
pub open spec fn dot(a: (int, int, int), b: (int, int, int)) -> int {
    a.0 * b.0 + a.1 * b.1 + a.2 * b.2
}

/// The vector product of two vectors.
pub open spec fn cross(a: (int, int, int), b: (int, int, int)) -> (int, int, int) {
    (a.1 * b.2 - a.2 * b.1, a.2 * b.0 - a.0 * b.2, a.0 * b.1 - a.1 * b.0)
}

/// The absolute value of an integer.
pub open spec fn magnitude(a: int) -> int {
    if a < 0 {
        -a
    } else {
        a
    }
}

/// The largest absolute value among the coordinates of a vector.
pub open spec fn extent(a: (int, int, int)) -> int {
    let x = magnitude(a.0);
    let y = magnitude(a.1);
    let z = magnitude(a.2);
    if x >= y && x >= z {
        x
    } else if y >= z {
        y
    } else {
        z
    }
}

/// Where the grid point in row `i` and column `j` of a face lies on the cube:
/// `subdivisions` units along the face's outward normal, and from
/// `-subdivisions` to `subdivisions` in steps of two along the two in-face axes.
pub open spec fn lattice_position(subdivisions: int, face: int, i: int, j: int) -> (int, int, int) {
    sum(
        sum(scaled(subdivisions, face_normal(face)), scaled(2 * i - subdivisions, face_u(face))),
        scaled(2 * j - subdivisions, face_v(face)),
    )
}

/// Computes the lattice position of a grid point.
pub fn grid_position(subdivisions: u32, face: u32, i: u32, j: u32) -> (position: Lattice)
    requires
        face < FACES,
        i <= subdivisions,
        j <= subdivisions,
    ensures
        position@ == lattice_position(subdivisions as int, face as int, i as int, j as int),
{
    let out: i64 = subdivisions as i64;
    let along_u: i64 = 2 * (i as i64) - out;
    let along_v: i64 = 2 * (j as i64) - out;
    proof {
        lemma_position_by_face(subdivisions as int, face as int, i as int, j as int);
    }
    if face == 0 {
        Lattice { x: -out, y: along_u, z: along_v }
    } else if face == 1 {
        Lattice { x: out, y: along_v, z: along_u }
    } else if face == 2 {
        Lattice { x: along_v, y: -out, z: along_u }
    } else if face == 3 {
        Lattice { x: along_u, y: out, z: along_v }
    } else if face == 4 {
        Lattice { x: along_u, y: along_v, z: -out }
    } else {
        Lattice { x: along_v, y: along_u, z: out }
    }
}

/// Products in which one factor is a coordinate of a signed unit vector.
proof fn lemma_unit_products(k: int)
    ensures
        k * 1 == k,
        k * 0 == 0,
        k * (-1) == -k,
        1 * k == k,
        0 * k == 0,
        (-1) * k == -k,
{
}

/// Every grid point lies on the surface of the cube: it is exactly
/// `subdivisions` units out along its face's normal and no further than that
/// along any axis. In particular it is not the origin, so it has a direction.
pub proof fn lemma_grid_point_on_cube(subdivisions: int, face: int, i: int, j: int)
    requires
        subdivisions >= 1,
        0 <= face < 6,
        0 <= i <= subdivisions,
        0 <= j <= subdivisions,
    ensures
        dot(lattice_position(subdivisions, face, i, j), face_normal(face)) == subdivisions,
        extent(lattice_position(subdivisions, face, i, j)) == subdivisions,
        lattice_position(subdivisions, face, i, j) != (0int, 0int, 0int),
{
    let p = lattice_position(subdivisions, face, i, j);
    lemma_position_by_face(subdivisions, face, i, j);
    lemma_unit_products(p.0);
    lemma_unit_products(p.1);
    lemma_unit_products(p.2);
}

/// The lattice position written out face by face.
pub proof fn lemma_position_by_face(subdivisions: int, face: int, i: int, j: int)
    requires
        0 <= face < 6,
    ensures
        lattice_position(subdivisions, face, i, j) == {
            let out = subdivisions;
            let a = 2 * i - subdivisions;
            let b = 2 * j - subdivisions;
            if face == 0 {
                (-out, a, b)
            } else if face == 1 {
                (out, b, a)
            } else if face == 2 {
                (b, -out, a)
            } else if face == 3 {
                (a, out, b)
            } else if face == 4 {
                (a, b, -out)
            } else {
                (b, a, out)
            }
        },
{
    lemma_unit_products(subdivisions);
    lemma_unit_products(2 * i - subdivisions);
    lemma_unit_products(2 * j - subdivisions);
}

/// The axes of a face are unit vectors at right angles, and turning from the
/// column axis to the row axis is a counter-clockwise turn for an observer
/// outside the cube.
pub proof fn lemma_face_axes_oriented(face: int)
    requires
        0 <= face < 6,
    ensures
        dot(face_normal(face), face_normal(face)) == 1,
        dot(face_u(face), face_u(face)) == 1,
        dot(face_v(face), face_v(face)) == 1,
        dot(face_normal(face), face_u(face)) == 0,
        dot(face_normal(face), face_v(face)) == 0,
        dot(face_u(face), face_v(face)) == 0,
        cross(face_v(face), face_u(face)) == face_normal(face),
{
    lemma_unit_products(0);
    lemma_unit_products(1);
    lemma_unit_products(-1);
}

/// Place of a grid point in the vertex list.
pub open spec fn vertex_index(subdivisions: int, face: int, i: int, j: int) -> int {
    grid_index(subdivisions + 1, subdivisions + 1, face, i, j)
}

/// Place of a cell among the cells of the mesh.
pub open spec fn cell_index(subdivisions: int, face: int, i: int, j: int) -> int {
    grid_index(subdivisions, subdivisions, face, i, j)
}

/// Number of vertices of the mesh.
pub open spec fn vertex_count(subdivisions: int) -> int {
    grid_size(subdivisions + 1, subdivisions + 1)
}

/// Number of triangles of the mesh: two for each cell.
pub open spec fn triangle_count(subdivisions: int) -> int {
    grid_size(subdivisions, subdivisions) * 2
}

/// One vertex of the mesh.
#[derive(Clone, Copy, Debug, PartialEq, Eq, Structural)]
pub struct Vertex {
    /// Position on the lattice. On a flat cube this is the vertex itself; on
    /// an inflated one the vertex lies in this direction, at the sphere's
    /// radius from the origin.
    pub position: Lattice,
    /// Direction of the normal, not of unit length: the outward normal of the
    /// face on a flat cube, the direction of the position on an inflated one.
    pub normal: Lattice,
    /// Row of the vertex on its face. Divided by the number of subdivisions
    /// it is the first texture coordinate, from 0 to 1.
    pub row: u32,
    /// Column of the vertex on its face. Divided by the number of
    /// subdivisions it is the second texture coordinate, from 0 to 1.
    pub column: u32,
}

/// A lattice vector with the given coordinates.
pub open spec fn lattice(a: (int, int, int)) -> Lattice {
    Lattice { x: a.0 as i64, y: a.1 as i64, z: a.2 as i64 }
}

/// The vertex at row `i` and column `j` of a face.
pub open spec fn grid_vertex(subdivisions: int, inflate: bool, face: int, i: int, j: int) -> Vertex {
    let position = lattice_position(subdivisions, face, i, j);
    Vertex {
        position: lattice(position),
        normal: lattice(
            if inflate {
                position
            } else {
                face_normal(face)
            },
        ),
        row: i as u32,
        column: j as u32,
    }
}

/// By how many rows and columns a corner of a cell's two triangles lies from
/// the cell's first grid point. Corners 0 to 2 are the first triangle, 3 to 5
/// the second. Inverting the winding exchanges the second and the third corner
/// of each triangle.
pub open spec fn corner_offset(invert: bool, corner: int) -> (int, int) {
    if corner == 0 {
        (0, 0)
    } else if corner == 3 {
        (0, 1)
    } else if invert {
        if corner == 1 {
            (1, 0)
        } else if corner == 2 {
            (0, 1)
        } else if corner == 4 {
            (1, 0)
        } else {
            (1, 1)
        }
    } else {
        if corner == 1 {
            (0, 1)
        } else if corner == 2 {
            (1, 0)
        } else if corner == 4 {
            (1, 1)
        } else {
            (1, 0)
        }
    }
}

/// The vertex index at a corner of the two triangles of the cell in row `i`
/// and column `j` of a face.
pub open spec fn corner_vertex(
    subdivisions: int,
    invert: bool,
    face: int,
    i: int,
    j: int,
    corner: int,
) -> int {
    let offset = corner_offset(invert, corner);
    vertex_index(subdivisions, face, i + offset.0, j + offset.1)
}

/// A triangle mesh over the lattice: six faces of a cube, or of the sphere
/// that the cube is inflated to.
#[derive(Debug)]
pub struct CubeMesh {
    /// Number of cells along each edge of a face.
    pub subdivisions: u32,
    /// Whether the vertices are to be pushed out onto the sphere.
    pub inflate: bool,
    /// The vertices, face by face and on each face row by row.
    pub vertices: Vec<Vertex>,
    /// Three vertex indices for each triangle, cell by cell.
    pub indices: Vec<u32>,
}

/// Why no mesh can be made.
#[derive(Clone, Copy, Debug, PartialEq, Eq, Structural)]
pub enum MeshError {
    /// A face must have at least one cell along each edge.
    ZeroSubdivisions,
}

/// Whether the vertex list is that of the cube with `subdivisions` cells
/// along each edge.
pub open spec fn is_vertex_list(
    vertices: Seq<Vertex>,
    subdivisions: int,
    inflate: bool,
) -> bool {
    &&& vertices.len() == vertex_count(subdivisions)
    &&& forall|face: int, i: int, j: int|
        0 <= face < 6 && 0 <= i <= subdivisions && 0 <= j <= subdivisions ==> vertices[vertex_index(
            subdivisions,
            face,
            i,
            j,
        )] == #[trigger] grid_vertex(subdivisions, inflate, face, i, j)
}

/// Whether the index list is that of the cube with `subdivisions` cells
/// along each edge.
pub open spec fn is_index_list(indices: Seq<u32>, subdivisions: int, invert: bool) -> bool {
    &&& indices.len() == 3 * triangle_count(subdivisions)
    &&& forall|face: int, i: int, j: int, corner: int|
        0 <= face < 6 && 0 <= i < subdivisions && 0 <= j < subdivisions && 0 <= corner < 6
            ==> indices[6 * cell_index(subdivisions, face, i, j) + corner] == #[trigger] corner_vertex(
            subdivisions,
            invert,
            face,
            i,
            j,
            corner,
        )
}

/// Whether the mesh is the cube, or cube-sphere, with the given parameters.
pub open spec fn is_spherical_cuboid(
    mesh: CubeMesh,
    subdivisions: int,
    invert: bool,
    inflate: bool,
) -> bool {
    &&& mesh.subdivisions == subdivisions
    &&& mesh.inflate == inflate
    &&& is_vertex_list(mesh.vertices@, subdivisions, inflate)
    &&& is_index_list(mesh.indices@, subdivisions, invert)
}

/// Makes the vertex at row `i` and column `j` of a face.
pub fn make_vertex(subdivisions: u32, inflate: bool, face: u32, i: u32, j: u32) -> (vertex: Vertex)
    requires
        face < FACES,
        i <= subdivisions,
        j <= subdivisions,
    ensures
        vertex == grid_vertex(subdivisions as int, inflate, face as int, i as int, j as int),
{
    let position = grid_position(subdivisions, face, i, j);
    let normal = if inflate {
        position
    } else {
        face_axes(face).normal
    };
    Vertex { position, normal, row: i, column: j }
}

/// Lists the vertices of the cube, face by face and row by row.
fn grid_vertices(subdivisions: u32, inflate: bool) -> (vertices: Vec<Vertex>)
    requires
        1 <= subdivisions <= MAX_SUBDIVISIONS,
    ensures
        is_vertex_list(vertices@, subdivisions as int, inflate),
{
    let ghost s = subdivisions as int;
    let side: u32 = subdivisions + 1;
    let mut vertices: Vec<Vertex> = Vec::new();
    proof {
        lemma_grid_index_steps(s + 1, s + 1, 0, 0, 0);
    }
    let mut face: u32 = 0;
    while face < FACES
        invariant
            face <= 6,
            side == subdivisions + 1,
            s == subdivisions,
            vertices@.len() == vertex_index(s, face as int, 0, 0),
            forall|f: int, a: int, b: int|
                0 <= f < 6 && 0 <= a <= s && 0 <= b <= s && vertex_index(s, f, a, b)
                    < vertices@.len() ==> vertices@[vertex_index(s, f, a, b)] == #[trigger] grid_vertex(
                    s,
                    inflate,
                    f,
                    a,
                    b,
                ),
        decreases 6 - face,
    {
        let mut i: u32 = 0;
        while i < side
            invariant
                face < 6,
                i <= side,
                side == subdivisions + 1,
                s == subdivisions,
                vertices@.len() == vertex_index(s, face as int, i as int, 0),
                forall|f: int, a: int, b: int|
                    0 <= f < 6 && 0 <= a <= s && 0 <= b <= s && vertex_index(s, f, a, b)
                        < vertices@.len() ==> vertices@[vertex_index(s, f, a, b)]
                        == #[trigger] grid_vertex(s, inflate, f, a, b),
            decreases side - i,
        {
            let mut j: u32 = 0;
            while j < side
                invariant
                    face < 6,
                    i < side,
                    j <= side,
                    side == subdivisions + 1,
                    s == subdivisions,
                    vertices@.len() == vertex_index(s, face as int, i as int, j as int),
                    forall|f: int, a: int, b: int|
                        0 <= f < 6 && 0 <= a <= s && 0 <= b <= s && vertex_index(s, f, a, b)
                            < vertices@.len() ==> vertices@[vertex_index(s, f, a, b)]
                            == #[trigger] grid_vertex(s, inflate, f, a, b),
                decreases side - j,
            {
                let vertex = make_vertex(subdivisions, inflate, face, i, j);
                let ghost before = vertices@;
                vertices.push(vertex);
                proof {
                    lemma_grid_index_steps(s + 1, s + 1, face as int, i as int, j as int);
                    assert forall|f: int, a: int, b: int|
                        0 <= f < 6 && 0 <= a <= s && 0 <= b <= s && vertex_index(s, f, a, b)
                            < vertices@.len() implies vertices@[vertex_index(s, f, a, b)]
                        == #[trigger] grid_vertex(s, inflate, f, a, b) by {
                        if vertex_index(s, f, a, b) == before.len() {
                            lemma_grid_index_injective(
                                s + 1,
                                s + 1,
                                f,
                                a,
                                b,
                                face as int,
                                i as int,
                                j as int,
                            );
                        } else {
                            lemma_grid_index_bound(s + 1, s + 1, f, a, b);
                            assert(vertices@[vertex_index(s, f, a, b)] == before[vertex_index(
                                s,
                                f,
                                a,
                                b,
                            )]);
                        }
                    }
                }
                j = j + 1;
            }
            proof {
                lemma_grid_index_steps(s + 1, s + 1, face as int, i as int, 0);
            }
            i = i + 1;
        }
        proof {
            lemma_grid_index_steps(s + 1, s + 1, face as int, 0, 0);
        }
        face = face + 1;
    }
    proof {
        lemma_grid_index_steps(s + 1, s + 1, 0, 0, 0);
        assert forall|f: int, a: int, b: int|
            0 <= f < 6 && 0 <= a <= s && 0 <= b <= s implies vertices@[vertex_index(s, f, a, b)]
            == #[trigger] grid_vertex(s, inflate, f, a, b) by {
            lemma_grid_index_bound(s + 1, s + 1, f, a, b);
        }
    }
    vertices
}

/// With at most `MAX_SUBDIVISIONS` subdivisions every vertex index fits in
/// 32 bits.
pub proof fn lemma_vertex_count_fits(subdivisions: int)
    requires
        0 <= subdivisions <= MAX_SUBDIVISIONS,
    ensures
        0 < vertex_count(subdivisions) <= u32::MAX,
{
    assert(0 < 6 * (subdivisions + 1) * (subdivisions + 1) <= 4_294_967_295) by (nonlinear_arith)
        requires
            0 <= subdivisions <= 26_753,
    ;
}

/// The corners of a cell's triangles are grid points of the cell's face, so
/// every index of the mesh is the index of a vertex.
pub proof fn lemma_corner_is_vertex(
    subdivisions: int,
    invert: bool,
    face: int,
    i: int,
    j: int,
    corner: int,
)
    requires
        0 <= face < 6,
        0 <= i < subdivisions,
        0 <= j < subdivisions,
        0 <= corner < 6,
    ensures
        0 <= corner_vertex(subdivisions, invert, face, i, j, corner) < vertex_count(subdivisions),
        corner_vertex(subdivisions, invert, face, i, j, corner) == vertex_index(
            subdivisions,
            face,
            i,
            j,
        ) + corner_offset(invert, corner).0 * (subdivisions + 1) + corner_offset(invert, corner).1,
{
    let offset = corner_offset(invert, corner);
    lemma_grid_index_bound(subdivisions + 1, subdivisions + 1, face, i + offset.0, j + offset.1);
    lemma_grid_index_steps(subdivisions + 1, subdivisions + 1, face, i, j);
    lemma_grid_index_steps(subdivisions + 1, subdivisions + 1, face, i + 1, j);
    lemma_grid_index_steps(subdivisions + 1, subdivisions + 1, face, i, j + 1);
    lemma_unit_products(subdivisions + 1);
}

/// Lists the vertex indices of the triangles, cell by cell.
fn grid_indices(subdivisions: u32, invert: bool) -> (indices: Vec<u32>)
    requires
        1 <= subdivisions <= MAX_SUBDIVISIONS,
    ensures
        is_index_list(indices@, subdivisions as int, invert),
{
    let ghost s = subdivisions as int;
    let side: u32 = subdivisions + 1;
    let mut indices: Vec<u32> = Vec::new();
    proof {
        lemma_grid_index_steps(s, s, 0, 0, 0);
    }
    let mut face: u32 = 0;
    while face < FACES
        invariant
            face <= 6,
            side == subdivisions + 1,
            s == subdivisions,
            1 <= subdivisions <= MAX_SUBDIVISIONS,
            indices@.len() == 6 * cell_index(s, face as int, 0, 0),
            forall|f: int, a: int, b: int, c: int|
                0 <= f < 6 && 0 <= a < s && 0 <= b < s && 0 <= c < 6 && 6 * cell_index(s, f, a, b)
                    + c < indices@.len() ==> indices@[6 * cell_index(s, f, a, b) + c]
                    == #[trigger] corner_vertex(s, invert, f, a, b, c),
        decreases 6 - face,
    {
        let mut i: u32 = 0;
        while i < subdivisions
            invariant
                face < 6,
                i <= subdivisions,
                side == subdivisions + 1,
                s == subdivisions,
                1 <= subdivisions <= MAX_SUBDIVISIONS,
                indices@.len() == 6 * cell_index(s, face as int, i as int, 0),
                forall|f: int, a: int, b: int, c: int|
                    0 <= f < 6 && 0 <= a < s && 0 <= b < s && 0 <= c < 6 && 6 * cell_index(
                        s,
                        f,
                        a,
                        b,
                    ) + c < indices@.len() ==> indices@[6 * cell_index(s, f, a, b) + c]
                        == #[trigger] corner_vertex(s, invert, f, a, b, c),
            decreases subdivisions - i,
        {
            let mut j: u32 = 0;
            while j < subdivisions
                invariant
                    face < 6,
                    i < subdivisions,
                    j <= subdivisions,
                    side == subdivisions + 1,
                    s == subdivisions,
                    1 <= subdivisions <= MAX_SUBDIVISIONS,
                    indices@.len() == 6 * cell_index(s, face as int, i as int, j as int),
                    forall|f: int, a: int, b: int, c: int|
                        0 <= f < 6 && 0 <= a < s && 0 <= b < s && 0 <= c < 6 && 6 * cell_index(
                            s,
                            f,
                            a,
                            b,
                        ) + c < indices@.len() ==> indices@[6 * cell_index(s, f, a, b) + c]
                            == #[trigger] corner_vertex(s, invert, f, a, b, c),
                decreases subdivisions - j,
            {
                proof {
                    lemma_vertex_count_fits(s);
                    lemma_grid_index_bound(s + 1, s + 1, face as int, i as int, j as int);
                    lemma_grid_index_bound(s + 1, s + 1, face as int, i as int + 1, j as int + 1);
                    lemma_grid_index_steps(s + 1, s + 1, face as int, i as int, j as int);
                    lemma_grid_index_steps(s + 1, s + 1, face as int, i as int + 1, j as int);
                    assert(0 <= face * side <= 6 * side) by (nonlinear_arith)
                        requires
                            0 <= face < 6,
                            0 <= side,
                    ;
                    assert(0 <= (face * side + i) * side <= vertex_index(
                        s,
                        face as int,
                        i as int,
                        j as int,
                    )) by (nonlinear_arith)
                        requires
                            0 <= face,
                            0 <= i,
                            0 <= j,
                            0 <= side,
                            vertex_index(s, face as int, i as int, j as int) == (face * side + i)
                                * side + j,
                    ;
                }
                let start: u32 = (face * side + i) * side + j;
                let ghost before = indices@;
                if invert {
                    indices.push(start);
                    indices.push(start + side);
                    indices.push(start + 1);
                    indices.push(start + 1);
                    indices.push(start + side);
                    indices.push(start + side + 1);
                } else {
                    indices.push(start);
                    indices.push(start + 1);
                    indices.push(start + side);
                    indices.push(start + 1);
                    indices.push(start + side + 1);
                    indices.push(start + side);
                }
                proof {
                    lemma_grid_index_steps(s, s, face as int, i as int, j as int);
                    assert forall|f: int, a: int, b: int, c: int|
                        0 <= f < 6 && 0 <= a < s && 0 <= b < s && 0 <= c < 6 && 6 * cell_index(
                            s,
                            f,
                            a,
                            b,
                        ) + c < indices@.len() implies indices@[6 * cell_index(s, f, a, b) + c]
                        == #[trigger] corner_vertex(s, invert, f, a, b, c) by {
                        let place = 6 * cell_index(s, f, a, b) + c;
                        lemma_grid_index_bound(s, s, f, a, b);
                        if place < before.len() {
                            assert(indices@[place] == before[place]);
                        } else {
                            assert(cell_index(s, f, a, b) == cell_index(
                                s,
                                face as int,
                                i as int,
                                j as int,
                            ));
                            lemma_grid_index_injective(
                                s,
                                s,
                                f,
                                a,
                                b,
                                face as int,
                                i as int,
                                j as int,
                            );
                            lemma_corner_is_vertex(s, invert, f, a, b, c);
                        }
                    }
                }
                j = j + 1;
            }
            proof {
                lemma_grid_index_steps(s, s, face as int, i as int, 0);
            }
            i = i + 1;
        }
        proof {
            lemma_grid_index_steps(s, s, face as int, 0, 0);
        }
        face = face + 1;
    }
    proof {
        lemma_grid_index_steps(s, s, 0, 0, 0);
        assert forall|f: int, a: int, b: int, c: int|
            0 <= f < 6 && 0 <= a < s && 0 <= b < s && 0 <= c < 6 implies indices@[6 * cell_index(
                s,
                f,
                a,
                b,
            ) + c] == #[trigger] corner_vertex(s, invert, f, a, b, c) by {
            lemma_grid_index_bound(s, s, f, a, b);
        }
    }
    indices
}

/// Creates the mesh of a cube with `subdivisions` cells along each edge of a
/// face, or of the sphere that the cube is inflated to.
///
/// The mesh has `6 * (subdivisions + 1)^2` vertices and `6 * subdivisions^2 * 2`
/// triangles. With `invert` the triangles face inwards, as for a sky dome;
/// without it they face outwards, as for a planet. With `inflate` the vertices
/// are meant to be pushed out onto the sphere and take their own direction as
/// their normal; without it they stay on the cube and take the outward normal
/// of their face.
///
/// A cube without subdivisions is refused.
pub fn spherical_cuboid(subdivisions: u32, invert: bool, inflate: bool) -> (made: Result<
    CubeMesh,
    MeshError,
>)
    requires
        subdivisions <= MAX_SUBDIVISIONS,
    ensures
        made is Err <==> subdivisions == 0,
        match made {
            Ok(mesh) => {
                &&& is_spherical_cuboid(mesh, subdivisions as int, invert, inflate)
                &&& mesh.vertices@.len() == 6 * (subdivisions + 1) * (subdivisions + 1)
                &&& mesh.indices@.len() == 3 * (6 * subdivisions * subdivisions * 2)
            },
            Err(error) => error == MeshError::ZeroSubdivisions,
        },
{
    if subdivisions == 0 {
        return Err(MeshError::ZeroSubdivisions);
    }
    let vertices = grid_vertices(subdivisions, inflate);
    let indices = grid_indices(subdivisions, invert);
    Ok(CubeMesh { subdivisions, inflate, vertices, indices })
}

/// The vertices of the mesh are determined by the number of subdivisions
/// and by whether the cube is inflated. They do not depend on the winding.
pub proof fn lemma_vertex_list_unique(
    first: Seq<Vertex>,
    second: Seq<Vertex>,
    subdivisions: int,
    inflate: bool,
)
    requires
        subdivisions >= 0,
        is_vertex_list(first, subdivisions, inflate),
        is_vertex_list(second, subdivisions, inflate),
    ensures
        first == second,
{
    assert forall|place: int| 0 <= place < first.len() implies first[place] == second[place] by {
        let entry = lemma_grid_index_onto(subdivisions + 1, subdivisions + 1, place);
        let vertex = grid_vertex(subdivisions, inflate, entry.0, entry.1, entry.2);
        assert(first[vertex_index(subdivisions, entry.0, entry.1, entry.2)] == vertex);
        assert(second[vertex_index(subdivisions, entry.0, entry.1, entry.2)] == vertex);
    }
    assert(first =~= second);
}

/// Inverting the winding reverses every triangle: the inverted mesh lists
/// the same three vertices for each triangle, starting from the same one and
/// going round the other way.
pub proof fn lemma_inverted_winding_reverses(
    plain: Seq<u32>,
    inverted: Seq<u32>,
    subdivisions: int,
)
    requires
        subdivisions >= 1,
        is_index_list(plain, subdivisions, false),
        is_index_list(inverted, subdivisions, true),
    ensures
        inverted.len() == plain.len(),
        forall|triangle: int|
            0 <= triangle < triangle_count(subdivisions) ==> {
                &&& #[trigger] inverted[3 * triangle] == plain[3 * triangle]
                &&& inverted[3 * triangle + 1] == plain[3 * triangle + 2]
                &&& inverted[3 * triangle + 2] == plain[3 * triangle + 1]
            },
{
    assert forall|triangle: int| 0 <= triangle < triangle_count(subdivisions) implies {
        &&& #[trigger] inverted[3 * triangle] == plain[3 * triangle]
        &&& inverted[3 * triangle + 1] == plain[3 * triangle + 2]
        &&& inverted[3 * triangle + 2] == plain[3 * triangle + 1]
    } by {
        let cell = triangle / 2;
        let half = triangle % 2;
        let entry = lemma_grid_index_onto(subdivisions, subdivisions, cell);
        let (face, i, j) = entry;
        let first = 3 * half;
        assert(3 * triangle == 6 * cell_index(subdivisions, face, i, j) + first);
        assert(plain[6 * cell_index(subdivisions, face, i, j) + first] == corner_vertex(
            subdivisions,
            false,
            face,
            i,
            j,
            first,
        ));
        assert(plain[6 * cell_index(subdivisions, face, i, j) + (first + 1)] == corner_vertex(
            subdivisions,
            false,
            face,
            i,
            j,
            first + 1,
        ));
        assert(plain[6 * cell_index(subdivisions, face, i, j) + (first + 2)] == corner_vertex(
            subdivisions,
            false,
            face,
            i,
            j,
            first + 2,
        ));
        assert(inverted[6 * cell_index(subdivisions, face, i, j) + first] == corner_vertex(
            subdivisions,
            true,
            face,
            i,
            j,
            first,
        ));
        assert(inverted[6 * cell_index(subdivisions, face, i, j) + (first + 1)] == corner_vertex(
            subdivisions,
            true,
            face,
            i,
            j,
            first + 1,
        ));
        assert(inverted[6 * cell_index(subdivisions, face, i, j) + (first + 2)] == corner_vertex(
            subdivisions,
            true,
            face,
            i,
            j,
            first + 2,
        ));
    }
}

/// Every index of the mesh is the index of one of its vertices, and the
/// three corners of each triangle are three different vertices.
pub proof fn lemma_triangles_are_proper(indices: Seq<u32>, subdivisions: int, invert: bool)
    requires
        subdivisions >= 1,
        is_index_list(indices, subdivisions, invert),
    ensures
        forall|place: int|
            0 <= place < indices.len() ==> (#[trigger] indices[place]) < vertex_count(subdivisions),
        forall|triangle: int|
            0 <= triangle < triangle_count(subdivisions) ==> {
                &&& #[trigger] indices[3 * triangle] != indices[3 * triangle + 1]
                &&& indices[3 * triangle] != indices[3 * triangle + 2]
                &&& indices[3 * triangle + 1] != indices[3 * triangle + 2]
            },
{
    assert forall|place: int| 0 <= place < indices.len() implies (#[trigger] indices[place])
        < vertex_count(subdivisions) by {
        let cell = place / 6;
        let corner = place % 6;
        let entry = lemma_grid_index_onto(subdivisions, subdivisions, cell);
        let (face, i, j) = entry;
        lemma_corner_is_vertex(subdivisions, invert, face, i, j, corner);
        assert(indices[6 * cell_index(subdivisions, face, i, j) + corner] == corner_vertex(
            subdivisions,
            invert,
            face,
            i,
            j,
            corner,
        ));
    }
    assert forall|triangle: int| 0 <= triangle < triangle_count(subdivisions) implies {
        &&& #[trigger] indices[3 * triangle] != indices[3 * triangle + 1]
        &&& indices[3 * triangle] != indices[3 * triangle + 2]
        &&& indices[3 * triangle + 1] != indices[3 * triangle + 2]
    } by {
        let cell = triangle / 2;
        let first = 3 * (triangle % 2);
        let entry = lemma_grid_index_onto(subdivisions, subdivisions, cell);
        let (face, i, j) = entry;
        lemma_corner_is_vertex(subdivisions, invert, face, i, j, first);
        lemma_corner_is_vertex(subdivisions, invert, face, i, j, first + 1);
        lemma_corner_is_vertex(subdivisions, invert, face, i, j, first + 2);
        lemma_unit_products(subdivisions + 1);
        assert(indices[6 * cell_index(subdivisions, face, i, j) + first] == corner_vertex(
            subdivisions,
            invert,
            face,
            i,
            j,
            first,
        ));
        assert(indices[6 * cell_index(subdivisions, face, i, j) + (first + 1)] == corner_vertex(
            subdivisions,
            invert,
            face,
            i,
            j,
            first + 1,
        ));
        assert(indices[6 * cell_index(subdivisions, face, i, j) + (first + 2)] == corner_vertex(
            subdivisions,
            invert,
            face,
            i,
            j,
            first + 2,
        ));
    }
}

} // verus!
