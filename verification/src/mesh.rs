//! The triangle mesh of a world: for every solid voxel, the faces that no
//! opaque neighbour hides.
//!
//! Positions and normals are integer triples, colours are four channels in
//! percent, and indices point into the vertices.

use vstd::prelude::*;
use vstd::std_specs::hash::spec_hash_map_iter;
use vstd::std_specs::iter::IteratorSpec;
use crate::block::{channels, BlockType, Voxel};
use crate::chunk_map::ChunkMap;
use crate::grid::IVec3;
use crate::key::{lemma_positions_enumerate, lemma_unref_no_duplicates, positions, unpack_key};
use crate::world_map::{enumerates, storable, WorldMap};

verus! {

/// The six faces of a voxel's cube.
#[derive(Debug, Clone, Copy, PartialEq, Eq, Structural)]
pub enum Face {
    Top,
    Bottom,
    Left,
    Right,
    Front,
    Back,
}

impl Face {
    /// The direction in which the face looks: its normal, and the offset of
    /// the neighbour that can hide it.
    pub open spec fn normal(self) -> (int, int, int) {
        match self {
            Face::Top => (0, 1, 0),
            Face::Bottom => (0, -1, 0),
            Face::Left => (-1, 0, 0),
            Face::Right => (1, 0, 0),
            Face::Front => (0, 0, 1),
            Face::Back => (0, 0, -1),
        }
    }

    /// The four corners of the face of the unit cube whose least corner is
    /// `p`, in the order in which they are emitted.
    pub open spec fn corners(self, p: (int, int, int)) -> Seq<(int, int, int)> {
        let (x, y, z) = p;
        match self {
            Face::Top => seq![(x, y + 1, z + 1), (x, y + 1, z), (x + 1, y + 1, z), (x + 1, y + 1, z + 1)],
            Face::Bottom => seq![(x + 1, y, z + 1), (x, y, z + 1), (x, y, z), (x + 1, y, z)],
            Face::Left => seq![(x, y, z + 1), (x, y + 1, z + 1), (x, y + 1, z), (x, y, z)],
            Face::Right => seq![(x + 1, y, z + 1), (x + 1, y + 1, z + 1), (x + 1, y + 1, z), (x + 1, y, z)],
            Face::Front => seq![(x, y, z + 1), (x, y + 1, z + 1), (x + 1, y + 1, z + 1), (x + 1, y, z + 1)],
            Face::Back => seq![(x, y, z), (x, y + 1, z), (x + 1, y + 1, z), (x + 1, y, z)],
        }
    }

    /// The coordinate of the neighbour that can hide the face of the voxel at `p`.
    pub open spec fn neighbor(self, p: (int, int, int)) -> (int, int, int) {
        (p.0 + self.normal().0, p.1 + self.normal().1, p.2 + self.normal().2)
    }
}

/// The indices of the two triangles of a face whose first vertex has the
/// index `offset`.
pub open spec fn quad_indices(offset: int) -> Seq<int> {
    seq![offset, offset + 1, offset + 2, offset + 2, offset + 3, offset]
}

/// The triple of integers that an array of three stands for.
pub open spec fn point(a: [i32; 3]) -> (int, int, int) {
    (a[0] as int, a[1] as int, a[2] as int)
}

/// The triples that a sequence of arrays stands for.
pub open spec fn points(s: Seq<[i32; 3]>) -> Seq<(int, int, int)> {
    Seq::new(s.len(), |i: int| point(s[i]))
}

/// The numbers that a sequence of indices stands for.
pub open spec fn numbers(s: Seq<u32>) -> Seq<int> {
    Seq::new(s.len(), |i: int| s[i] as int)
}

/// The colours that a sequence of arrays stands for.
pub open spec fn colors_of(s: Seq<[u8; 4]>) -> Seq<(int, int, int, int)> {
    Seq::new(s.len(), |i: int| channels(s[i]))
}

/// What a mesh holds, as mathematical sequences.
pub struct MeshModel {
    pub vertices: Seq<(int, int, int)>,
    pub indices: Seq<int>,
    pub normals: Seq<(int, int, int)>,
    pub colors: Seq<(int, int, int, int)>,
}

impl MeshModel {
    /// The mesh that holds nothing.
    pub open spec fn empty() -> MeshModel {
        MeshModel {
            vertices: Seq::empty(),
            indices: Seq::empty(),
            normals: Seq::empty(),
            colors: Seq::empty(),
        }
    }

    /// The mesh with the four vertices and the two triangles of one more
    /// quad: all four vertices get the same normal and colour, and the
    /// triangles are numbered from `index_offset`.
    pub open spec fn with_quad(
        self,
        corners: Seq<(int, int, int)>,
        normal: (int, int, int),
        color: (int, int, int, int),
        index_offset: int,
    ) -> MeshModel {
        MeshModel {
            vertices: self.vertices + corners,
            indices: self.indices + quad_indices(index_offset),
            normals: self.normals + seq![normal, normal, normal, normal],
            colors: self.colors + seq![color, color, color, color],
        }
    }

    /// The mesh with one more face of the voxel at `p`, in the colour of its
    /// material.
    pub open spec fn with_face(
        self,
        face: Face,
        p: (int, int, int),
        block_type: BlockType,
        index_offset: int,
    ) -> MeshModel {
        self.with_quad(face.corners(p), face.normal(), block_type.rgba(), index_offset)
    }

    /// The mesh followed by all that `other` holds, as it stands there.
    pub open spec fn concat(self, other: MeshModel) -> MeshModel {
        MeshModel {
            vertices: self.vertices + other.vertices,
            indices: self.indices + other.indices,
            normals: self.normals + other.normals,
            colors: self.colors + other.colors,
        }
    }

    /// Whether the four sequences fit together: one normal and one colour
    /// for each vertex, indices in groups of six, and each index that of a
    /// vertex.
    pub open spec fn consistent(self) -> bool {
        &&& self.vertices.len() == self.normals.len()
        &&& self.vertices.len() == self.colors.len()
        &&& self.indices.len() % 6 == 0
        &&& forall|i: int|
            0 <= i < self.indices.len() ==> 0 <= #[trigger] self.indices[i] < self.vertices.len()
    }
}

/// The vertices, triangle indices, normals and vertex colours of a mesh.
#[derive(Debug)]
pub struct MeshData {
    pub vertices: Vec<[i32; 3]>,
    pub indices: Vec<u32>,
    pub normals: Vec<[i32; 3]>,
    pub colors: Vec<[u8; 4]>,
}

impl View for MeshData {
    type V = MeshModel;

    open spec fn view(&self) -> MeshModel {
        MeshModel {
            vertices: points(self.vertices@),
            indices: numbers(self.indices@),
            normals: points(self.normals@),
            colors: colors_of(self.colors@),
        }
    }
}

impl MeshData {
    /// A mesh that holds nothing.
    pub fn new() -> (mesh: Self)
        ensures
            mesh@ == MeshModel::empty(),
    {
        let mesh = MeshData {
            vertices: Vec::new(),
            indices: Vec::new(),
            normals: Vec::new(),
            colors: Vec::new(),
        };
        proof {
            assert(mesh@.vertices =~= Seq::empty());
            assert(mesh@.indices =~= Seq::empty());
            assert(mesh@.normals =~= Seq::empty());
            assert(mesh@.colors =~= Seq::empty());
        }
        mesh
    }

    /// Empties the mesh.
    pub fn clear(&mut self)
        ensures
            final(self)@ == MeshModel::empty(),
    {
        self.vertices.clear();
        self.indices.clear();
        self.normals.clear();
        self.colors.clear();
        proof {
            assert(self@.vertices =~= Seq::empty());
            assert(self@.indices =~= Seq::empty());
            assert(self@.normals =~= Seq::empty());
            assert(self@.colors =~= Seq::empty());
        }
    }

    /// Appends all that `mesh` holds, as it stands there: the indices are
    /// not renumbered.
    pub fn insert_mesh(&mut self, mesh: &MeshData)
        ensures
            final(self)@ == old(self)@.concat(mesh@),
            final(self).vertices@ == old(self).vertices@ + mesh.vertices@,
            final(self).indices@ == old(self).indices@ + mesh.indices@,
            final(self).normals@ == old(self).normals@ + mesh.normals@,
            final(self).colors@ == old(self).colors@ + mesh.colors@,
    {
        extend_copy(&mut self.vertices, &mesh.vertices);
        extend_copy(&mut self.indices, &mesh.indices);
        extend_copy(&mut self.normals, &mesh.normals);
        extend_copy(&mut self.colors, &mesh.colors);
        proof {
            assert(self@.vertices =~= old(self)@.vertices + mesh@.vertices);
            assert(self@.indices =~= old(self)@.indices + mesh@.indices);
            assert(self@.normals =~= old(self)@.normals + mesh@.normals);
            assert(self@.colors =~= old(self)@.colors + mesh@.colors);
        }
    }
}

/// Appends the items of `source` to `target`.
fn extend_copy<T: Copy>(target: &mut Vec<T>, source: &Vec<T>)
    ensures
        final(target)@ == old(target)@ + source@,
{
    let mut i: usize = 0;
    while i < source.len()
        invariant
            0 <= i <= source@.len(),
            target@ == old(target)@ + source@.take(i as int),
        decreases source.len() - i,
    {
        target.push(source[i]);
        proof {
            assert(source@.take(i + 1) =~= source@.take(i as int).push(source@[i as int]));
            assert(target@ =~= old(target)@ + source@.take(i + 1));
        }
        i = i + 1;
    }
    proof {
        assert(source@.take(i as int) =~= source@);
    }
}

/// Appends one quad to the mesh: its four corners, the same normal and
/// colour for each, and its two triangles, numbered from `index_offset`.
fn push_quad(
    mesh: &mut MeshData,
    corners: [[i32; 3]; 4],
    normal: [i32; 3],
    color: [u8; 4],
    index_offset: u32,
)
    requires
        index_offset + 3 <= u32::MAX,
    ensures
        final(mesh)@ == old(mesh)@.with_quad(
            seq![point(corners[0]), point(corners[1]), point(corners[2]), point(corners[3])],
            point(normal),
            channels(color),
            index_offset as int,
        ),
{
    mesh.vertices.push(corners[0]);
    mesh.vertices.push(corners[1]);
    mesh.vertices.push(corners[2]);
    mesh.vertices.push(corners[3]);
    mesh.indices.push(index_offset);
    mesh.indices.push(index_offset + 1);
    mesh.indices.push(index_offset + 2);
    mesh.indices.push(index_offset + 2);
    mesh.indices.push(index_offset + 3);
    mesh.indices.push(index_offset);
    mesh.normals.push(normal);
    mesh.normals.push(normal);
    mesh.normals.push(normal);
    mesh.normals.push(normal);
    mesh.colors.push(color);
    mesh.colors.push(color);
    mesh.colors.push(color);
    mesh.colors.push(color);
    proof {
        let expected = old(mesh)@.with_quad(
            seq![point(corners[0]), point(corners[1]), point(corners[2]), point(corners[3])],
            point(normal),
            channels(color),
            index_offset as int,
        );
        assert(mesh@.vertices =~= expected.vertices);
        assert(mesh@.indices =~= expected.indices);
        assert(mesh@.normals =~= expected.normals);
        assert(mesh@.colors =~= expected.colors);
    }
}

/// Whether the far corners of the cube of the voxel at `pos` are `i32`
/// coordinates.
pub open spec fn cube_fits(pos: IVec3) -> bool {
    pos.x < i32::MAX && pos.y < i32::MAX && pos.z < i32::MAX
}

/// Appends the top face of the voxel at `voxel_pos`.
pub fn add_top(mesh: &mut MeshData, voxel_pos: IVec3, block_type: &BlockType, index_offset: u32)
    requires
        cube_fits(voxel_pos),
        index_offset + 3 <= u32::MAX,
    ensures
        final(mesh)@ == old(mesh)@.with_face(Face::Top, voxel_pos@, *block_type, index_offset as int),
{
    let x = voxel_pos.x;
    let y = voxel_pos.y;
    let z = voxel_pos.z;
    let corners = [[x, y + 1, z + 1], [x, y + 1, z], [x + 1, y + 1, z], [x + 1, y + 1, z + 1]];
    push_quad(mesh, corners, [0, 1, 0], block_type.color(), index_offset);
    proof {
        assert(Face::Top.corners(voxel_pos@) =~= seq![
            point(corners[0]),
            point(corners[1]),
            point(corners[2]),
            point(corners[3]),
        ]);
    }
}

/// Appends the bottom face of the voxel at `voxel_pos`.
pub fn add_bottom(mesh: &mut MeshData, voxel_pos: IVec3, block_type: &BlockType, index_offset: u32)
    requires
        cube_fits(voxel_pos),
        index_offset + 3 <= u32::MAX,
    ensures
        final(mesh)@ == old(mesh)@.with_face(
            Face::Bottom,
            voxel_pos@,
            *block_type,
            index_offset as int,
        ),
{
    let x = voxel_pos.x;
    let y = voxel_pos.y;
    let z = voxel_pos.z;
    let corners = [[x + 1, y, z + 1], [x, y, z + 1], [x, y, z], [x + 1, y, z]];
    push_quad(mesh, corners, [0, -1, 0], block_type.color(), index_offset);
    proof {
        assert(Face::Bottom.corners(voxel_pos@) =~= seq![
            point(corners[0]),
            point(corners[1]),
            point(corners[2]),
            point(corners[3]),
        ]);
    }
}

/// Appends the left face of the voxel at `voxel_pos`.
pub fn add_left(mesh: &mut MeshData, voxel_pos: IVec3, block_type: &BlockType, index_offset: u32)
    requires
        cube_fits(voxel_pos),
        index_offset + 3 <= u32::MAX,
    ensures
        final(mesh)@ == old(mesh)@.with_face(Face::Left, voxel_pos@, *block_type, index_offset as int),
{
    let x = voxel_pos.x;
    let y = voxel_pos.y;
    let z = voxel_pos.z;
    let corners = [[x, y, z + 1], [x, y + 1, z + 1], [x, y + 1, z], [x, y, z]];
    push_quad(mesh, corners, [-1, 0, 0], block_type.color(), index_offset);
    proof {
        assert(Face::Left.corners(voxel_pos@) =~= seq![
            point(corners[0]),
            point(corners[1]),
            point(corners[2]),
            point(corners[3]),
        ]);
    }
}

/// Appends the right face of the voxel at `voxel_pos`.
pub fn add_right(mesh: &mut MeshData, voxel_pos: IVec3, block_type: &BlockType, index_offset: u32)
    requires
        cube_fits(voxel_pos),
        index_offset + 3 <= u32::MAX,
    ensures
        final(mesh)@ == old(mesh)@.with_face(
            Face::Right,
            voxel_pos@,
            *block_type,
            index_offset as int,
        ),
{
    let x = voxel_pos.x;
    let y = voxel_pos.y;
    let z = voxel_pos.z;
    let corners = [[x + 1, y, z + 1], [x + 1, y + 1, z + 1], [x + 1, y + 1, z], [x + 1, y, z]];
    push_quad(mesh, corners, [1, 0, 0], block_type.color(), index_offset);
    proof {
        assert(Face::Right.corners(voxel_pos@) =~= seq![
            point(corners[0]),
            point(corners[1]),
            point(corners[2]),
            point(corners[3]),
        ]);
    }
}

/// Appends the front face of the voxel at `voxel_pos`.
pub fn add_front(mesh: &mut MeshData, voxel_pos: IVec3, block_type: &BlockType, index_offset: u32)
    requires
        cube_fits(voxel_pos),
        index_offset + 3 <= u32::MAX,
    ensures
        final(mesh)@ == old(mesh)@.with_face(
            Face::Front,
            voxel_pos@,
            *block_type,
            index_offset as int,
        ),
{
    let x = voxel_pos.x;
    let y = voxel_pos.y;
    let z = voxel_pos.z;
    let corners = [[x, y, z + 1], [x, y + 1, z + 1], [x + 1, y + 1, z + 1], [x + 1, y, z + 1]];
    push_quad(mesh, corners, [0, 0, 1], block_type.color(), index_offset);
    proof {
        assert(Face::Front.corners(voxel_pos@) =~= seq![
            point(corners[0]),
            point(corners[1]),
            point(corners[2]),
            point(corners[3]),
        ]);
    }
}

/// Appends the back face of the voxel at `voxel_pos`.
pub fn add_back(mesh: &mut MeshData, voxel_pos: IVec3, block_type: &BlockType, index_offset: u32)
    requires
        cube_fits(voxel_pos),
        index_offset + 3 <= u32::MAX,
    ensures
        final(mesh)@ == old(mesh)@.with_face(Face::Back, voxel_pos@, *block_type, index_offset as int),
{
    let x = voxel_pos.x;
    let y = voxel_pos.y;
    let z = voxel_pos.z;
    let corners = [[x, y, z], [x, y + 1, z], [x + 1, y + 1, z], [x + 1, y, z]];
    push_quad(mesh, corners, [0, 0, -1], block_type.color(), index_offset);
    proof {
        assert(Face::Back.corners(voxel_pos@) =~= seq![
            point(corners[0]),
            point(corners[1]),
            point(corners[2]),
            point(corners[3]),
        ]);
    }
}

/// The twenty-four corners of the cube of the voxel at `p`: the corners of
/// its six faces, face after face.
pub open spec fn cube_corners(p: (int, int, int)) -> Seq<(int, int, int)> {
    Face::Top.corners(p) + Face::Bottom.corners(p) + Face::Left.corners(p) + Face::Right.corners(
        p,
    ) + Face::Front.corners(p) + Face::Back.corners(p)
}

/// The indices of the twelve triangles of a cube whose first vertex has the
/// index `offset`.
pub open spec fn cube_indices(offset: int) -> Seq<int> {
    quad_indices(offset) + quad_indices(offset + 4) + quad_indices(offset + 8) + quad_indices(
        offset + 12,
    ) + quad_indices(offset + 16) + quad_indices(offset + 20)
}

/// The normals of the six faces, in the order of the faces.
pub open spec fn cube_normals() -> Seq<(int, int, int)> {
    seq![
        Face::Top.normal(),
        Face::Bottom.normal(),
        Face::Left.normal(),
        Face::Right.normal(),
        Face::Front.normal(),
        Face::Back.normal(),
    ]
}

impl MeshModel {
    /// The mesh with all six faces of the voxel at `p`, seen or not, its
    /// triangles numbered from `index_offset`.
    pub open spec fn with_cube(self, p: (int, int, int), block_type: BlockType, index_offset: int) -> MeshModel {
        self.with_face(Face::Top, p, block_type, index_offset).with_face(
            Face::Bottom,
            p,
            block_type,
            index_offset + 4,
        ).with_face(Face::Left, p, block_type, index_offset + 8).with_face(
            Face::Right,
            p,
            block_type,
            index_offset + 12,
        ).with_face(Face::Front, p, block_type, index_offset + 16).with_face(
            Face::Back,
            p,
            block_type,
            index_offset + 20,
        )
    }
}

/// The corners of the six faces of the cube of the voxel at `pos`.
pub fn generate_cube_vertices(pos: IVec3) -> (vertices: Vec<[i32; 3]>)
    requires
        cube_fits(pos),
    ensures
        vertices@.len() == 24,
        points(vertices@) == cube_corners(pos@),
{
    let x = pos.x;
    let y = pos.y;
    let z = pos.z;
    let vertices = vec![
        [x, y + 1, z + 1],
        [x, y + 1, z],
        [x + 1, y + 1, z],
        [x + 1, y + 1, z + 1],
        [x + 1, y, z + 1],
        [x, y, z + 1],
        [x, y, z],
        [x + 1, y, z],
        [x, y, z + 1],
        [x, y + 1, z + 1],
        [x, y + 1, z],
        [x, y, z],
        [x + 1, y, z + 1],
        [x + 1, y + 1, z + 1],
        [x + 1, y + 1, z],
        [x + 1, y, z],
        [x, y, z + 1],
        [x, y + 1, z + 1],
        [x + 1, y + 1, z + 1],
        [x + 1, y, z + 1],
        [x, y, z],
        [x, y + 1, z],
        [x + 1, y + 1, z],
        [x + 1, y, z],
    ];
    proof {
        assert(points(vertices@) =~= cube_corners(pos@));
    }
    vertices
}

/// The indices of the twelve triangles of a cube whose first vertex has the
/// index `index`.
pub fn generate_cube_indices(index: u32) -> (indices: Vec<u32>)
    requires
        index + 23 <= u32::MAX,
    ensures
        indices@.len() == 36,
        numbers(indices@) == cube_indices(index as int),
{
    let mut indices: Vec<u32> = Vec::new();
    let mut face: u32 = 0;
    proof {
        assert(numbers(indices@) =~= Seq::<int>::empty());
    }
    while face < 6
        invariant
            0 <= face <= 6,
            index + 23 <= u32::MAX,
            indices@.len() == 6 * face,
            forall|k: int, i: int|
                0 <= k < face && 0 <= i < 6 ==> #[trigger] indices@[6 * k + i] == quad_indices(
                    index + 4 * k,
                )[i],
        decreases 6 - face,
    {
        let base: u32 = index + 4 * face;
        let ghost before = indices@;
        indices.push(base);
        indices.push(base + 1);
        indices.push(base + 2);
        indices.push(base + 2);
        indices.push(base + 3);
        indices.push(base);
        proof {
            assert forall|k: int, i: int| 0 <= k < face + 1 && 0 <= i < 6 implies #[trigger] indices@[6
                * k + i] == quad_indices(index + 4 * k)[i] by {
                if k < face {
                    assert(indices@[6 * k + i] == before[6 * k + i]);
                }
            }
        }
        face = face + 1;
    }
    proof {
        let expected = cube_indices(index as int);
        assert forall|n: int| 0 <= n < 36 implies numbers(indices@)[n] == expected[n] by {
            let k = n / 6;
            let i = n % 6;
            assert(indices@[6 * k + i] == quad_indices(index + 4 * k)[i]);
        }
        assert(numbers(indices@) =~= expected);
    }
    indices
}

/// The normals of the six faces of a cube, one for each face.
pub fn generate_cube_normals() -> (normals: Vec<[i32; 3]>)
    ensures
        normals@.len() == 6,
        points(normals@) == cube_normals(),
{
    let normals = vec![[0, 1, 0], [0, -1, 0], [-1, 0, 0], [1, 0, 0], [0, 0, 1], [0, 0, -1]];
    proof {
        assert(points(normals@) =~= cube_normals());
    }
    normals
}

/// Appends all six faces of the voxel at `voxel_pos`, seen or not.
pub fn add_voxel_cube(mesh: &mut MeshData, voxel_pos: IVec3, block_type: &BlockType, index_offset: u32)
    requires
        cube_fits(voxel_pos),
        index_offset + 23 <= u32::MAX,
    ensures
        final(mesh)@ == old(mesh)@.with_cube(voxel_pos@, *block_type, index_offset as int),
{
    let cube_vertices = generate_cube_vertices(voxel_pos);
    let cube_indices = generate_cube_indices(index_offset);
    let cube_normals = generate_cube_normals();
    extend_copy(&mut mesh.vertices, &cube_vertices);
    extend_copy(&mut mesh.indices, &cube_indices);
    let color = block_type.color();
    let mut face: usize = 0;
    assert(points(cube_normals@).len() == 6);
    while face < cube_normals.len()
        invariant
            0 <= face <= 6,
            cube_normals@.len() == 6,
            points(cube_normals@) == crate::mesh::cube_normals(),
            mesh.vertices@ == old(mesh).vertices@ + cube_vertices@,
            mesh.indices@ == old(mesh).indices@ + cube_indices@,
            mesh.normals@.len() == old(mesh).normals@.len() + 4 * face,
            mesh.colors@.len() == old(mesh).colors@.len() + 4 * face,
            forall|i: int|
                0 <= i < old(mesh).normals@.len() ==> mesh.normals@[i] == old(mesh).normals@[i],
            forall|i: int|
                0 <= i < old(mesh).colors@.len() ==> mesh.colors@[i] == old(mesh).colors@[i],
            forall|i: int|
                0 <= i < 4 * face ==> point(#[trigger] mesh.normals@[old(mesh).normals@.len() + i])
                    == crate::mesh::cube_normals()[i / 4],
            forall|i: int|
                0 <= i < 4 * face ==> #[trigger] mesh.colors@[old(mesh).colors@.len() + i] == color,
        decreases 6 - face,
    {
        let normal = cube_normals[face];
        assert(point(normal) == points(cube_normals@)[face as int]);
        mesh.normals.push(normal);
        mesh.normals.push(normal);
        mesh.normals.push(normal);
        mesh.normals.push(normal);
        mesh.colors.push(color);
        mesh.colors.push(color);
        mesh.colors.push(color);
        mesh.colors.push(color);
        face = face + 1;
    }
    proof {
        let expected = old(mesh)@.with_cube(voxel_pos@, *block_type, index_offset as int);
        assert(points(cube_vertices@).len() == 24);
        assert(numbers(cube_indices@).len() == 36);
        assert forall|i: int| 0 <= i < mesh@.vertices.len() implies mesh@.vertices[i]
            == expected.vertices[i] by {
            if i >= old(mesh).vertices@.len() {
                assert(mesh@.vertices[i] == points(cube_vertices@)[i - old(mesh).vertices@.len()]);
            }
        }
        assert(mesh@.vertices =~= expected.vertices);
        assert forall|i: int| 0 <= i < mesh@.indices.len() implies mesh@.indices[i]
            == expected.indices[i] by {
            if i >= old(mesh).indices@.len() {
                assert(mesh@.indices[i] == numbers(cube_indices@)[i - old(mesh).indices@.len()]);
            }
        }
        assert(mesh@.indices =~= expected.indices);
        assert forall|i: int| 0 <= i < mesh@.normals.len() implies mesh@.normals[i]
            == expected.normals[i] by {
            if i >= old(mesh).normals@.len() {
                let d = i - old(mesh).normals@.len();
                assert(point(mesh.normals@[old(mesh).normals@.len() + d]) == crate::mesh::cube_normals()[d
                    / 4]);
            }
        }
        assert(mesh@.normals =~= expected.normals);
        assert forall|i: int| 0 <= i < mesh@.colors.len() implies mesh@.colors[i]
            == expected.colors[i] by {
            if i >= old(mesh).colors@.len() {
                let d = i - old(mesh).colors@.len();
                assert(mesh.colors@[old(mesh).colors@.len() + d] == color);
            }
        }
        assert(mesh@.colors =~= expected.colors);
    }
}

/// Whether the voxel at `n`, if the world holds one, hides the face of a
/// neighbour that looks at it: it does if it is solid and not water. Water
/// hides nothing, and neither does a place where the world holds no voxel.
pub open spec fn occludes(world: Map<(int, int, int), Voxel>, n: (int, int, int)) -> bool {
    world.contains_key(n) && world[n].is_solid && world[n].block_type != BlockType::Water
}

/// Whether the given face of the voxel at `p` can be seen.
pub open spec fn face_visible(world: Map<(int, int, int), Voxel>, p: (int, int, int), face: Face) -> bool {
    !occludes(world, face.neighbor(p))
}

/// Which quad a mesh holds where: the four corners of the given face of the
/// voxel at `p` from vertex `k` on, with the face's normal and the colour of
/// the material for each, and its two triangles from index `j` on.
pub open spec fn has_face_at(
    m: MeshModel,
    k: int,
    j: int,
    face: Face,
    p: (int, int, int),
    block_type: BlockType,
) -> bool {
    &&& 0 <= k
    &&& k + 4 <= m.vertices.len()
    &&& k + 4 <= m.normals.len()
    &&& k + 4 <= m.colors.len()
    &&& 0 <= j
    &&& j + 6 <= m.indices.len()
    &&& m.vertices.subrange(k, k + 4) == face.corners(p)
    &&& m.indices.subrange(j, j + 6) == quad_indices(k)
    &&& forall|i: int| k <= i < k + 4 ==> m.normals[i] == face.normal()
    &&& forall|i: int| k <= i < k + 4 ==> m.colors[i] == block_type.rgba()
}

/// Whether a mesh holds the given face of the voxel at `p`.
pub open spec fn has_face(m: MeshModel, face: Face, p: (int, int, int), block_type: BlockType) -> bool {
    exists|k: int, j: int| has_face_at(m, k, j, face, p, block_type)
}

/// Whether `longer` starts with all that `shorter` holds.
pub open spec fn extends(longer: MeshModel, shorter: MeshModel) -> bool {
    &&& shorter.vertices.is_prefix_of(longer.vertices)
    &&& shorter.indices.is_prefix_of(longer.indices)
    &&& shorter.normals.is_prefix_of(longer.normals)
    &&& shorter.colors.is_prefix_of(longer.colors)
}

impl MeshModel {
    /// The mesh with the given face of the voxel at `p`, if that face can be
    /// seen. Its triangles are numbered from the number of vertices that the
    /// mesh holds so far.
    pub open spec fn with_visible_face(
        self,
        world: Map<(int, int, int), Voxel>,
        p: (int, int, int),
        face: Face,
    ) -> MeshModel {
        if face_visible(world, p, face) {
            self.with_face(face, p, world[p].block_type, self.vertices.len() as int)
        } else {
            self
        }
    }

    /// The mesh with the faces of the voxel at `p` that can be seen: top,
    /// bottom, left, right, front and back, in this order. A voxel that is
    /// not solid adds nothing.
    pub open spec fn with_voxel(self, world: Map<(int, int, int), Voxel>, p: (int, int, int)) -> MeshModel {
        if world[p].is_solid {
            self.with_visible_face(world, p, Face::Top).with_visible_face(
                world,
                p,
                Face::Bottom,
            ).with_visible_face(world, p, Face::Left).with_visible_face(
                world,
                p,
                Face::Right,
            ).with_visible_face(world, p, Face::Front).with_visible_face(world, p, Face::Back)
        } else {
            self
        }
    }
}

/// The mesh of the voxels at the coordinates of `order`, taken in this order.
pub open spec fn mesh_of(world: Map<(int, int, int), Voxel>, order: Seq<(int, int, int)>) -> MeshModel
    decreases order.len(),
{
    if order.len() == 0 {
        MeshModel::empty()
    } else {
        mesh_of(world, order.drop_last()).with_voxel(world, order.last())
    }
}

/// Whether the mesh of the world has no more vertices than a `u32` can
/// number, in whatever order its voxels are taken.
pub open spec fn mesh_fits(world: Map<(int, int, int), Voxel>) -> bool {
    forall|order: Seq<(int, int, int)>| #[trigger]
        enumerates(order, world) ==> mesh_of(world, order).vertices.len() <= u32::MAX
}

/// A face that can be seen adds four vertices, four normals, four colours
/// and six indices behind what the mesh holds; one that cannot adds nothing.
pub proof fn lemma_with_visible_face(
    m: MeshModel,
    world: Map<(int, int, int), Voxel>,
    p: (int, int, int),
    face: Face,
)
    ensures
        extends(m.with_visible_face(world, p, face), m),
        m.with_visible_face(world, p, face).vertices.len() == m.vertices.len() + (if face_visible(
            world,
            p,
            face,
        ) {
            4int
        } else {
            0int
        }),
        m.consistent() ==> m.with_visible_face(world, p, face).consistent(),
        m.consistent() && face_visible(world, p, face) ==> has_face_at(
            m.with_visible_face(world, p, face),
            m.vertices.len() as int,
            m.indices.len() as int,
            face,
            p,
            world[p].block_type,
        ),
{
    let after = m.with_visible_face(world, p, face);
    assert(face.corners(p).len() == 4);
    if face_visible(world, p, face) && m.consistent() {
        let k = m.vertices.len() as int;
        let j = m.indices.len() as int;
        assert(after.vertices.subrange(k, k + 4) =~= face.corners(p));
        assert(after.indices.subrange(j, j + 6) =~= quad_indices(k));
        assert forall|i: int| 0 <= i < after.indices.len() implies 0 <= #[trigger] after.indices[i]
            < after.vertices.len() by {
            if i >= j {
                assert(after.indices[i] == quad_indices(k)[i - j]);
            }
        }
    }
}

/// A mesh that holds a face still holds it when more is appended.
pub proof fn lemma_has_face_extends(
    longer: MeshModel,
    shorter: MeshModel,
    face: Face,
    p: (int, int, int),
    block_type: BlockType,
)
    requires
        extends(longer, shorter),
        has_face(shorter, face, p, block_type),
    ensures
        has_face(longer, face, p, block_type),
{
    let (k, j) = choose|k: int, j: int| has_face_at(shorter, k, j, face, p, block_type);
    assert forall|i: int| 0 <= i < shorter.vertices.len() implies longer.vertices[i]
        == shorter.vertices[i] by {
        assert(longer.vertices.subrange(0, shorter.vertices.len() as int)[i] == shorter.vertices[i]);
    }
    assert forall|i: int| 0 <= i < shorter.indices.len() implies longer.indices[i]
        == shorter.indices[i] by {
        assert(longer.indices.subrange(0, shorter.indices.len() as int)[i] == shorter.indices[i]);
    }
    assert forall|i: int| k <= i < k + 4 implies longer.normals[i] == face.normal() by {
        assert(longer.normals.subrange(0, shorter.normals.len() as int)[i] == shorter.normals[i]);
    }
    assert forall|i: int| k <= i < k + 4 implies longer.colors[i] == block_type.rgba() by {
        assert(longer.colors.subrange(0, shorter.colors.len() as int)[i] == shorter.colors[i]);
    }
    assert(longer.vertices.subrange(k, k + 4) =~= shorter.vertices.subrange(k, k + 4));
    assert(longer.indices.subrange(j, j + 6) =~= shorter.indices.subrange(j, j + 6));
    assert(has_face_at(longer, k, j, face, p, block_type));
}

/// What the faces of one voxel add to a mesh: four vertices for each face
/// that can be seen, behind what the mesh holds, and nothing that breaks
/// its consistency.
pub proof fn lemma_with_voxel(m: MeshModel, world: Map<(int, int, int), Voxel>, p: (int, int, int))
    ensures
        extends(m.with_voxel(world, p), m),
        m.consistent() ==> m.with_voxel(world, p).consistent(),
        m.with_voxel(world, p).vertices.len() == m.vertices.len() + 4 * visible_faces(world, p),
{
    let m1 = m.with_visible_face(world, p, Face::Top);
    let m2 = m1.with_visible_face(world, p, Face::Bottom);
    let m3 = m2.with_visible_face(world, p, Face::Left);
    let m4 = m3.with_visible_face(world, p, Face::Right);
    let m5 = m4.with_visible_face(world, p, Face::Front);
    lemma_with_visible_face(m, world, p, Face::Top);
    lemma_with_visible_face(m1, world, p, Face::Bottom);
    lemma_with_visible_face(m2, world, p, Face::Left);
    lemma_with_visible_face(m3, world, p, Face::Right);
    lemma_with_visible_face(m4, world, p, Face::Front);
    lemma_with_visible_face(m5, world, p, Face::Back);
}

/// One if the given face of the voxel at `p` can be seen, else zero.
pub open spec fn visible(world: Map<(int, int, int), Voxel>, p: (int, int, int), face: Face) -> int {
    if face_visible(world, p, face) {
        1
    } else {
        0
    }
}

/// Number of faces that the voxel at `p` adds to a mesh.
pub open spec fn visible_faces(world: Map<(int, int, int), Voxel>, p: (int, int, int)) -> int {
    if world[p].is_solid {
        visible(world, p, Face::Top) + visible(world, p, Face::Bottom) + visible(
            world,
            p,
            Face::Left,
        ) + visible(world, p, Face::Right) + visible(world, p, Face::Front) + visible(
            world,
            p,
            Face::Back,
        )
    } else {
        0
    }
}

/// Number of faces in the mesh of the voxels at the coordinates of `order`.
pub open spec fn face_count(world: Map<(int, int, int), Voxel>, order: Seq<(int, int, int)>) -> int
    decreases order.len(),
{
    if order.len() == 0 {
        0
    } else {
        face_count(world, order.drop_last()) + visible_faces(world, order.last())
    }
}

/// The mesh of any voxels in any order is consistent, and holds four
/// vertices and six indices for each face.
pub proof fn lemma_mesh_of_consistent(world: Map<(int, int, int), Voxel>, order: Seq<(int, int, int)>)
    ensures
        mesh_of(world, order).consistent(),
        mesh_of(world, order).vertices.len() == 4 * face_count(world, order),
        0 <= face_count(world, order) <= 6 * order.len(),
    decreases order.len(),
{
    if order.len() > 0 {
        lemma_mesh_of_consistent(world, order.drop_last());
        lemma_with_voxel(mesh_of(world, order.drop_last()), world, order.last());
    }
}

/// The mesh of the first voxels of an order is the beginning of the mesh of
/// them all.
pub proof fn lemma_mesh_of_prefix(world: Map<(int, int, int), Voxel>, order: Seq<(int, int, int)>, n: int)
    requires
        0 <= n <= order.len(),
    ensures
        extends(mesh_of(world, order), mesh_of(world, order.take(n))),
        mesh_of(world, order.take(n)).vertices.len() <= mesh_of(world, order).vertices.len(),
    decreases order.len() - n,
{
    if n < order.len() {
        lemma_mesh_of_prefix(world, order, n + 1);
        assert(order.take(n + 1).drop_last() =~= order.take(n));
        lemma_with_voxel(mesh_of(world, order.take(n)), world, order[n]);
    } else {
        assert(order.take(n) =~= order);
    }
}

/// A solid voxel whose six neighbours are all solid and none of them water
/// adds nothing to the mesh.
pub proof fn lemma_enclosed_voxel_adds_nothing(
    m: MeshModel,
    world: Map<(int, int, int), Voxel>,
    p: (int, int, int),
)
    requires
        forall|face: Face| occludes(world, #[trigger] face.neighbor(p)),
    ensures
        m.with_voxel(world, p) == m,
        visible_faces(world, p) == 0,
{
    assert(occludes(world, Face::Top.neighbor(p)));
    assert(occludes(world, Face::Bottom.neighbor(p)));
    assert(occludes(world, Face::Left.neighbor(p)));
    assert(occludes(world, Face::Right.neighbor(p)));
    assert(occludes(world, Face::Front.neighbor(p)));
    assert(occludes(world, Face::Back.neighbor(p)));
}

/// A voxel that is not solid adds nothing to the mesh, whatever its material.
pub proof fn lemma_empty_voxel_adds_nothing(
    m: MeshModel,
    world: Map<(int, int, int), Voxel>,
    p: (int, int, int),
)
    requires
        !world[p].is_solid,
    ensures
        m.with_voxel(world, p) == m,
        visible_faces(world, p) == 0,
{
}

/// Every face of a solid voxel that can be seen is held by the mesh once the
/// voxel has been added.
pub proof fn lemma_visible_face_added(
    m: MeshModel,
    world: Map<(int, int, int), Voxel>,
    p: (int, int, int),
    face: Face,
)
    requires
        m.consistent(),
        world[p].is_solid,
        face_visible(world, p, face),
    ensures
        has_face(m.with_voxel(world, p), face, p, world[p].block_type),
{
    let bt = world[p].block_type;
    let m1 = m.with_visible_face(world, p, Face::Top);
    let m2 = m1.with_visible_face(world, p, Face::Bottom);
    let m3 = m2.with_visible_face(world, p, Face::Left);
    let m4 = m3.with_visible_face(world, p, Face::Right);
    let m5 = m4.with_visible_face(world, p, Face::Front);
    let m6 = m5.with_visible_face(world, p, Face::Back);
    lemma_with_visible_face(m, world, p, Face::Top);
    lemma_with_visible_face(m1, world, p, Face::Bottom);
    lemma_with_visible_face(m2, world, p, Face::Left);
    lemma_with_visible_face(m3, world, p, Face::Right);
    lemma_with_visible_face(m4, world, p, Face::Front);
    lemma_with_visible_face(m5, world, p, Face::Back);
    match face {
        Face::Top => {
            assert(has_face(m1, face, p, bt));
            lemma_has_face_extends(m2, m1, face, p, bt);
            lemma_has_face_extends(m3, m2, face, p, bt);
            lemma_has_face_extends(m4, m3, face, p, bt);
            lemma_has_face_extends(m5, m4, face, p, bt);
            lemma_has_face_extends(m6, m5, face, p, bt);
        },
        Face::Bottom => {
            assert(has_face(m2, face, p, bt));
            lemma_has_face_extends(m3, m2, face, p, bt);
            lemma_has_face_extends(m4, m3, face, p, bt);
            lemma_has_face_extends(m5, m4, face, p, bt);
            lemma_has_face_extends(m6, m5, face, p, bt);
        },
        Face::Left => {
            assert(has_face(m3, face, p, bt));
            lemma_has_face_extends(m4, m3, face, p, bt);
            lemma_has_face_extends(m5, m4, face, p, bt);
            lemma_has_face_extends(m6, m5, face, p, bt);
        },
        Face::Right => {
            assert(has_face(m4, face, p, bt));
            lemma_has_face_extends(m5, m4, face, p, bt);
            lemma_has_face_extends(m6, m5, face, p, bt);
        },
        Face::Front => {
            assert(has_face(m5, face, p, bt));
            lemma_has_face_extends(m6, m5, face, p, bt);
        },
        Face::Back => {
            assert(has_face(m6, face, p, bt));
        },
    }
}

/// The mesh of a world holds every face of a solid voxel that can be seen,
/// wherever the voxel stands in the order.
pub proof fn lemma_mesh_has_visible_face(
    world: Map<(int, int, int), Voxel>,
    order: Seq<(int, int, int)>,
    i: int,
    face: Face,
)
    requires
        0 <= i < order.len(),
        world[order[i]].is_solid,
        face_visible(world, order[i], face),
    ensures
        has_face(mesh_of(world, order), face, order[i], world[order[i]].block_type),
{
    let before = mesh_of(world, order.take(i));
    let with = mesh_of(world, order.take(i + 1));
    assert(order.take(i + 1).drop_last() =~= order.take(i));
    lemma_mesh_of_consistent(world, order.take(i));
    lemma_visible_face_added(before, world, order[i], face);
    lemma_mesh_of_prefix(world, order, i + 1);
    lemma_has_face_extends(mesh_of(world, order), with, face, order[i], world[order[i]].block_type);
}

/// The mesh of a world holds every face of a solid voxel behind which the
/// world holds no voxel, wherever the voxel stands in the order.
pub proof fn lemma_boundary_face_emitted(
    world: Map<(int, int, int), Voxel>,
    order: Seq<(int, int, int)>,
    i: int,
    face: Face,
)
    requires
        0 <= i < order.len(),
        world[order[i]].is_solid,
        !world.contains_key(face.neighbor(order[i])),
    ensures
        has_face(mesh_of(world, order), face, order[i], world[order[i]].block_type),
{
    lemma_mesh_has_visible_face(world, order, i, face);
}

/// The mesh of a world holds every face of a solid voxel that borders on
/// water, solid though water is, wherever the voxel stands in the order.
pub proof fn lemma_water_face_emitted(
    world: Map<(int, int, int), Voxel>,
    order: Seq<(int, int, int)>,
    i: int,
    face: Face,
)
    requires
        0 <= i < order.len(),
        world[order[i]].is_solid,
        world.contains_key(face.neighbor(order[i])),
        world[face.neighbor(order[i])].block_type == BlockType::Water,
    ensures
        has_face(mesh_of(world, order), face, order[i], world[order[i]].block_type),
{
    lemma_mesh_has_visible_face(world, order, i, face);
}

/// A world of so few voxels that six faces for each have no more vertices
/// than a `u32` can number has a mesh that fits.
pub proof fn lemma_mesh_fits_by_count(world: Map<(int, int, int), Voxel>)
    requires
        world.dom().finite(),
        24 * world.dom().len() <= u32::MAX,
    ensures
        mesh_fits(world),
{
    assert forall|order: Seq<(int, int, int)>| #[trigger] enumerates(order, world) implies mesh_of(
        world,
        order,
    ).vertices.len() <= u32::MAX by {
        order.unique_seq_to_set();
        lemma_mesh_of_consistent(world, order);
    }
}

/// Whether the voxel at `(x, y, z)`, if the lookup holds one, hides the face
/// of a neighbour that looks at it.
fn is_occluder(world: &WorldMap, x: i32, y: i32, z: i32) -> (b: bool)
    ensures
        b == occludes(world@, (x as int, y as int, z as int)),
{
    match world.get_voxel(x, y, z) {
        Some(v) => v.is_solid && !(v.block_type == BlockType::Water),
        None => false,
    }
}

/// Appends to the mesh the faces of `voxel`, which stands at `voxel_pos` in
/// `world`, that can be seen, and returns the number of vertices that the
/// mesh then holds.
pub fn add_voxel_faces(
    mesh: &mut MeshData,
    world: &WorldMap,
    voxel_pos: IVec3,
    voxel: &Voxel,
    index_offset: u32,
) -> (next_offset: u32)
    requires
        storable(voxel_pos@),
        world@.contains_key(voxel_pos@),
        world@[voxel_pos@] == *voxel,
        index_offset == old(mesh)@.vertices.len(),
        old(mesh)@.with_voxel(world@, voxel_pos@).vertices.len() <= u32::MAX,
    ensures
        final(mesh)@ == old(mesh)@.with_voxel(world@, voxel_pos@),
        next_offset == final(mesh)@.vertices.len(),
{
    if !voxel.is_solid {
        return index_offset;
    }
    let x = voxel_pos.x;
    let y = voxel_pos.y;
    let z = voxel_pos.z;
    let ghost p = voxel_pos@;
    let ghost m0 = mesh@;
    let ghost m1 = m0.with_visible_face(world@, p, Face::Top);
    let ghost m2 = m1.with_visible_face(world@, p, Face::Bottom);
    let ghost m3 = m2.with_visible_face(world@, p, Face::Left);
    let ghost m4 = m3.with_visible_face(world@, p, Face::Right);
    let ghost m5 = m4.with_visible_face(world@, p, Face::Front);
    let ghost m6 = m5.with_visible_face(world@, p, Face::Back);
    proof {
        lemma_with_visible_face(m0, world@, p, Face::Top);
        lemma_with_visible_face(m1, world@, p, Face::Bottom);
        lemma_with_visible_face(m2, world@, p, Face::Left);
        lemma_with_visible_face(m3, world@, p, Face::Right);
        lemma_with_visible_face(m4, world@, p, Face::Front);
        lemma_with_visible_face(m5, world@, p, Face::Back);
    }
    let mut offset: u32 = index_offset;
    if !is_occluder(world, x, y + 1, z) {
        add_top(mesh, voxel_pos, &voxel.block_type, offset);
        offset = offset + 4;
    }
    assert(mesh@ == m1 && offset == m1.vertices.len());
    if !is_occluder(world, x, y - 1, z) {
        add_bottom(mesh, voxel_pos, &voxel.block_type, offset);
        offset = offset + 4;
    }
    assert(mesh@ == m2 && offset == m2.vertices.len());
    if !is_occluder(world, x - 1, y, z) {
        add_left(mesh, voxel_pos, &voxel.block_type, offset);
        offset = offset + 4;
    }
    assert(mesh@ == m3 && offset == m3.vertices.len());
    if !is_occluder(world, x + 1, y, z) {
        add_right(mesh, voxel_pos, &voxel.block_type, offset);
        offset = offset + 4;
    }
    assert(mesh@ == m4 && offset == m4.vertices.len());
    if !is_occluder(world, x, y, z + 1) {
        add_front(mesh, voxel_pos, &voxel.block_type, offset);
        offset = offset + 4;
    }
    assert(mesh@ == m5 && offset == m5.vertices.len());
    if !is_occluder(world, x, y, z - 1) {
        add_back(mesh, voxel_pos, &voxel.block_type, offset);
        offset = offset + 4;
    }
    assert(mesh@ == m6 && offset == m6.vertices.len());
    offset
}

/// The mesh of the voxels of `world`: for each solid voxel the faces that
/// can be seen, the voxels in the order in which the lookup hands them out.
pub fn mesh_world_map(world: &WorldMap) -> (mesh: MeshData)
    requires
        world.wf(),
        mesh_fits(world@),
    ensures
        exists|order: Seq<(int, int, int)>| #[trigger]
            enumerates(order, world@) && mesh@ == mesh_of(world@, order),
        mesh@.consistent(),
{
    let mut mesh = MeshData::new();
    let mut index_offset: u32 = 0;
    let ghost full = spec_hash_map_iter(&world.map).remaining().unref();
    let ghost order = positions(full);
    proof {
        assert(order.take(0) =~= Seq::<(int, int, int)>::empty());
    }
    for entry in it: world.map.iter()
        invariant
            world.wf(),
            mesh_fits(world@),
            it.seq().unref() == full,
            full.to_set() == world.map@.kv_pairs(),
            it.seq().no_duplicates(),
            order == positions(full),
            mesh@ == mesh_of(world@, order.take(it.index())),
            index_offset == mesh@.vertices.len(),
    {
        let (key, voxel) = entry;
        let ghost index = it.index();
        proof {
            lemma_unref_no_duplicates(it.seq());
            lemma_positions_enumerate(world.map@, full);
            assert(enumerates(order, world@));
            assert(full[index] == (*key, *voxel));
            assert(world@.contains_key(order[index]));
            assert(world.map@.contains_key(*key));
            lemma_mesh_of_prefix(world@, order, index + 1);
            assert(order.take(index + 1).drop_last() =~= order.take(index));
        }
        let (x, y, z) = unpack_key(*key);
        let voxel_pos = IVec3::new(x, y, z);
        index_offset = add_voxel_faces(&mut mesh, world, voxel_pos, voxel, index_offset);
    }
    proof {
        assert(order.take(order.len() as int) =~= order);
        lemma_unref_no_duplicates(spec_hash_map_iter(&world.map).remaining());
        lemma_positions_enumerate(world.map@, full);
        lemma_mesh_of_consistent(world@, order);
        assert(enumerates(order, world@) && mesh@ == mesh_of(world@, order));
    }
    mesh
}

/// The mesh of all the voxels of the chunks of `chunk_map`.
pub fn generate_mesh(chunk_map: &ChunkMap) -> (mesh: MeshData)
    requires
        chunk_map.wf(),
        mesh_fits(chunk_map.world_view()),
    ensures
        exists|order: Seq<(int, int, int)>| #[trigger]
            enumerates(order, chunk_map.world_view()) && mesh@ == mesh_of(
                chunk_map.world_view(),
                order,
            ),
        mesh@.consistent(),
{
    let mut world_map = WorldMap::new();
    world_map.collect_voxels(chunk_map);
    proof {
        assert(world_map@ =~= chunk_map.world_view());
    }
    mesh_world_map(&world_map)
}

/// The mesh of all the voxels of the chunks of `chunk_map`, or `None` where
/// the world holds so many voxels that six faces for each would have more
/// vertices than a `u32` can number.
pub fn try_generate_mesh(chunk_map: &ChunkMap) -> (r: Option<MeshData>)
    requires
        chunk_map.wf(),
    ensures
        chunk_map.world_view().dom().finite(),
        r is Some <==> 24 * chunk_map.world_view().dom().len() <= u32::MAX,
        r matches Some(mesh) ==> mesh@.consistent() && exists|order: Seq<(int, int, int)>| #[trigger]
            enumerates(order, chunk_map.world_view()) && mesh@ == mesh_of(
                chunk_map.world_view(),
                order,
            ),
{
    let mut world_map = WorldMap::new();
    world_map.collect_voxels(chunk_map);
    proof {
        assert(world_map@ =~= chunk_map.world_view());
    }
    if world_map.len() > (u32::MAX / 24) as usize {
        return None;
    }
    proof {
        lemma_mesh_fits_by_count(world_map@);
    }
    Some(mesh_world_map(&world_map))
}

} // verus!
