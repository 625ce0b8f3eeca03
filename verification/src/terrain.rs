//! Surface heights of the world's columns, and the voxels that follow from them.

use vstd::prelude::*;
use crate::block::{is_rendered, material_at, Voxel};
use crate::grid::{axis_fits, WorldConfig};

verus! {

/// The surface height of every column of a rectangle of the world.
///
/// The rectangle holds the columns `(wx, wz)` with `x0 <= wx < x0 + width` and
/// `z0 <= wz < z0 + depth`. The heights are stored row by row, a row being the
/// columns of one `wx`.
#[derive(Debug)]
pub struct HeightField {
    pub(crate) x0: i32,
    pub(crate) z0: i32,
    pub(crate) width: i32,
    pub(crate) depth: i32,
    pub(crate) heights: Vec<i32>,
}

impl HeightField {
    /// Whether `heights` holds one height for each column of a rectangle of
    /// `width` by `depth` columns.
    pub open spec fn fills(width: int, depth: int, heights: Seq<i32>) -> bool {
        &&& 0 <= width
        &&& 0 <= depth
        &&& heights.len() == width * depth
    }

    /// The invariant of a height field.
    pub open(crate) spec fn wf(&self) -> bool {
        Self::fills(self.width as int, self.depth as int, self.heights@)
    }

    /// Whether the field holds the column `(wx, wz)`.
    pub open(crate) spec fn covers(&self, wx: int, wz: int) -> bool {
        &&& self.x0 <= wx < self.x0 + self.width
        &&& self.z0 <= wz < self.z0 + self.depth
    }

    /// The surface height of the column `(wx, wz)`.
    pub open(crate) spec fn height_at(&self, wx: int, wz: int) -> int {
        self.heights@[(wx - self.x0) * self.depth + (wz - self.z0)] as int
    }

    /// Whether the field holds every column of the chunk at `chunk`.
    pub open spec fn covers_chunk(&self, config: WorldConfig, chunk: (int, int, int)) -> bool {
        forall|x: int, z: int|
            0 <= x < config.size() && 0 <= z < config.size() ==> #[trigger] self.covers(
                chunk.0 * config.size() + x,
                chunk.2 * config.size() + z,
            )
    }

    /// The field of the rectangle that starts at `(x0, z0)`, with the given
    /// heights, or `None` where their number is not that of its columns.
    pub fn from_heights(x0: i32, z0: i32, width: i32, depth: i32, heights: Vec<i32>) -> (r:
        Option<HeightField>)
        ensures
            r is Some <==> Self::fills(width as int, depth as int, heights@),
            r matches Some(f) ==> {
                &&& f.wf()
                &&& forall|wx: int, wz: int|
                    f.covers(wx, wz) <==> x0 <= wx < x0 + width && z0 <= wz < z0 + depth
                &&& forall|wx: int, wz: int|
                    f.covers(wx, wz) ==> f.height_at(wx, wz) == heights@[(wx - x0) * depth + (wz
                        - z0)]
            },
    {
        if width < 0 || depth < 0 {
            return None;
        }
        assert(0 <= width * depth <= 0x7fff_ffff * 0x7fff_ffff) by (nonlinear_arith)
            requires
                0 <= width <= 0x7fff_ffff,
                0 <= depth <= 0x7fff_ffff,
        ;
        let count: u64 = (width as u64) * (depth as u64);
        if heights.len() as u64 != count {
            return None;
        }
        Some(HeightField { x0, z0, width, depth, heights })
    }

    /// The surface height of the column `(wx, wz)`, or `None` where the field
    /// does not hold it.
    pub fn height(&self, wx: i32, wz: i32) -> (r: Option<i32>)
        requires
            self.wf(),
        ensures
            self.covers(wx as int, wz as int) ==> r == Some(self.height_at(wx as int, wz as int) as i32),
            !self.covers(wx as int, wz as int) ==> r is None,
    {
        let dx: i64 = wx as i64 - self.x0 as i64;
        let dz: i64 = wz as i64 - self.z0 as i64;
        if dx < 0 || dx >= self.width as i64 || dz < 0 || dz >= self.depth as i64 {
            return None;
        }
        let depth: i64 = self.depth as i64;
        let width: i64 = self.width as i64;
        assert(0 <= dx * depth <= dx * depth + dz < width * depth) by (nonlinear_arith)
            requires
                0 <= dx < width,
                0 <= dz < depth,
        ;
        assert(width * depth <= 0x7fff_ffff * 0x7fff_ffff) by (nonlinear_arith)
            requires
                0 <= width <= 0x7fff_ffff,
                0 <= depth <= 0x7fff_ffff,
        ;
        assert(width * depth == self.heights@.len());
        let len: usize = self.heights.len();
        assert(dx * depth + dz < len);
        let index: usize = (dx * depth + dz) as usize;
        Some(self.heights[index])
    }
}

/// The voxel with the given id of the chunk at `chunk`, in a world whose
/// columns have the heights of `field`: its material is decided by its world
/// height and the height of its column.
pub open spec fn generated_voxel(
    config: WorldConfig,
    chunk: (int, int, int),
    field: HeightField,
    id: int,
) -> Voxel {
    let p = config.coords_of(id);
    let w = config.world_coord(chunk, p.0, p.1, p.2);
    Voxel::of(id, material_at(w.1, field.height_at(w.0, w.2), config.sea()))
}

/// The voxels of the chunk at `chunk`, in a world whose columns have the
/// heights of `field`.
pub open spec fn generated_chunk(config: WorldConfig, chunk: (int, int, int), field: HeightField) -> Seq<
    Voxel,
> {
    Seq::new(config.volume() as nat, |id: int| generated_voxel(config, chunk, field, id))
}

/// The heights of the columns of the chunk at `chunk`, the column at local
/// `(x, z)` at index `x * chunk_size + z`.
pub open spec fn chunk_heights(config: WorldConfig, chunk: (int, int, int), field: HeightField) -> Seq<
    i32,
> {
    Seq::new(
        (config.size() * config.size()) as nat,
        |i: int|
            field.height_at(
                chunk.0 * config.size() + i / config.size(),
                chunk.2 * config.size() + i % config.size(),
            ) as i32,
    )
}

/// The voxel with the given id of a chunk at height `chunk_y`, whose columns
/// have the heights of `heightmap`, the column at local `(x, z)` at index
/// `x * chunk_size + z`.
pub open spec fn column_voxel(config: WorldConfig, chunk_y: int, heightmap: Seq<i32>, id: int) -> Voxel {
    let p = config.coords_of(id);
    Voxel::of(
        id,
        material_at(
            chunk_y * config.height() + p.1,
            heightmap[p.0 * config.size() + p.2] as int,
            config.sea(),
        ),
    )
}

/// The voxels of a chunk at height `chunk_y` whose columns have the heights of
/// `heightmap`.
pub open spec fn column_voxels(config: WorldConfig, chunk_y: int, heightmap: Seq<i32>) -> Seq<Voxel> {
    Seq::new(config.volume() as nat, |id: int| column_voxel(config, chunk_y, heightmap, id))
}

/// The voxels that follow from the heights of a chunk's columns are those that
/// follow from the field the heights were taken from.
pub proof fn lemma_column_voxels_of_field(
    config: WorldConfig,
    chunk: (int, int, int),
    field: HeightField,
)
    requires
        config.wf(),
    ensures
        column_voxels(config, chunk.1, chunk_heights(config, chunk, field)) == generated_chunk(
            config,
            chunk,
            field,
        ),
{
    let a = column_voxels(config, chunk.1, chunk_heights(config, chunk, field));
    let b = generated_chunk(config, chunk, field);
    assert forall|id: int| 0 <= id < config.volume() implies a[id] == b[id] by {
        config.lemma_encode_decode(id);
        let p = config.coords_of(id);
        let s = config.size();
        let i = p.0 * s + p.2;
        vstd::arithmetic::div_mod::lemma_fundamental_div_mod_converse(i, s, p.0, p.2);
        assert(0 <= i < s * s) by (nonlinear_arith)
            requires
                0 <= p.0 < s,
                0 <= p.2 < s,
                i == p.0 * s + p.2,
        ;
    }
    assert(a =~= b);
}

/// Number of solid voxels among `voxels`.
pub open spec fn solid_count(voxels: Seq<Voxel>) -> nat {
    voxels.filter(is_rendered()).len()
}

/// Number of solid voxels in the lowest `ny` generated chunks of the stack of
/// chunks at `(x, z)`.
pub open spec fn solid_in_stack(config: WorldConfig, field: HeightField, x: int, z: int, ny: int) -> nat
    decreases ny,
{
    if ny <= 0 {
        0
    } else {
        solid_in_stack(config, field, x, z, ny - 1) + solid_count(
            generated_chunk(config, (x, ny - 1, z), field),
        )
    }
}

/// Number of solid voxels in the first `nx` stacks, each `ny` chunks high, of
/// the slice of generated chunks at `z`.
pub open spec fn solid_in_slice(config: WorldConfig, field: HeightField, z: int, nx: int, ny: int) -> nat
    decreases nx,
{
    if nx <= 0 {
        0
    } else {
        solid_in_slice(config, field, z, nx - 1, ny) + solid_in_stack(config, field, nx - 1, z, ny)
    }
}

/// Number of solid voxels in the first `nz` slices of generated chunks, each
/// `nx` stacks wide and `ny` chunks high.
pub open spec fn solid_in_slices(config: WorldConfig, field: HeightField, nz: int, nx: int, ny: int) -> nat
    decreases nz,
{
    if nz <= 0 {
        0
    } else {
        solid_in_slices(config, field, nz - 1, nx, ny) + solid_in_slice(
            config,
            field,
            nz - 1,
            nx,
            ny,
        )
    }
}

/// Number of solid voxels in the generated chunks of a world of `size`
/// chunks: the sum, over its chunks, of the number of each.
pub open spec fn solid_in_world(config: WorldConfig, field: HeightField, size: (int, int, int)) -> nat {
    solid_in_slices(config, field, size.2, size.0, size.1)
}

/// A world without chunks has no solid voxels.
pub proof fn lemma_solid_in_empty_world(config: WorldConfig, field: HeightField, size: (int, int, int))
    requires
        size.0 <= 0 || size.1 <= 0 || size.2 <= 0,
    ensures
        solid_in_world(config, field, size) == 0,
{
    lemma_solid_in_empty_slices(config, field, size.2, size.0, size.1);
}

proof fn lemma_solid_in_empty_slice(config: WorldConfig, field: HeightField, z: int, nx: int, ny: int)
    requires
        ny <= 0,
    ensures
        solid_in_slice(config, field, z, nx, ny) == 0,
    decreases nx,
{
    if nx > 0 {
        lemma_solid_in_empty_slice(config, field, z, nx - 1, ny);
    }
}

proof fn lemma_solid_in_empty_slices(config: WorldConfig, field: HeightField, nz: int, nx: int, ny: int)
    requires
        nx <= 0 || ny <= 0 || nz <= 0,
    ensures
        solid_in_slices(config, field, nz, nx, ny) == 0,
    decreases nz,
{
    if nz > 0 {
        lemma_solid_in_empty_slices(config, field, nz - 1, nx, ny);
        if ny <= 0 {
            lemma_solid_in_empty_slice(config, field, nz - 1, nx, ny);
        }
    }
}

/// The voxel that generation puts at the world coordinate `w`: the voxel
/// under the coordinate's local id in the chunk that the coordinate falls to.
pub open spec fn generated_at(config: WorldConfig, field: HeightField, w: (int, int, int)) -> Voxel {
    generated_chunk(config, config.chunk_of(w), field)[config.local_id_of(w)]
}

/// The material of a generated voxel follows from its world coordinate, the
/// height of its column and the sea level alone.
pub proof fn lemma_generated_material(config: WorldConfig, field: HeightField, w: (int, int, int))
    requires
        config.wf(),
    ensures
        generated_at(config, field, w) == Voxel::of(
            config.local_id_of(w),
            material_at(w.1, field.height_at(w.0, w.2), config.sea()),
        ),
{
    config.lemma_world_coord_join(w);
    let x = w.0 % config.size();
    let y = w.1 % config.height();
    let z = w.2 % config.size();
    config.lemma_id_bounds(x, y, z);
    config.lemma_decode_encode(x, y, z);
}

/// However a world is cut into chunks, generation puts the same material at
/// a world coordinate: two configurations with the same sea level agree on
/// it, whatever the dimensions of their chunks.
pub proof fn lemma_material_independent_of_partition(
    a: WorldConfig,
    b: WorldConfig,
    field: HeightField,
    w: (int, int, int),
)
    requires
        a.wf(),
        b.wf(),
        a.sea() == b.sea(),
    ensures
        generated_at(a, field, w).block_type == generated_at(b, field, w).block_type,
        generated_at(a, field, w).is_solid == generated_at(b, field, w).is_solid,
{
    lemma_generated_material(a, field, w);
    lemma_generated_material(b, field, w);
}

/// However a world is cut into chunks, the heightmap of the chunk that a
/// column falls to holds for it the height that the field holds.
pub proof fn lemma_height_independent_of_partition(
    config: WorldConfig,
    field: HeightField,
    w: (int, int, int),
)
    requires
        config.wf(),
    ensures
        chunk_heights(config, config.chunk_of(w), field)[(w.0 % config.size()) * config.size() + w.2
            % config.size()] == field.height_at(w.0, w.2),
{
    config.lemma_world_coord_join(w);
    let s = config.size();
    let x = w.0 % s;
    let z = w.2 % s;
    let i = x * s + z;
    vstd::arithmetic::div_mod::lemma_fundamental_div_mod_converse(i, s, x, z);
    assert(0 <= i < s * s) by (nonlinear_arith)
        requires
            0 <= x < s,
            0 <= z < s,
            i == x * s + z,
    ;
}

/// Whether the whole chunk at `chunk` lies inside the range of `i32` world
/// heights.
pub open spec fn chunk_height_fits(config: WorldConfig, chunk_y: int) -> bool {
    axis_fits(chunk_y, config.height())
}

} // verus!
