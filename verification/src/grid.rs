//! Integer coordinates of the voxel world: chunk dimensions, the linear id of a
//! voxel inside its chunk, and the way from chunk-local to world
//! coordinates.

use vstd::prelude::*;
use vstd::arithmetic::div_mod::lemma_fundamental_div_mod;
use vstd::arithmetic::div_mod::lemma_fundamental_div_mod_converse;

verus! {

/// Width and depth of a chunk, in voxels, unless configured otherwise.
pub const CHUNK_SIZE: i32 = 32;

/// Height of a chunk, in voxels, unless configured otherwise.
pub const CHUNK_HEIGHT: i32 = 64;

/// World height up to which empty space is filled with water, unless configured otherwise.
pub const SEA_LEVEL: i32 = 30;

/// World height from which the surface is covered by snow.
pub const SNOW_LINE: i32 = 40;

/// Thickness of the dirt layer below the surface.
pub const DIRT_DEPTH: i32 = 10;

/// Whether the `dim` cells of the `pos`-th run of cells along one axis all lie
/// strictly between `i32::MIN` and `i32::MAX`.
pub open spec fn axis_fits(pos: int, dim: int) -> bool {
    i32::MIN < pos * dim && pos * dim + dim <= i32::MAX
}

/// A triple of integers: a chunk coordinate, a world coordinate or an extent in chunks.
#[derive(Clone, Copy, Debug, PartialEq, Eq, Structural)]
pub struct IVec3 {
    pub x: i32,
    pub y: i32,
    pub z: i32,
}

impl View for IVec3 {
    type V = (int, int, int);

    open spec fn view(&self) -> (int, int, int) {
        (self.x as int, self.y as int, self.z as int)
    }
}

impl IVec3 {
    /// The triple `(x, y, z)`.
    pub fn new(x: i32, y: i32, z: i32) -> (v: Self)
        ensures
            v == (IVec3 { x, y, z }),
    {
        IVec3 { x, y, z }
    }
}

/// The numbers that shape a world: the dimensions of its chunks and its sea level.
///
/// A chunk is `chunk_size` voxels wide and deep and `chunk_height` voxels high.
/// Both are positive, and the number of voxels of a chunk fits in an `i32`, the
/// type of a voxel's id.
#[derive(Clone, Copy, Debug)]
pub struct WorldConfig {
    chunk_size: i32,
    chunk_height: i32,
    sea_level: i32,
}

impl WorldConfig {
    /// Whether these dimensions describe a chunk whose voxel ids fit in an `i32`.
    pub open spec fn valid_dims(chunk_size: int, chunk_height: int) -> bool {
        &&& 0 < chunk_size
        &&& 0 < chunk_height
        &&& chunk_size * chunk_height * chunk_size <= i32::MAX
    }

    /// Width and depth of a chunk, in voxels.
    pub closed spec fn size(&self) -> int {
        self.chunk_size as int
    }

    /// Height of a chunk, in voxels.
    pub closed spec fn height(&self) -> int {
        self.chunk_height as int
    }

    /// World height up to which empty space is filled with water.
    pub closed spec fn sea(&self) -> int {
        self.sea_level as int
    }

    /// The invariant of a configuration.
    pub open spec fn wf(&self) -> bool {
        Self::valid_dims(self.size(), self.height())
    }

    /// Number of voxels in a chunk.
    pub open spec fn volume(&self) -> int {
        self.size() * self.height() * self.size()
    }

    /// Whether `(x, y, z)` is a local coordinate of a chunk.
    pub open spec fn in_bounds(&self, x: int, y: int, z: int) -> bool {
        &&& 0 <= x < self.size()
        &&& 0 <= y < self.height()
        &&& 0 <= z < self.size()
    }

    /// The linear id of the voxel at local `(x, y, z)`.
    pub open spec fn id_of(&self, x: int, y: int, z: int) -> int {
        x * (self.height() * self.size()) + y * self.size() + z
    }

    /// The local coordinate that a voxel id stands for.
    pub open spec fn coords_of(&self, id: int) -> (int, int, int) {
        (id / (self.height() * self.size()), (id / self.size()) % self.height(), id % self.size())
    }

    /// Whether every voxel of the chunk at `chunk` has a world coordinate strictly
    /// between `i32::MIN` and `i32::MAX`, so that its six neighbours and the far
    /// corners of its cube are `i32` coordinates too.
    pub open spec fn chunk_in_range(&self, chunk: (int, int, int)) -> bool {
        &&& axis_fits(chunk.0, self.size())
        &&& axis_fits(chunk.1, self.height())
        &&& axis_fits(chunk.2, self.size())
    }

    /// World coordinate of the voxel at local `(x, y, z)` of the chunk at `chunk`.
    pub open spec fn world_coord(&self, chunk: (int, int, int), x: int, y: int, z: int) -> (
        int,
        int,
        int,
    ) {
        (chunk.0 * self.size() + x, chunk.1 * self.height() + y, chunk.2 * self.size() + z)
    }

    /// Coordinate of the chunk that holds the world coordinate `w`.
    pub open spec fn chunk_of(&self, w: (int, int, int)) -> (int, int, int) {
        (w.0 / self.size(), w.1 / self.height(), w.2 / self.size())
    }

    /// Id, inside its chunk, of the voxel at the world coordinate `w`.
    pub open spec fn local_id_of(&self, w: (int, int, int)) -> int {
        self.id_of(w.0 % self.size(), w.1 % self.height(), w.2 % self.size())
    }

    /// A configuration with the given dimensions, or `None` where they are not
    /// positive or a chunk would hold more voxels than an `i32` can count.
    pub fn new(chunk_size: i32, chunk_height: i32, sea_level: i32) -> (r: Option<Self>)
        ensures
            r is Some <==> Self::valid_dims(chunk_size as int, chunk_height as int),
            r matches Some(c) ==> c.wf() && c.size() == chunk_size && c.height() == chunk_height
                && c.sea() == sea_level,
    {
        if chunk_size <= 0 || chunk_height <= 0 {
            return None;
        }
        let limit: i64 = i32::MAX as i64;
        let s: i64 = chunk_size as i64;
        let h: i64 = chunk_height as i64;
        assert(0 < s * h <= 0x7fff_ffff * 0x7fff_ffff) by (nonlinear_arith)
            requires
                0 < s <= 0x7fff_ffff,
                0 < h <= 0x7fff_ffff,
        ;
        let area: i64 = s * h;
        if area > limit {
            assert(s * h * s >= s * h) by (nonlinear_arith)
                requires
                    0 < s,
                    0 < s * h,
            ;
            return None;
        }
        assert(0 < area * s <= 0x7fff_ffff * 0x7fff_ffff) by (nonlinear_arith)
            requires
                0 < s <= 0x7fff_ffff,
                0 < area <= 0x7fff_ffff,
        ;
        if area * s > limit {
            return None;
        }
        Some(WorldConfig { chunk_size, chunk_height, sea_level })
    }

    /// The configuration of `CHUNK_SIZE`, `CHUNK_HEIGHT` and `SEA_LEVEL`.
    pub closed spec fn standard_config() -> WorldConfig {
        WorldConfig { chunk_size: CHUNK_SIZE, chunk_height: CHUNK_HEIGHT, sea_level: SEA_LEVEL }
    }

    /// The configuration of `CHUNK_SIZE`, `CHUNK_HEIGHT` and `SEA_LEVEL`.
    pub fn standard() -> (c: Self)
        ensures
            c == Self::standard_config(),
            c.wf(),
            c.size() == CHUNK_SIZE,
            c.height() == CHUNK_HEIGHT,
            c.sea() == SEA_LEVEL,
    {
        assert(32 * 64 * 32 == 65536) by (nonlinear_arith);
        WorldConfig { chunk_size: CHUNK_SIZE, chunk_height: CHUNK_HEIGHT, sea_level: SEA_LEVEL }
    }

    /// Width and depth of a chunk, in voxels.
    pub fn chunk_size(&self) -> (s: i32)
        ensures
            s == self.size(),
    {
        self.chunk_size
    }

    /// Height of a chunk, in voxels.
    pub fn chunk_height(&self) -> (h: i32)
        ensures
            h == self.height(),
    {
        self.chunk_height
    }

    /// World height up to which empty space is filled with water.
    pub fn sea_level(&self) -> (l: i32)
        ensures
            l == self.sea(),
    {
        self.sea_level
    }

    /// Number of voxels in a chunk.
    pub fn chunk_volume(&self) -> (n: i32)
        requires
            self.wf(),
        ensures
            n == self.volume(),
            n > 0,
    {
        proof {
            self.lemma_area_bounds();
        }
        self.chunk_size * self.chunk_height * self.chunk_size
    }

    /// Whether `(x, y, z)` is a local coordinate of a chunk.
    pub fn contains_local(&self, x: i32, y: i32, z: i32) -> (b: bool)
        ensures
            b == self.in_bounds(x as int, y as int, z as int),
    {
        0 <= x && x < self.chunk_size && 0 <= y && y < self.chunk_height && 0 <= z && z
            < self.chunk_size
    }

    /// The linear id of the voxel at local `(x, y, z)`.
    pub fn encode(&self, x: i32, y: i32, z: i32) -> (id: i32)
        requires
            self.wf(),
            self.in_bounds(x as int, y as int, z as int),
        ensures
            id == self.id_of(x as int, y as int, z as int),
            0 <= id < self.volume(),
    {
        proof {
            self.lemma_id_bounds(x as int, y as int, z as int);
            self.lemma_area_bounds();
            let s = self.size();
            let h = self.height();
            assert(0 <= x * (h * s) <= self.id_of(x as int, y as int, z as int)) by (nonlinear_arith)
                requires
                    0 <= x,
                    0 <= y,
                    0 <= z,
                    0 < s,
                    0 < h,
                    self.id_of(x as int, y as int, z as int) == x * (h * s) + y * s + z,
            ;
            assert(0 <= y * s <= self.id_of(x as int, y as int, z as int)) by (nonlinear_arith)
                requires
                    0 <= x,
                    0 <= y,
                    0 <= z,
                    0 < s,
                    0 < h,
                    self.id_of(x as int, y as int, z as int) == x * (h * s) + y * s + z,
            ;
        }
        let area: i32 = self.chunk_height * self.chunk_size;
        x * area + y * self.chunk_size + z
    }

    /// The local coordinate that a voxel id stands for.
    pub fn decode(&self, id: i32) -> (p: (i32, i32, i32))
        requires
            self.wf(),
            0 <= id < self.volume(),
        ensures
            (p.0 as int, p.1 as int, p.2 as int) == self.coords_of(id as int),
            self.in_bounds(p.0 as int, p.1 as int, p.2 as int),
            self.id_of(p.0 as int, p.1 as int, p.2 as int) == id,
    {
        proof {
            self.lemma_area_bounds();
            self.lemma_encode_decode(id as int);
        }
        let area: i32 = self.chunk_height * self.chunk_size;
        (id / area, (id / self.chunk_size) % self.chunk_height, id % self.chunk_size)
    }

    /// Whether the chunk at `pos` lies inside the range of `i32` world coordinates.
    pub fn contains_chunk(&self, pos: IVec3) -> (b: bool)
        requires
            self.wf(),
        ensures
            b == self.chunk_in_range(pos@),
    {
        axis_in_range(pos.x, self.chunk_size) && axis_in_range(pos.y, self.chunk_height)
            && axis_in_range(pos.z, self.chunk_size)
    }

    /// World coordinate of the first voxel of the chunk at `pos`.
    pub fn chunk_origin(&self, pos: IVec3) -> (o: IVec3)
        requires
            self.wf(),
            self.chunk_in_range(pos@),
        ensures
            o@ == self.world_coord(pos@, 0, 0, 0),
    {
        IVec3 {
            x: axis_origin(pos.x, self.chunk_size),
            y: axis_origin(pos.y, self.chunk_height),
            z: axis_origin(pos.z, self.chunk_size),
        }
    }

    /// The area of a chunk's vertical slice fits in an `i32`, as its volume does.
    pub proof fn lemma_area_bounds(&self)
        requires
            self.wf(),
        ensures
            0 < self.height() * self.size() <= self.volume() <= i32::MAX,
            self.size() <= self.volume(),
            self.height() <= self.volume(),
            self.size() * self.size() <= self.volume(),
            self.volume() == self.size() * (self.height() * self.size()),
            self.size() * self.height() == self.height() * self.size(),
    {
        let s = self.size();
        let h = self.height();
        assert(0 < h * s && h * s <= s * h * s && s <= s * h * s && h <= s * h * s && s * s <= s
            * h * s && s * h * s == s * (h * s) && s * h == h * s) by (nonlinear_arith)
            requires
                0 < s,
                0 < h,
        ;
    }

    /// Ids of local coordinates are the numbers below the volume.
    pub proof fn lemma_id_bounds(&self, x: int, y: int, z: int)
        requires
            self.wf(),
            self.in_bounds(x, y, z),
        ensures
            0 <= self.id_of(x, y, z) < self.volume(),
    {
        let s = self.size();
        let h = self.height();
        assert(0 <= x * (h * s) + y * s + z < s * h * s) by (nonlinear_arith)
            requires
                0 <= x < s,
                0 <= y < h,
                0 <= z < s,
        {
            assert(y * s + z <= (h - 1) * s + (s - 1));
            assert(x * (h * s) <= (s - 1) * (h * s));
        }
    }

    /// Decoding the id of a local coordinate gives that coordinate back.
    pub proof fn lemma_decode_encode(&self, x: int, y: int, z: int)
        requires
            self.wf(),
            self.in_bounds(x, y, z),
        ensures
            self.coords_of(self.id_of(x, y, z)) == (x, y, z),
    {
        let s = self.size();
        let h = self.height();
        let id = self.id_of(x, y, z);
        let r = y * s + z;
        assert(0 <= r < h * s) by (nonlinear_arith)
            requires
                0 <= y < h,
                0 <= z < s,
                r == y * s + z,
        ;
        assert(id == x * (h * s) + r);
        lemma_fundamental_div_mod_converse(id, h * s, x, r);
        assert(id == (x * h + y) * s + z) by (nonlinear_arith)
            requires
                id == x * (h * s) + y * s + z,
        ;
        lemma_fundamental_div_mod_converse(id, s, x * h + y, z);
        lemma_fundamental_div_mod_converse(x * h + y, h, x, y);
    }

    /// Every id below the volume is the id of exactly the coordinate it decodes to.
    pub proof fn lemma_encode_decode(&self, id: int)
        requires
            self.wf(),
            0 <= id < self.volume(),
        ensures
            ({
                let p = self.coords_of(id);
                self.in_bounds(p.0, p.1, p.2) && self.id_of(p.0, p.1, p.2) == id
            }),
    {
        let s = self.size();
        let h = self.height();
        self.lemma_area_bounds();
        let q = id / s;
        let z = id % s;
        lemma_fundamental_div_mod(id, s);
        let x = q / h;
        let y = q % h;
        lemma_fundamental_div_mod(q, h);
        assert(0 <= q) by (nonlinear_arith)
            requires
                id == s * q + z,
                0 <= id,
                0 <= z < s,
        ;
        assert(0 <= x) by (nonlinear_arith)
            requires
                q == h * x + y,
                0 <= q,
                0 <= y < h,
        ;
        assert(id == x * (h * s) + y * s + z) by (nonlinear_arith)
            requires
                id == s * q + z,
                q == h * x + y,
        ;
        assert(x < s) by (nonlinear_arith)
            requires
                id == x * (h * s) + y * s + z,
                id < s * h * s,
                0 <= y,
                0 <= z,
                0 < s,
                0 < h,
        ;
        let r = y * s + z;
        assert(0 <= r < h * s) by (nonlinear_arith)
            requires
                0 <= y < h,
                0 <= z < s,
                r == y * s + z,
        ;
        lemma_fundamental_div_mod_converse(id, h * s, x, r);
    }

    /// The chunk and the local id that a world coordinate inside a chunk falls to.
    pub proof fn lemma_world_coord_split(&self, chunk: (int, int, int), x: int, y: int, z: int)
        requires
            self.wf(),
            self.in_bounds(x, y, z),
        ensures
            self.chunk_of(self.world_coord(chunk, x, y, z)) == chunk,
            self.local_id_of(self.world_coord(chunk, x, y, z)) == self.id_of(x, y, z),
    {
        let w = self.world_coord(chunk, x, y, z);
        lemma_fundamental_div_mod_converse(w.0, self.size(), chunk.0, x);
        lemma_fundamental_div_mod_converse(w.1, self.height(), chunk.1, y);
        lemma_fundamental_div_mod_converse(w.2, self.size(), chunk.2, z);
    }

    /// Every world coordinate is a local coordinate of the chunk it falls to.
    pub proof fn lemma_world_coord_join(&self, w: (int, int, int))
        requires
            self.wf(),
        ensures
            self.in_bounds(w.0 % self.size(), w.1 % self.height(), w.2 % self.size()),
            self.world_coord(
                self.chunk_of(w),
                w.0 % self.size(),
                w.1 % self.height(),
                w.2 % self.size(),
            ) == w,
    {
        lemma_fundamental_div_mod(w.0, self.size());
        lemma_fundamental_div_mod(w.1, self.height());
        lemma_fundamental_div_mod(w.2, self.size());
        assert(self.chunk_of(w).0 * self.size() == self.size() * (w.0 / self.size()))
            by (nonlinear_arith);
        assert(self.chunk_of(w).1 * self.height() == self.height() * (w.1 / self.height()))
            by (nonlinear_arith);
        assert(self.chunk_of(w).2 * self.size() == self.size() * (w.2 / self.size()))
            by (nonlinear_arith);
    }
}

/// Whether the `dim` cells that start at `pos * dim` lie strictly between
/// `i32::MIN` and `i32::MAX`.
pub fn axis_in_range(pos: i32, dim: i32) -> (b: bool)
    requires
        0 < dim,
    ensures
        b == axis_fits(pos as int, dim as int),
{
    assert(-0x8000_0000 * 0x7fff_ffff <= pos * dim <= 0x7fff_ffff * 0x7fff_ffff)
        by (nonlinear_arith)
        requires
            -0x8000_0000 <= pos <= 0x7fff_ffff,
            0 < dim <= 0x7fff_ffff,
    ;
    let start: i64 = (pos as i64) * (dim as i64);
    (i32::MIN as i64) < start && start + (dim as i64) <= (i32::MAX as i64)
}

/// The first cell of the `pos`-th run of `dim` cells.
pub fn axis_origin(pos: i32, dim: i32) -> (o: i32)
    requires
        0 < dim,
        axis_fits(pos as int, dim as int),
    ensures
        o == pos * dim,
{
    pos * dim
}

} // verus!
