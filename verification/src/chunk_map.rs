//! The world grid: the chunks of a world by their chunk coordinates, and the
//! generation of terrain into it.

use vstd::prelude::*;
use std::collections::HashMap;
use crate::block::{classify, Chunk, Voxel};
use crate::grid::{axis_fits, axis_origin, IVec3, WorldConfig};
use crate::key::{coord_map, is_key, lemma_coord_map_empty, lemma_coord_map_insert, pack_key, unpack};
use crate::terrain::{
    chunk_height_fits, chunk_heights, column_voxel, column_voxels, generated_chunk,
    lemma_column_voxels_of_field, lemma_solid_in_empty_world, solid_in_slice, solid_in_slices,
    solid_in_stack, solid_in_world, HeightField,
};

verus! {

/// Draws a seed from the thread-local generator of the `rand` crate
/// (`rand::thread_rng`, then `Rng::gen` for a `u64`). The generator is seeded
/// by the operating system, so nothing is promised of the value that comes
/// back: every `u64` may. `thread_rng` panics where the operating system
/// hands out no entropy to seed it with; no argument can rule that out.
#[verifier::external_body]
fn random_seed() -> (seed: u64) {
    rand::Rng::gen(&mut rand::thread_rng())
}

/// Whether `p` is a chunk coordinate inside a world of `size` chunks, which
/// starts at the origin.
pub open spec fn in_extent(p: (int, int, int), size: (int, int, int)) -> bool {
    &&& 0 <= p.0 < size.0
    &&& 0 <= p.1 < size.1
    &&& 0 <= p.2 < size.2
}

/// The chunks of a world of `size` chunks whose columns have the heights of
/// `field`.
pub open spec fn generated_world(config: WorldConfig, size: (int, int, int), field: HeightField) -> Map<
    (int, int, int),
    Seq<Voxel>,
> {
    Map::new(
        |p: (int, int, int)| in_extent(p, size),
        |p: (int, int, int)| generated_chunk(config, p, field),
    )
}

/// Whether every chunk of a world of `size` chunks lies inside the range of
/// `i32` world coordinates and has all its columns in `field`.
pub open spec fn terrain_fits(config: WorldConfig, size: (int, int, int), field: HeightField) -> bool {
    forall|p: (int, int, int)| #[trigger]
        in_extent(p, size) ==> config.chunk_in_range(p) && field.covers_chunk(config, p)
}

/// Whether the chunk coordinate `p` comes before `(x, y, z)` in the order in
/// which a world is generated: slice by slice along z, row by row along x,
/// and upwards along y.
pub open spec fn generated_before(p: (int, int, int), x: int, y: int, z: int) -> bool {
    p.2 < z || (p.2 == z && (p.0 < x || (p.0 == x && p.1 < y)))
}

/// The chunks of a world, by chunk coordinate, with the seed of the world.
#[derive(Debug)]
pub struct ChunkMap {
    pub(crate) map: HashMap<u128, Chunk>,
    pub(crate) config: WorldConfig,
    pub(crate) seed: u64,
}

impl View for ChunkMap {
    type V = Map<(int, int, int), Seq<Voxel>>;

    /// The voxels of each chunk that the world holds, by chunk coordinate.
    open(crate) spec fn view(&self) -> Map<(int, int, int), Seq<Voxel>> {
        Map::new(
            |p: (int, int, int)| coord_map(self.map@).contains_key(p),
            |p: (int, int, int)| coord_map(self.map@)[p]@,
        )
    }
}

impl ChunkMap {
    /// The configuration of the world.
    pub open(crate) spec fn cfg(&self) -> WorldConfig {
        self.config
    }

    /// The seed of the world.
    pub open(crate) spec fn world_seed(&self) -> u64 {
        self.seed
    }

    /// The invariant of a world grid: every chunk is well formed, has the
    /// dimensions of the world, and lies inside the range of `i32` world
    /// coordinates.
    pub open(crate) spec fn wf(&self) -> bool {
        &&& self.config.wf()
        &&& forall|k: u128| #[trigger]
            self.map@.contains_key(k) ==> {
                &&& is_key(k as int)
                &&& self.config.chunk_in_range(unpack(k as int))
                &&& self.map@[k].wf()
                &&& self.map@[k].cfg() == self.config
            }
    }

    /// The voxel at each world coordinate that lies in a chunk of the world:
    /// the voxel that the chunk stores under the coordinate's local id.
    pub open spec fn world_view(&self) -> Map<(int, int, int), Voxel> {
        Map::new(
            |w: (int, int, int)| self@.contains_key(self.cfg().chunk_of(w)),
            |w: (int, int, int)| self@[self.cfg().chunk_of(w)][self.cfg().local_id_of(w)],
        )
    }

    /// Whether this world is what generating a world of `size` chunks from
    /// the heights of `field` makes of the world `before`.
    pub open spec fn generated_from(
        &self,
        before: ChunkMap,
        size: (int, int, int),
        field: HeightField,
    ) -> bool {
        &&& self.cfg() == before.cfg()
        &&& self@ == before@.union_prefer_right(generated_world(before.cfg(), size, field))
    }

    /// An empty world of the standard configuration with a seed drawn at random.
    pub fn new() -> (r: Self)
        ensures
            r.wf(),
            r@ == Map::<(int, int, int), Seq<Voxel>>::empty(),
            r.cfg() == WorldConfig::standard_config(),
    {
        let seed = random_seed();
        Self::with_seed(seed)
    }

    /// An empty world of the standard configuration with the given seed.
    pub fn with_seed(seed: u64) -> (r: Self)
        ensures
            r.wf(),
            r@ == Map::<(int, int, int), Seq<Voxel>>::empty(),
            r.cfg() == WorldConfig::standard_config(),
            r.world_seed() == seed,
    {
        Self::with_config(seed, WorldConfig::standard())
    }

    /// An empty world of the given configuration and seed.
    pub fn with_config(seed: u64, config: WorldConfig) -> (r: Self)
        requires
            config.wf(),
        ensures
            r.wf(),
            r@ == Map::<(int, int, int), Seq<Voxel>>::empty(),
            r.cfg() == config,
            r.world_seed() == seed,
    {
        let r = ChunkMap { map: HashMap::new(), config, seed };
        proof {
            lemma_coord_map_empty::<Chunk>();
            assert(r@ =~= Map::<(int, int, int), Seq<Voxel>>::empty());
        }
        r
    }

    /// The configuration of the world.
    pub fn config(&self) -> (c: WorldConfig)
        ensures
            c == self.cfg(),
    {
        self.config
    }

    /// The seed from which the heights of the world are drawn.
    pub fn seed(&self) -> (s: u64)
        ensures
            s == self.world_seed(),
    {
        self.seed
    }

    /// The chunk at `chunk_pos`, or `None` where the world holds none there.
    pub fn get_chunk(&self, chunk_pos: IVec3) -> (r: Option<&Chunk>)
        requires
            self.wf(),
        ensures
            r is Some <==> self@.contains_key(chunk_pos@),
            r matches Some(c) ==> c@ == self@[chunk_pos@] && c.wf() && c.cfg() == self.cfg(),
    {
        let key = pack_key(chunk_pos.x, chunk_pos.y, chunk_pos.z);
        self.map.get(&key)
    }

    /// Puts `chunk` at `chunk_pos`, in place of a chunk that was there.
    pub fn insert_chunk(&mut self, chunk_pos: IVec3, chunk: Chunk)
        requires
            old(self).wf(),
            chunk.wf(),
            chunk.cfg() == old(self).cfg(),
            old(self).cfg().chunk_in_range(chunk_pos@),
        ensures
            final(self).wf(),
            final(self)@ == old(self)@.insert(chunk_pos@, chunk@),
            final(self).cfg() == old(self).cfg(),
            final(self).world_seed() == old(self).world_seed(),
    {
        let key = pack_key(chunk_pos.x, chunk_pos.y, chunk_pos.z);
        proof {
            crate::key::lemma_unpack_pack(chunk_pos@);
            lemma_coord_map_insert(self.map@, chunk_pos@, chunk);
        }
        self.map.insert(key, chunk);
        assert(self@ =~= old(self)@.insert(chunk_pos@, chunk@));
    }

    /// The surface heights of the columns of the chunk at `chunk_pos`, taken
    /// from `field`: the height of the column at local `(x, z)` stands at
    /// index `x * chunk_size + z`.
    pub fn create_chunk_heightmap(&mut self, chunk_pos: IVec3, field: &HeightField) -> (heightmap:
        Vec<i32>)
        requires
            old(self).wf(),
            field.wf(),
            axis_fits(chunk_pos.x as int, old(self).cfg().size()),
            axis_fits(chunk_pos.z as int, old(self).cfg().size()),
            field.covers_chunk(old(self).cfg(), chunk_pos@),
        ensures
            heightmap@ == chunk_heights(old(self).cfg(), chunk_pos@, *field),
            *final(self) == *old(self),
    {
        let size: i32 = self.config.chunk_size();
        let x0: i32 = axis_origin(chunk_pos.x, size);
        let z0: i32 = axis_origin(chunk_pos.z, size);
        let ghost cfg = self.config;
        let ghost expected = chunk_heights(cfg, chunk_pos@, *field);
        let mut heightmap: Vec<i32> = Vec::new();
        let mut x: i32 = 0;
        while x < size
            invariant
                0 <= x <= size,
                size == cfg.size(),
                cfg.wf(),
                field.wf(),
                x0 == chunk_pos.x * size,
                z0 == chunk_pos.z * size,
                x0 + size <= i32::MAX,
                z0 + size <= i32::MAX,
                field.covers_chunk(cfg, chunk_pos@),
                expected == chunk_heights(cfg, chunk_pos@, *field),
                heightmap@.len() == x * size,
                forall|i: int| 0 <= i < heightmap@.len() ==> heightmap@[i] == expected[i],
            decreases size - x,
        {
            let mut z: i32 = 0;
            while z < size
                invariant
                    0 <= x < size,
                    0 <= z <= size,
                    size == cfg.size(),
                    cfg.wf(),
                    field.wf(),
                    x0 == chunk_pos.x * size,
                    z0 == chunk_pos.z * size,
                    x0 + size <= i32::MAX,
                    z0 + size <= i32::MAX,
                    field.covers_chunk(cfg, chunk_pos@),
                    expected == chunk_heights(cfg, chunk_pos@, *field),
                    heightmap@.len() == x * size + z,
                    forall|i: int| 0 <= i < heightmap@.len() ==> heightmap@[i] == expected[i],
                decreases size - z,
            {
                proof {
                    let i = x * size + z;
                    vstd::arithmetic::div_mod::lemma_fundamental_div_mod_converse(
                        i,
                        size as int,
                        x as int,
                        z as int,
                    );
                    assert(field.covers(chunk_pos.x * cfg.size() + x, chunk_pos.z * cfg.size() + z));
                    assert(i < size * size) by (nonlinear_arith)
                        requires
                            0 <= x < size,
                            0 <= z < size,
                            i == x * size + z,
                    ;
                }
                let h: Option<i32> = field.height(x0 + x, z0 + z);
                heightmap.push(h.unwrap());
                z = z + 1;
            }
            proof {
                assert(x * size + size == (x + 1) * size) by (nonlinear_arith);
            }
            x = x + 1;
        }
        proof {
            assert(heightmap@ =~= expected);
        }
        heightmap
    }

    /// The voxels of a chunk at `chunk_pos` whose columns have the heights of
    /// `heightmap`, the column at local `(x, z)` at index `x * chunk_size + z`.
    /// The voxels come in the order of their ids.
    pub fn create_chunk_voxels(&mut self, chunk_pos: IVec3, heightmap: Vec<i32>) -> (voxels: Vec<
        Voxel,
    >)
        requires
            old(self).wf(),
            chunk_height_fits(old(self).cfg(), chunk_pos.y as int),
            heightmap@.len() >= old(self).cfg().size() * old(self).cfg().size(),
        ensures
            voxels@ == column_voxels(old(self).cfg(), chunk_pos.y as int, heightmap@),
            *final(self) == *old(self),
    {
        let size: i32 = self.config.chunk_size();
        let height: i32 = self.config.chunk_height();
        let sea_level: i32 = self.config.sea_level();
        let y0: i32 = axis_origin(chunk_pos.y, height);
        let config: WorldConfig = self.config;
        let ghost expected = column_voxels(config, chunk_pos.y as int, heightmap@);
        let mut voxels: Vec<Voxel> = Vec::new();
        proof {
            config.lemma_area_bounds();
        }
        let mut x: i32 = 0;
        while x < size
            invariant
                0 <= x <= size,
                size == config.size(),
                height == config.height(),
                sea_level == config.sea(),
                config.wf(),
                y0 == chunk_pos.y * height,
                y0 + height <= i32::MAX,
                heightmap@.len() >= size * size,
                expected == column_voxels(config, chunk_pos.y as int, heightmap@),
                voxels@.len() == x * (height * size),
                forall|i: int| 0 <= i < voxels@.len() ==> voxels@[i] == expected[i],
            decreases size - x,
        {
            let mut y: i32 = 0;
            while y < height
                invariant
                    0 <= x < size,
                    0 <= y <= height,
                    size == config.size(),
                    height == config.height(),
                    sea_level == config.sea(),
                    config.wf(),
                    y0 == chunk_pos.y * height,
                    y0 + height <= i32::MAX,
                    heightmap@.len() >= size * size,
                    expected == column_voxels(config, chunk_pos.y as int, heightmap@),
                    voxels@.len() == x * (height * size) + y * size,
                    forall|i: int| 0 <= i < voxels@.len() ==> voxels@[i] == expected[i],
                decreases height - y,
            {
                let mut z: i32 = 0;
                while z < size
                    invariant
                        0 <= x < size,
                        0 <= y < height,
                        0 <= z <= size,
                        size == config.size(),
                        height == config.height(),
                        sea_level == config.sea(),
                        config.wf(),
                        y0 == chunk_pos.y * height,
                        y0 + height <= i32::MAX,
                        heightmap@.len() >= size * size,
                        expected == column_voxels(config, chunk_pos.y as int, heightmap@),
                        voxels@.len() == x * (height * size) + y * size + z,
                        forall|i: int| 0 <= i < voxels@.len() ==> voxels@[i] == expected[i],
                    decreases size - z,
                {
                    proof {
                        config.lemma_decode_encode(x as int, y as int, z as int);
                        config.lemma_id_bounds(x as int, y as int, z as int);
                        assert(0 <= x * size + z < size * size) by (nonlinear_arith)
                            requires
                                0 <= x < size,
                                0 <= z < size,
                        ;
                        assert(0 <= x * size <= x * size + z) by (nonlinear_arith)
                            requires
                                0 <= x,
                                0 <= size,
                                0 <= z,
                        ;
                        assert(size * size <= config.volume()) by {
                            config.lemma_area_bounds();
                        }
                    }
                    let id: i32 = config.encode(x, y, z);
                    let column: usize = (x * size + z) as usize;
                    let block_type = classify(y0 + y, heightmap[column], sea_level);
                    voxels.push(Voxel::new(id, block_type));
                    proof {
                        assert(voxels@[id as int] == column_voxel(
                            config,
                            chunk_pos.y as int,
                            heightmap@,
                            id as int,
                        ));
                    }
                    z = z + 1;
                }
                proof {
                    assert(x * (height * size) + y * size + size == x * (height * size) + (y + 1)
                        * size) by (nonlinear_arith);
                }
                y = y + 1;
            }
            proof {
                assert(x * (height * size) + height * size == (x + 1) * (height * size))
                    by (nonlinear_arith);
            }
            x = x + 1;
        }
        proof {
            assert(size * (height * size) == config.volume()) by {
                config.lemma_area_bounds();
            }
            assert(voxels@ =~= expected);
        }
        voxels
    }

    /// The chunk at `chunk_pos` of a world whose columns have the heights of
    /// `field`.
    pub fn generate_chunk(&mut self, chunk_pos: IVec3, field: &HeightField) -> (chunk: Chunk)
        requires
            old(self).wf(),
            field.wf(),
            old(self).cfg().chunk_in_range(chunk_pos@),
            field.covers_chunk(old(self).cfg(), chunk_pos@),
        ensures
            chunk@ == generated_chunk(old(self).cfg(), chunk_pos@, *field),
            chunk.wf(),
            chunk.cfg() == old(self).cfg(),
            *final(self) == *old(self),
    {
        let heightmap = self.create_chunk_heightmap(chunk_pos, field);
        let voxels = self.create_chunk_voxels(chunk_pos, heightmap);
        proof {
            lemma_column_voxels_of_field(self.config, chunk_pos@, *field);
        }
        Chunk { voxels, config: self.config }
    }

    /// Whether a world of `world_size` chunks can be generated from `field`.
    pub fn can_generate(&self, world_size: IVec3, field: &HeightField) -> (b: bool)
        requires
            self.wf(),
            field.wf(),
        ensures
            b == terrain_fits(self.cfg(), world_size@, *field),
    {
        if world_size.x <= 0 || world_size.y <= 0 || world_size.z <= 0 {
            return true;
        }
        let ghost cfg = self.config;
        let ghost first = (0int, 0int, 0int);
        let last = IVec3::new(world_size.x - 1, world_size.y - 1, world_size.z - 1);
        assert(in_extent(last@, world_size@));
        assert(in_extent(first, world_size@));
        if !self.config.contains_chunk(last) {
            return false;
        }
        let size: i32 = self.config.chunk_size();
        let far_x: i32 = axis_origin(last.x, size) + (size - 1);
        let far_z: i32 = axis_origin(last.z, size) + (size - 1);
        let near: Option<i32> = field.height(0, 0);
        let far: Option<i32> = field.height(far_x, far_z);
        if near.is_none() {
            proof {
                assert(!field.covers(first.0 * cfg.size() + 0, first.2 * cfg.size() + 0));
                assert(!field.covers_chunk(cfg, first));
            }
            return false;
        }
        if far.is_none() {
            proof {
                assert(!field.covers(
                    last@.0 * cfg.size() + (size - 1),
                    last@.2 * cfg.size() + (size - 1),
                ));
                assert(!field.covers_chunk(cfg, last@));
            }
            return false;
        }
        proof {
            let s = cfg.size();
            let h = cfg.height();
            assert forall|p: (int, int, int)| #[trigger] in_extent(p, world_size@) implies cfg.chunk_in_range(
                p,
            ) && field.covers_chunk(cfg, p) by {
                assert(0 <= p.0 * s <= last.x * s) by (nonlinear_arith)
                    requires
                        0 <= p.0 <= last.x,
                        0 < s,
                ;
                assert(0 <= p.1 * h <= last.y * h) by (nonlinear_arith)
                    requires
                        0 <= p.1 <= last.y,
                        0 < h,
                ;
                assert(0 <= p.2 * s <= last.z * s) by (nonlinear_arith)
                    requires
                        0 <= p.2 <= last.z,
                        0 < s,
                ;
                assert forall|x: int, z: int| 0 <= x < s && 0 <= z < s implies #[trigger] field.covers(
                    p.0 * s + x,
                    p.2 * s + z,
                ) by {}
            }
        }
        true
    }

    /// Generates every chunk of a world of `world_size` chunks, which starts
    /// at the origin, from the heights of `field`, and puts each in its place.
    /// Chunks elsewhere stay as they are. Returns the number of solid voxels
    /// in the chunks that were generated, or `u64::MAX` where there are more.
    pub fn generate_terrain(&mut self, world_size: IVec3, field: &HeightField) -> (solid_voxels: u64)
        requires
            old(self).wf(),
            field.wf(),
            terrain_fits(old(self).cfg(), world_size@, *field),
        ensures
            final(self).wf(),
            final(self).world_seed() == old(self).world_seed(),
            final(self).generated_from(*old(self), world_size@, *field),
            solid_voxels == vstd::math::min(
                solid_in_world(old(self).cfg(), *field, world_size@) as int,
                u64::MAX as int,
            ),
    {
        let ghost cfg = self.config;
        let ghost before = self@;
        let ghost target = generated_world(cfg, world_size@, *field);
        let ghost size = world_size@;
        if world_size.x <= 0 || world_size.y <= 0 || world_size.z <= 0 {
            proof {
                assert(target =~= Map::<(int, int, int), Seq<Voxel>>::empty());
                assert(self@ =~= before.union_prefer_right(target));
                lemma_solid_in_empty_world(cfg, *field, size);
            }
            return 0;
        }
        let mut solid_voxels: u64 = 0;
        let ghost mut counted: nat = 0;
        let mut z: i32 = 0;
        proof {
            assert(self@ =~= before.union_prefer_right(
                target.restrict(Set::new(|p: (int, int, int)| generated_before(p, 0, 0, 0))),
            ));
        }
        while z < world_size.z
            invariant
                0 <= z <= world_size.z,
                0 < world_size.x,
                0 < world_size.y,
                size == world_size@,
                self.wf(),
                field.wf(),
                self.cfg() == cfg,
                self.world_seed() == old(self).world_seed(),
                target == generated_world(cfg, size, *field),
                forall|p: (int, int, int)| #[trigger]
                    in_extent(p, size) ==> cfg.chunk_in_range(p) && field.covers_chunk(cfg, p),
                self@ == before.union_prefer_right(
                    target.restrict(Set::new(|p: (int, int, int)| generated_before(p, 0, 0, z as int))),
                ),
                counted == solid_in_slices(cfg, *field, z as int, size.0, size.1),
                solid_voxels == vstd::math::min(counted as int, u64::MAX as int),
            decreases world_size.z - z,
        {
            let mut x: i32 = 0;
            while x < world_size.x
                invariant
                    0 <= z < world_size.z,
                    0 <= x <= world_size.x,
                    0 < world_size.y,
                    size == world_size@,
                    self.wf(),
                    field.wf(),
                    self.cfg() == cfg,
                    self.world_seed() == old(self).world_seed(),
                    target == generated_world(cfg, size, *field),
                    forall|p: (int, int, int)| #[trigger]
                        in_extent(p, size) ==> cfg.chunk_in_range(p) && field.covers_chunk(cfg, p),
                    self@ == before.union_prefer_right(
                        target.restrict(
                            Set::new(|p: (int, int, int)| generated_before(p, x as int, 0, z as int)),
                        ),
                    ),
                    counted == solid_in_slices(cfg, *field, z as int, size.0, size.1)
                        + solid_in_slice(cfg, *field, z as int, x as int, size.1),
                    solid_voxels == vstd::math::min(counted as int, u64::MAX as int),
                decreases world_size.x - x,
            {
                let mut y: i32 = 0;
                while y < world_size.y
                    invariant
                        0 <= z < world_size.z,
                        0 <= x < world_size.x,
                        0 <= y <= world_size.y,
                        size == world_size@,
                        self.wf(),
                        field.wf(),
                        self.cfg() == cfg,
                        self.world_seed() == old(self).world_seed(),
                        target == generated_world(cfg, size, *field),
                        forall|p: (int, int, int)| #[trigger]
                            in_extent(p, size) ==> cfg.chunk_in_range(p) && field.covers_chunk(
                                cfg,
                                p,
                            ),
                        self@ == before.union_prefer_right(
                            target.restrict(
                                Set::new(
                                    |p: (int, int, int)|
                                        generated_before(p, x as int, y as int, z as int),
                                ),
                            ),
                        ),
                        counted == solid_in_slices(cfg, *field, z as int, size.0, size.1)
                            + solid_in_slice(cfg, *field, z as int, x as int, size.1)
                            + solid_in_stack(cfg, *field, x as int, z as int, y as int),
                        solid_voxels == vstd::math::min(counted as int, u64::MAX as int),
                    decreases world_size.y - y,
                {
                    let chunk_pos = IVec3::new(x, y, z);
                    let ghost prev = self@;
                    assert(in_extent(chunk_pos@, size));
                    let chunk = self.generate_chunk(chunk_pos, field);
                    let solid: i32 = chunk.rendered_voxels_count();
                    solid_voxels = solid_voxels.saturating_add(solid as u64);
                    self.insert_chunk(chunk_pos, chunk);
                    proof {
                        counted = counted + solid as nat;
                        assert(self@ == prev.insert(chunk_pos@, target[chunk_pos@]));
                        assert(self@ =~= before.union_prefer_right(
                            target.restrict(
                                Set::new(
                                    |p: (int, int, int)|
                                        generated_before(p, x as int, y + 1, z as int),
                                ),
                            ),
                        ));
                    }
                    y = y + 1;
                }
                proof {
                    assert(target.restrict(
                        Set::new(|p: (int, int, int)| generated_before(p, x as int, y as int, z as int)),
                    ) =~= target.restrict(
                        Set::new(|p: (int, int, int)| generated_before(p, x + 1, 0, z as int)),
                    ));
                }
                x = x + 1;
            }
            proof {
                assert(target.restrict(
                    Set::new(|p: (int, int, int)| generated_before(p, x as int, 0, z as int)),
                ) =~= target.restrict(
                    Set::new(|p: (int, int, int)| generated_before(p, 0, 0, z + 1)),
                ));
            }
            z = z + 1;
        }
        proof {
            assert(target.restrict(
                Set::new(|p: (int, int, int)| generated_before(p, 0, 0, z as int)),
            ) =~= target);
        }
        solid_voxels
    }
}

/// Generation is a function of what it is given: two worlds that agree
/// before a world of the same size is generated into each from the same
/// heights agree afterwards, chunk by chunk and voxel by voxel.
pub proof fn lemma_generation_deterministic(
    before_a: ChunkMap,
    after_a: ChunkMap,
    before_b: ChunkMap,
    after_b: ChunkMap,
    size: (int, int, int),
    field: HeightField,
)
    requires
        before_a@ == before_b@,
        before_a.cfg() == before_b.cfg(),
        after_a.generated_from(before_a, size, field),
        after_b.generated_from(before_b, size, field),
    ensures
        after_a@ == after_b@,
        after_a.world_view() == after_b.world_view(),
{
}

/// After generation, the world holds at every world coordinate of a
/// generated chunk the voxel whose material follows from the coordinate, the
/// height of its column and the sea level.
pub proof fn lemma_generated_world_view(
    before: ChunkMap,
    after: ChunkMap,
    size: (int, int, int),
    field: HeightField,
    w: (int, int, int),
)
    requires
        after.cfg().wf(),
        after.generated_from(before, size, field),
        in_extent(after.cfg().chunk_of(w), size),
    ensures
        after.world_view().contains_key(w),
        after.world_view()[w] == Voxel::of(
            after.cfg().local_id_of(w),
            crate::block::material_at(w.1, field.height_at(w.0, w.2), after.cfg().sea()),
        ),
{
    crate::terrain::lemma_generated_material(after.cfg(), field, w);
}

/// Terrain does not depend on how the world is cut into chunks: two worlds
/// with the same sea level, generated from the same heights, hold the same
/// material at every world coordinate that lies in a generated chunk of
/// both, whatever the dimensions of their chunks.
pub proof fn lemma_terrain_independent_of_partition(
    before_a: ChunkMap,
    after_a: ChunkMap,
    size_a: (int, int, int),
    before_b: ChunkMap,
    after_b: ChunkMap,
    size_b: (int, int, int),
    field: HeightField,
    w: (int, int, int),
)
    requires
        after_a.cfg().wf(),
        after_b.cfg().wf(),
        after_a.cfg().sea() == after_b.cfg().sea(),
        after_a.generated_from(before_a, size_a, field),
        after_b.generated_from(before_b, size_b, field),
        in_extent(after_a.cfg().chunk_of(w), size_a),
        in_extent(after_b.cfg().chunk_of(w), size_b),
    ensures
        after_a.world_view().contains_key(w),
        after_b.world_view().contains_key(w),
        after_a.world_view()[w].block_type == after_b.world_view()[w].block_type,
        after_a.world_view()[w].is_solid == after_b.world_view()[w].is_solid,
{
    lemma_generated_world_view(before_a, after_a, size_a, field, w);
    lemma_generated_world_view(before_b, after_b, size_b, field, w);
}

} // verus!
