//! Materials, voxels and chunks.

use vstd::prelude::*;
use crate::grid::{WorldConfig, DIRT_DEPTH, SNOW_LINE};

verus! {

/// The material of a voxel.
#[derive(Debug, PartialEq, Eq, Clone, Copy, Structural)]
pub enum BlockType {
    Air,
    Stone,
    Dirt,
    Grass,
    Snow,
    Water,
}

/// The four channels of a colour, red, green, blue and alpha, as integers.
pub open spec fn channels(c: [u8; 4]) -> (int, int, int, int) {
    (c[0] as int, c[1] as int, c[2] as int, c[3] as int)
}

impl BlockType {
    /// The colour of a material: red, green, blue and alpha, each in percent
    /// of full intensity.
    pub open spec fn rgba(self) -> (int, int, int, int) {
        match self {
            BlockType::Air => (0, 0, 0, 0),
            BlockType::Stone => (50, 50, 50, 100),
            BlockType::Dirt => (50, 25, 0, 100),
            BlockType::Grass => (0, 50, 0, 100),
            BlockType::Snow => (100, 100, 100, 100),
            BlockType::Water => (0, 0, 100, 50),
        }
    }

    /// Whether a voxel of this material is solid: every material but air is.
    pub open spec fn solid(self) -> bool {
        self != BlockType::Air
    }

    /// The colour of this material, each channel in percent.
    pub fn color(&self) -> (c: [u8; 4])
        ensures
            channels(c) == self.rgba(),
    {
        match self {
            BlockType::Air => [0, 0, 0, 0],
            BlockType::Stone => [50, 50, 50, 100],
            BlockType::Dirt => [50, 25, 0, 100],
            BlockType::Grass => [0, 50, 0, 100],
            BlockType::Snow => [100, 100, 100, 100],
            BlockType::Water => [0, 0, 100, 50],
        }
    }

    /// Whether a voxel of this material is solid.
    pub fn is_solid(&self) -> (b: bool)
        ensures
            b == self.solid(),
    {
        match self {
            BlockType::Air => false,
            _ => true,
        }
    }
}

/// The material at world height `wy` of a column whose surface lies at height
/// `h`, in a world with the given sea level. The rules are tried in this
/// order, and the first that applies decides: snow from the snow line up to
/// the surface, grass at the surface, dirt in the layer below it, stone
/// further down but above height zero, water above the surface up to the sea
/// level, and air elsewhere.
pub open spec fn material_at(wy: int, h: int, sea_level: int) -> BlockType {
    if wy >= SNOW_LINE && wy <= h {
        BlockType::Snow
    } else if wy == h {
        BlockType::Grass
    } else if wy > h - DIRT_DEPTH && wy <= h {
        BlockType::Dirt
    } else if wy > 0 && wy <= h {
        BlockType::Stone
    } else if wy <= sea_level && wy > h {
        BlockType::Water
    } else {
        BlockType::Air
    }
}

/// The material at world height `wy` of a column with its surface at `h`.
pub fn classify(wy: i32, h: i32, sea_level: i32) -> (b: BlockType)
    ensures
        b == material_at(wy as int, h as int, sea_level as int),
{
    if wy >= SNOW_LINE && wy <= h {
        BlockType::Snow
    } else if wy == h {
        BlockType::Grass
    } else if wy as i64 > h as i64 - DIRT_DEPTH as i64 && wy <= h {
        BlockType::Dirt
    } else if wy > 0 && wy <= h {
        BlockType::Stone
    } else if wy <= sea_level && wy > h {
        BlockType::Water
    } else {
        BlockType::Air
    }
}

/// The smallest unit of the world.
///
/// `id` is the voxel's linear index inside its chunk, and `is_solid` caches
/// whether the material is anything but air.
#[derive(Debug, Copy, Clone, PartialEq, Eq, Structural)]
pub struct Voxel {
    pub id: i32,
    pub is_solid: bool,
    pub block_type: BlockType,
}

impl Voxel {
    /// The voxel with this id and material.
    pub open spec fn of(id: int, block_type: BlockType) -> Voxel {
        Voxel { id: id as i32, is_solid: block_type.solid(), block_type }
    }

    /// A voxel of the given material, solid unless the material is air.
    pub fn new(id: i32, block_type: BlockType) -> (v: Voxel)
        ensures
            v == Voxel::of(id as int, block_type),
    {
        Voxel { id, is_solid: block_type.is_solid(), block_type }
    }
}

/// The voxels that are drawn: the solid ones.
pub open spec fn is_rendered() -> spec_fn(Voxel) -> bool {
    |v: Voxel| v.is_solid
}

/// A block of `chunk_size * chunk_height * chunk_size` voxels, each stored at
/// the index that is its id.
#[derive(Debug)]
pub struct Chunk {
    pub(crate) voxels: Vec<Voxel>,
    pub(crate) config: WorldConfig,
}

impl View for Chunk {
    type V = Seq<Voxel>;

    open(crate) spec fn view(&self) -> Seq<Voxel> {
        self.voxels@
    }
}

impl Chunk {
    /// The configuration that gives this chunk its dimensions.
    pub open(crate) spec fn cfg(&self) -> WorldConfig {
        self.config
    }

    /// Whether `voxels` fills a chunk of the given configuration: one voxel
    /// for each id, stored at that id.
    pub open spec fn fills(voxels: Seq<Voxel>, config: WorldConfig) -> bool {
        &&& voxels.len() == config.volume()
        &&& forall|i: int| 0 <= i < voxels.len() ==> (#[trigger] voxels[i]).id == i
    }

    /// The invariant of a chunk.
    pub open spec fn wf(&self) -> bool {
        &&& self.cfg().wf()
        &&& Self::fills(self@, self.cfg())
    }

    /// A chunk of these voxels, or `None` where they do not fill a chunk of
    /// this configuration.
    pub fn from_voxels(config: WorldConfig, voxels: Vec<Voxel>) -> (r: Option<Chunk>)
        requires
            config.wf(),
        ensures
            r is Some <==> Self::fills(voxels@, config),
            r matches Some(c) ==> c.wf() && c@ == voxels@ && c.cfg() == config,
    {
        let volume: i32 = config.chunk_volume();
        if voxels.len() != volume as usize {
            return None;
        }
        let mut i: usize = 0;
        while i < voxels.len()
            invariant
                i <= voxels.len(),
                voxels.len() == config.volume(),
                config.volume() <= i32::MAX,
                forall|j: int| 0 <= j < i ==> (#[trigger] voxels@[j]).id == j,
            decreases voxels.len() - i,
        {
            if voxels[i].id != i as i32 {
                return None;
            }
            i = i + 1;
        }
        Some(Chunk { voxels, config })
    }

    /// The configuration that gives this chunk its dimensions.
    pub fn config(&self) -> (c: WorldConfig)
        ensures
            c == self.cfg(),
    {
        self.config
    }

    /// The voxels of the chunk, in the order of their ids.
    pub fn voxels(&self) -> (v: &Vec<Voxel>)
        ensures
            v@ == self@,
    {
        &self.voxels
    }

    /// Number of voxels in the chunk.
    pub fn get_size(&self) -> (n: i32)
        requires
            self.wf(),
        ensures
            n == self@.len(),
    {
        self.voxels.len() as i32
    }

    /// The solid voxels of the chunk, in the order of their ids.
    pub fn rendered_voxels(&self) -> (r: Vec<&Voxel>)
        ensures
            r@.unref() == self@.filter(is_rendered()),
    {
        let mut out: Vec<&Voxel> = Vec::new();
        let mut i: usize = 0;
        proof {
            assert(self@.take(0) =~= Seq::<Voxel>::empty());
            assert(Seq::<Voxel>::empty().filter(is_rendered()) =~= Seq::<Voxel>::empty()) by {
                reveal(Seq::filter);
            }
            assert(out@.unref() =~= Seq::<Voxel>::empty());
        }
        while i < self.voxels.len()
            invariant
                i <= self.voxels.len(),
                out@.unref() == self@.take(i as int).filter(is_rendered()),
            decreases self.voxels.len() - i,
        {
            let ghost before = out@.unref();
            let voxel: &Voxel = &self.voxels[i];
            proof {
                self@.take(i as int).lemma_filter_push(*voxel, is_rendered());
                assert(self@.take(i as int + 1) =~= self@.take(i as int).push(*voxel));
            }
            if voxel.is_solid {
                out.push(voxel);
                assert(out@.unref() =~= before.push(*voxel));
            }
            i = i + 1;
        }
        proof {
            assert(self@.take(i as int) =~= self@);
        }
        out
    }

    /// Number of solid voxels in the chunk.
    pub fn rendered_voxels_count(&self) -> (n: i32)
        requires
            self.wf(),
        ensures
            n == self@.filter(is_rendered()).len(),
    {
        proof {
            self@.lemma_filter_len(is_rendered());
        }
        let rendered = self.rendered_voxels();
        assert(rendered@.len() == rendered@.unref().len());
        rendered.len() as i32
    }

    /// The voxel at local `(x, y, z)`, or `None` outside the chunk.
    pub fn get_voxel(&self, x: i32, y: i32, z: i32) -> (r: Option<&Voxel>)
        requires
            self.wf(),
        ensures
            self.cfg().in_bounds(x as int, y as int, z as int) ==> r == Some(
                &self@[self.cfg().id_of(x as int, y as int, z as int)],
            ),
            !self.cfg().in_bounds(x as int, y as int, z as int) ==> r is None,
    {
        if !self.config.contains_local(x, y, z) {
            return None;
        }
        let index: usize = self.config.encode(x, y, z) as usize;
        Some(&self.voxels[index])
    }
}

} // verus!
