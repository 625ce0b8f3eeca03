//! The world-wide voxel lookup: every voxel of every chunk under its world
//! coordinate.

use vstd::prelude::*;
use std::collections::HashMap;
use vstd::std_specs::hash::spec_hash_map_iter;
use vstd::std_specs::iter::IteratorSpec;
use crate::block::Voxel;
use crate::chunk_map::ChunkMap;
use crate::grid::IVec3;
use crate::key::{
    coord_map, is_key, lemma_coord_map_empty, lemma_coord_map_insert, lemma_coord_map_len,
    lemma_pack_unpack, lemma_positions_enumerate, lemma_unpack_pack, lemma_unref_no_duplicates,
    pack, pack_key, positions, unpack, unpack_key,
};

verus! {

/// Whether a voxel can be stored at the world coordinate `w`: each component
/// lies strictly between `i32::MIN` and `i32::MAX`, so that the coordinates
/// of its six neighbours and of the far corners of its cube are `i32` values.
pub open spec fn storable(w: (int, int, int)) -> bool {
    &&& i32::MIN < w.0 < i32::MAX
    &&& i32::MIN < w.1 < i32::MAX
    &&& i32::MIN < w.2 < i32::MAX
}

/// Whether `order` lists the coordinates at which the world holds a voxel,
/// each once.
pub open spec fn enumerates(order: Seq<(int, int, int)>, world: Map<(int, int, int), Voxel>) -> bool {
    order.no_duplicates() && order.to_set() == world.dom()
}

/// One row for each coordinate of `order`: the coordinate, and whether the
/// voxel that the world holds there is solid.
pub open spec fn terrain_rows(world: Map<(int, int, int), Voxel>, order: Seq<(int, int, int)>) -> Seq<
    (i32, i32, i32, bool),
> {
    Seq::new(
        order.len(),
        |i: int| (order[i].0 as i32, order[i].1 as i32, order[i].2 as i32, world[order[i]].is_solid),
    )
}

/// The part of the world view of `chunks` that lies in the chunks of `done`,
/// and in the chunk at `current` under the local ids below `upto`.
pub open spec fn collected(
    chunks: ChunkMap,
    done: Set<(int, int, int)>,
    current: (int, int, int),
    upto: int,
) -> Map<(int, int, int), Voxel> {
    Map::new(
        |w: (int, int, int)|
            {
                let c = chunks.cfg().chunk_of(w);
                chunks@.contains_key(c) && (done.contains(c) || (c == current
                    && chunks.cfg().local_id_of(w) < upto))
            },
        |w: (int, int, int)| chunks.world_view()[w],
    )
}

/// The voxel with local id `id` of the chunk at `current` is the one entry
/// that the ids up to `id` add to those below it.
pub proof fn lemma_collected_step(
    chunks: ChunkMap,
    done: Set<(int, int, int)>,
    current: (int, int, int),
    id: int,
)
    requires
        chunks.wf(),
        chunks@.contains_key(current),
        0 <= id < chunks.cfg().volume(),
    ensures
        ({
            let p = chunks.cfg().coords_of(id);
            let w = chunks.cfg().world_coord(current, p.0, p.1, p.2);
            collected(chunks, done, current, id + 1) == collected(chunks, done, current, id).insert(
                w,
                chunks@[current][id],
            )
        }),
{
    let cfg = chunks.cfg();
    let p = cfg.coords_of(id);
    let w = cfg.world_coord(current, p.0, p.1, p.2);
    cfg.lemma_encode_decode(id);
    cfg.lemma_world_coord_split(current, p.0, p.1, p.2);
    let a = collected(chunks, done, current, id + 1);
    let b = collected(chunks, done, current, id).insert(w, chunks@[current][id]);
    assert(cfg.chunk_of(w) == current);
    assert(cfg.local_id_of(w) == id);
    assert(a.dom().contains(w));
    assert(a[w] == chunks@[current][id]);
    assert forall|v: (int, int, int)| #[trigger] a.dom().contains(v) == b.dom().contains(v) by {
        cfg.lemma_world_coord_join(v);
        if cfg.chunk_of(v) == current && cfg.local_id_of(v) == id {
            cfg.lemma_decode_encode(v.0 % cfg.size(), v.1 % cfg.height(), v.2 % cfg.size());
            assert(v == w);
        }
    }
    assert forall|v: (int, int, int)| #[trigger] a.dom().contains(v) implies a[v] == b[v] by {
        if v != w {
            assert(b[v] == collected(chunks, done, current, id)[v]);
        }
    }
    assert(a =~= b);
}

/// Once every local id of the chunk at `current` is taken in, the chunk
/// counts among those that are done.
pub proof fn lemma_collected_chunk(
    chunks: ChunkMap,
    done: Set<(int, int, int)>,
    current: (int, int, int),
    next: (int, int, int),
)
    requires
        chunks.wf(),
    ensures
        collected(chunks, done, current, chunks.cfg().volume()) == collected(
            chunks,
            done.insert(current),
            next,
            0,
        ),
{
    let cfg = chunks.cfg();
    let a = collected(chunks, done, current, cfg.volume());
    let b = collected(chunks, done.insert(current), next, 0);
    assert forall|v: (int, int, int)| a.contains_key(v) == b.contains_key(v) by {
        cfg.lemma_world_coord_join(v);
        cfg.lemma_id_bounds(v.0 % cfg.size(), v.1 % cfg.height(), v.2 % cfg.size());
    }
    assert(a =~= b);
}

/// Once every chunk is done, the whole world view is taken in.
pub proof fn lemma_collected_all(
    chunks: ChunkMap,
    done: Set<(int, int, int)>,
    current: (int, int, int),
)
    requires
        chunks.wf(),
        forall|c: (int, int, int)| chunks@.contains_key(c) ==> done.contains(c),
    ensures
        collected(chunks, done, current, 0) == chunks.world_view(),
{
    assert(collected(chunks, done, current, 0) =~= chunks.world_view());
}

/// The voxels of a world, each under its world coordinate.
#[derive(Debug)]
pub struct WorldMap {
    pub(crate) map: HashMap<u128, Voxel>,
}

impl View for WorldMap {
    type V = Map<(int, int, int), Voxel>;

    open(crate) spec fn view(&self) -> Map<(int, int, int), Voxel> {
        coord_map(self.map@)
    }
}

impl WorldMap {
    /// The invariant of a lookup: a voxel is held only where one can be stored.
    pub open(crate) spec fn wf(&self) -> bool {
        forall|k: u128| #[trigger]
            self.map@.contains_key(k) ==> is_key(k as int) && storable(unpack(k as int))
    }

    /// A lookup that holds no voxel.
    pub fn new() -> (r: Self)
        ensures
            r.wf(),
            r@ == Map::<(int, int, int), Voxel>::empty(),
    {
        proof {
            lemma_coord_map_empty::<Voxel>();
        }
        WorldMap { map: HashMap::new() }
    }

    /// Number of voxels that the lookup holds.
    pub fn len(&self) -> (n: usize)
        requires
            self.wf(),
        ensures
            self@.dom().finite(),
            n == self@.dom().len(),
    {
        proof {
            lemma_coord_map_len(self.map@);
        }
        self.map.len()
    }

    /// The voxel at the world coordinate `(x, y, z)`, or `None` where the
    /// lookup holds none.
    pub fn get_voxel(&self, x: i32, y: i32, z: i32) -> (r: Option<&Voxel>)
        ensures
            r is Some <==> self@.contains_key((x as int, y as int, z as int)),
            r matches Some(v) ==> *v == self@[(x as int, y as int, z as int)],
    {
        let key = pack_key(x, y, z);
        self.map.get(&key)
    }

    /// Takes in every voxel of every chunk of `chunk_map` under its world
    /// coordinate: the coordinate of its chunk, scaled by the dimensions of
    /// a chunk, plus the local coordinate that its id stands for. A voxel
    /// that the lookup held at such a coordinate is replaced.
    pub fn collect_voxels(&mut self, chunk_map: &ChunkMap)
        requires
            old(self).wf(),
            chunk_map.wf(),
        ensures
            final(self).wf(),
            final(self)@ == old(self)@.union_prefer_right(chunk_map.world_view()),
    {
        let config = chunk_map.config();
        let ghost before = self@;
        let ghost full = spec_hash_map_iter(&chunk_map.map).remaining().unref();
        let ghost mut done: Set<(int, int, int)> = Set::empty();
        let ghost origin = (0int, 0int, 0int);
        proof {
            assert(collected(*chunk_map, done, origin, 0) =~= Map::<
                (int, int, int),
                Voxel,
            >::empty());
            assert(self@ =~= before.union_prefer_right(collected(*chunk_map, done, origin, 0)));
        }
        for entry in it: chunk_map.map.iter()
            invariant
                self.wf(),
                chunk_map.wf(),
                config == chunk_map.cfg(),
                it.seq().unref() == full,
                full.to_set() == chunk_map.map@.kv_pairs(),
                it.seq().no_duplicates(),
                forall|c: (int, int, int)|
                    done.contains(c) <==> exists|i: int|
                        0 <= i < it.index() && c == unpack(#[trigger] full[i].0 as int),
                self@ == before.union_prefer_right(collected(*chunk_map, done, origin, 0)),
        {
            let (key, chunk) = entry;
            let ghost index = it.index();
            proof {
                assert(full[index] == (*key, *chunk));
                assert(full.to_set().contains(full[index]));
                assert(chunk_map.map@.kv_pairs().contains((*key, *chunk)));
                assert(chunk_map.map@.contains_key(*key));
                lemma_pack_unpack(*key as int);
            }
            let (cx, cy, cz) = unpack_key(*key);
            let chunk_pos = IVec3::new(cx, cy, cz);
            let ghost current = chunk_pos@;
            let base = config.chunk_origin(chunk_pos);
            proof {
                assert(pack(current) as u128 == *key);
                assert(chunk_map@.contains_key(current));
                assert(chunk_map@[current] == chunk@);
                lemma_collected_chunk(*chunk_map, done, origin, current);
                assert(collected(*chunk_map, done, origin, 0) =~= collected(
                    *chunk_map,
                    done,
                    current,
                    0,
                ));
                config.lemma_area_bounds();
            }
            let voxels = chunk.voxels();
            let mut i: usize = 0;
            while i < voxels.len()
                invariant
                    self.wf(),
                    chunk_map.wf(),
                    config == chunk_map.cfg(),
                    chunk.wf(),
                    chunk.cfg() == config,
                    voxels@ == chunk@,
                    0 <= i <= voxels@.len(),
                    voxels@.len() == config.volume(),
                    config.volume() <= i32::MAX,
                    current == chunk_pos@,
                    config.chunk_in_range(current),
                    base@ == config.world_coord(current, 0, 0, 0),
                    chunk_map@.contains_key(current),
                    chunk_map@[current] == chunk@,
                    self@ == before.union_prefer_right(
                        collected(*chunk_map, done, current, i as int),
                    ),
                decreases voxels.len() - i,
            {
                let voxel: Voxel = voxels[i];
                let (x, y, z) = config.decode(voxel.id);
                let wx: i32 = base.x + x;
                let wy: i32 = base.y + y;
                let wz: i32 = base.z + z;
                let world_key = pack_key(wx, wy, wz);
                proof {
                    let w = (wx as int, wy as int, wz as int);
                    lemma_unpack_pack(w);
                    lemma_coord_map_insert(self.map@, w, voxel);
                    lemma_collected_step(*chunk_map, done, current, i as int);
                    assert(w == config.world_coord(current, x as int, y as int, z as int));
                }
                let ghost prev = self@;
                self.map.insert(world_key, voxel);
                proof {
                    let w = (wx as int, wy as int, wz as int);
                    assert(self@ == prev.insert(w, voxel));
                    assert(self@ =~= before.union_prefer_right(
                        collected(*chunk_map, done, current, i + 1),
                    ));
                }
                i = i + 1;
            }
            proof {
                lemma_collected_chunk(*chunk_map, done, current, origin);
                let ghost grown = done.insert(current);
                assert forall|c: (int, int, int)|
                    grown.contains(c) <==> exists|j: int|
                        0 <= j < index + 1 && c == unpack(#[trigger] full[j].0 as int) by {
                    if grown.contains(c) {
                        if c == current {
                            assert(c == unpack(full[index].0 as int));
                        } else {
                            let j = choose|j: int|
                                0 <= j < index && c == unpack(#[trigger] full[j].0 as int);
                            assert(0 <= j < index + 1);
                        }
                    }
                    if exists|j: int|
                        0 <= j < index + 1 && c == unpack(#[trigger] full[j].0 as int) {
                        let j = choose|j: int|
                            0 <= j < index + 1 && c == unpack(#[trigger] full[j].0 as int);
                        if j < index {
                            assert(done.contains(c));
                        }
                    }
                }
                done = grown;
            }
        }
        proof {
            assert forall|c: (int, int, int)| chunk_map@.contains_key(c) implies done.contains(
                c,
            ) by {
                let k = pack(c) as u128;
                lemma_unpack_pack(c);
                let pair = (k, chunk_map.map@[k]);
                assert(chunk_map.map@.kv_pairs().contains(pair));
                assert(full.to_set().contains(pair));
                let j = choose|j: int| 0 <= j < full.len() && full[j] == pair;
                assert(c == unpack(full[j].0 as int));
            }
            lemma_collected_all(*chunk_map, done, origin);
        }
    }
}

/// One row for each voxel of the chunks of `chunk_map`: its world coordinate
/// and whether it is solid. The rows come in the order in which the lookup
/// hands the voxels out.
pub fn collect_terrain_data(chunk_map: &ChunkMap) -> (rows: Vec<(i32, i32, i32, bool)>)
    requires
        chunk_map.wf(),
    ensures
        exists|order: Seq<(int, int, int)>| #[trigger]
            enumerates(order, chunk_map.world_view()) && rows@ == terrain_rows(
                chunk_map.world_view(),
                order,
            ),
{
    let mut world = WorldMap::new();
    world.collect_voxels(chunk_map);
    proof {
        assert(world@ =~= chunk_map.world_view());
    }
    let mut rows: Vec<(i32, i32, i32, bool)> = Vec::new();
    let ghost full = spec_hash_map_iter(&world.map).remaining().unref();
    let ghost order = positions(full);
    for entry in it: world.map.iter()
        invariant
            world.wf(),
            it.seq().unref() == full,
            full.to_set() == world.map@.kv_pairs(),
            it.seq().no_duplicates(),
            order == positions(full),
            rows@ == terrain_rows(world@, order.take(it.index())),
    {
        let (key, voxel) = entry;
        let ghost index = it.index();
        proof {
            lemma_unref_no_duplicates(it.seq());
            lemma_positions_enumerate(world.map@, full);
            assert(full[index] == (*key, *voxel));
            assert(world@.contains_key(order[index]));
            assert(world.map@.contains_key(*key));
        }
        let (x, y, z) = unpack_key(*key);
        rows.push((x, y, z, voxel.is_solid));
        proof {
            assert(rows@ =~= terrain_rows(world@, order.take(index + 1)));
        }
    }
    proof {
        assert(order.take(order.len() as int) =~= order);
        lemma_unref_no_duplicates(spec_hash_map_iter(&world.map).remaining());
        lemma_positions_enumerate(world.map@, full);
        assert(enumerates(order, world@) && rows@ == terrain_rows(world@, order));
    }
    rows
}

} // verus!
