use voxel_world::block::{classify, BlockType, Chunk, Voxel};
use voxel_world::chunk_map::ChunkMap;
use voxel_world::grid::{IVec3, WorldConfig};
use voxel_world::terrain::HeightField;
use voxel_world::world_map::WorldMap;

/// A field over the columns from (x0, z0) on in which the column (wx, wz) has
/// the height 3 * wx - 2 * wz.
fn sloped_field(x0: i32, z0: i32, width: i32, depth: i32) -> HeightField {
    let mut heights = Vec::new();
    for wx in x0..x0 + width {
        for wz in z0..z0 + depth {
            heights.push(3 * wx - 2 * wz);
        }
    }
    HeightField::from_heights(x0, z0, width, depth, heights).unwrap()
}

fn flat_field(x0: i32, z0: i32, width: i32, depth: i32, height: i32) -> HeightField {
    let heights = vec![height; (width * depth) as usize];
    HeightField::from_heights(x0, z0, width, depth, heights).unwrap()
}

#[test]
fn new_world_is_empty_and_standard() {
    let world = ChunkMap::new();
    assert_eq!(world.config().chunk_size(), 32);
    assert_eq!(world.config().chunk_height(), 64);
    assert_eq!(world.config().sea_level(), 30);
    assert!(world.get_chunk(IVec3::new(0, 0, 0)).is_none());
    let _seed: u64 = world.seed();
}

#[test]
fn world_keeps_the_seed_it_was_given() {
    let world = ChunkMap::with_seed(0xDEAD_BEEF_0123_4567);
    assert_eq!(world.seed(), 0xDEAD_BEEF_0123_4567);
    assert_eq!(world.config().chunk_size(), 32);
    let config = WorldConfig::new(2, 2, 0).unwrap();
    let small = ChunkMap::with_config(42, config);
    assert_eq!(small.seed(), 42);
    assert_eq!(small.config().chunk_size(), 2);
    assert_eq!(small.config().chunk_height(), 2);
    assert_eq!(small.config().sea_level(), 0);
    assert!(small.get_chunk(IVec3::new(0, 0, 0)).is_none());
}

#[test]
fn height_field_needs_one_height_for_each_column() {
    assert!(HeightField::from_heights(0, 0, 2, 3, vec![0; 6]).is_some());
    assert!(HeightField::from_heights(0, 0, 2, 3, vec![0; 5]).is_none());
    assert!(HeightField::from_heights(0, 0, 2, 3, vec![0; 7]).is_none());
    assert!(HeightField::from_heights(0, 0, -1, 3, Vec::new()).is_none());
    assert!(HeightField::from_heights(0, 0, 3, -1, Vec::new()).is_none());
    assert!(HeightField::from_heights(5, -5, 0, 0, Vec::new()).is_some());
    assert!(HeightField::from_heights(5, -5, 0, 7, Vec::new()).is_some());
}

#[test]
fn height_field_finds_the_height_of_a_column() {
    let field = HeightField::from_heights(-1, 10, 2, 3, vec![1, 2, 3, 4, 5, 6]).unwrap();
    assert_eq!(field.height(-1, 10), Some(1));
    assert_eq!(field.height(-1, 11), Some(2));
    assert_eq!(field.height(-1, 12), Some(3));
    assert_eq!(field.height(0, 10), Some(4));
    assert_eq!(field.height(0, 11), Some(5));
    assert_eq!(field.height(0, 12), Some(6));
}

#[test]
fn height_field_finds_nothing_outside_its_rectangle() {
    let field = HeightField::from_heights(-1, 10, 2, 3, vec![1, 2, 3, 4, 5, 6]).unwrap();
    assert_eq!(field.height(-2, 10), None);
    assert_eq!(field.height(1, 10), None);
    assert_eq!(field.height(0, 9), None);
    assert_eq!(field.height(0, 13), None);
    assert_eq!(field.height(i32::MIN, i32::MAX), None);
    assert_eq!(field.height(i32::MAX, i32::MIN), None);
    let empty = HeightField::from_heights(0, 0, 0, 0, Vec::new()).unwrap();
    assert_eq!(empty.height(0, 0), None);
}

#[test]
fn chunk_heightmap_is_the_window_of_the_field() {
    let config = WorldConfig::new(2, 2, 0).unwrap();
    let mut world = ChunkMap::with_config(1, config);
    let field = sloped_field(-4, -4, 8, 8);
    // Chunk (1, 0, -2) holds the columns wx in 2..4 and wz in -4..-2.
    let heightmap = world.create_chunk_heightmap(IVec3::new(1, 0, -2), &field);
    assert_eq!(heightmap, vec![3 * 2 + 8, 3 * 2 + 6, 3 * 3 + 8, 3 * 3 + 6]);
    // The height of a chunk plays no part.
    let higher = world.create_chunk_heightmap(IVec3::new(1, 7, -2), &field);
    assert_eq!(higher, heightmap);
}

#[test]
fn chunk_voxels_follow_the_heightmap() {
    let config = WorldConfig::new(2, 3, 1).unwrap();
    let mut world = ChunkMap::with_config(1, config);
    // Local column (x, z) stands at index x * 2 + z.
    let heightmap = vec![0, 1, 2, -1];
    let voxels = world.create_chunk_voxels(IVec3::new(0, 0, 0), heightmap);
    assert_eq!(voxels.len(), 12);
    for (i, voxel) in voxels.iter().enumerate() {
        assert_eq!(voxel.id, i as i32);
        assert_eq!(voxel.is_solid, voxel.block_type != BlockType::Air);
    }
    let material = |x: i32, y: i32, z: i32| voxels[(x * 6 + y * 2 + z) as usize].block_type;
    // Column (0, 0) has its surface at 0.
    assert_eq!(material(0, 0, 0), BlockType::Grass);
    assert_eq!(material(0, 1, 0), BlockType::Water);
    assert_eq!(material(0, 2, 0), BlockType::Air);
    // Column (0, 1) has its surface at 1.
    assert_eq!(material(0, 0, 1), BlockType::Dirt);
    assert_eq!(material(0, 1, 1), BlockType::Grass);
    assert_eq!(material(0, 2, 1), BlockType::Air);
    // Column (1, 0) has its surface at 2.
    assert_eq!(material(1, 0, 0), BlockType::Dirt);
    assert_eq!(material(1, 1, 0), BlockType::Dirt);
    assert_eq!(material(1, 2, 0), BlockType::Grass);
    // Column (1, 1) has its surface at -1, below the chunk.
    assert_eq!(material(1, 0, 1), BlockType::Water);
    assert_eq!(material(1, 1, 1), BlockType::Water);
    assert_eq!(material(1, 2, 1), BlockType::Air);
}

#[test]
fn chunk_voxels_use_the_world_height_of_the_chunk() {
    let config = WorldConfig::new(1, 4, 30).unwrap();
    let mut world = ChunkMap::with_config(1, config);
    // One column with its surface at 43: the chunk at height 10 spans 40..44.
    let voxels = world.create_chunk_voxels(IVec3::new(0, 10, 0), vec![43]);
    let materials: Vec<BlockType> = voxels.iter().map(|v| v.block_type).collect();
    assert_eq!(
        materials,
        vec![BlockType::Snow, BlockType::Snow, BlockType::Snow, BlockType::Snow]
    );
    // The chunk at height 9 spans 36..40: dirt below the snow line.
    let voxels = world.create_chunk_voxels(IVec3::new(0, 9, 0), vec![43]);
    let materials: Vec<BlockType> = voxels.iter().map(|v| v.block_type).collect();
    assert_eq!(
        materials,
        vec![BlockType::Dirt, BlockType::Dirt, BlockType::Dirt, BlockType::Dirt]
    );
    // The chunk at height 8 spans 32..36: stone up to 33, dirt from 34.
    let voxels = world.create_chunk_voxels(IVec3::new(0, 8, 0), vec![43]);
    let materials: Vec<BlockType> = voxels.iter().map(|v| v.block_type).collect();
    assert_eq!(
        materials,
        vec![BlockType::Stone, BlockType::Stone, BlockType::Dirt, BlockType::Dirt]
    );
    // The chunk at height -1 spans -4..0: nothing is solid at or below zero.
    let voxels = world.create_chunk_voxels(IVec3::new(0, -1, 0), vec![43]);
    assert!(voxels.iter().all(|v| v.block_type == BlockType::Air && !v.is_solid));
}

#[test]
fn flat_chunk_of_width_two_and_height_two() {
    let config = WorldConfig::new(2, 2, 0).unwrap();
    let mut world = ChunkMap::with_config(7, config);
    let voxels = world.create_chunk_voxels(IVec3::new(0, 0, 0), vec![0, 0, 0, 0]);
    assert_eq!(voxels.len(), 8);
    for x in 0..2 {
        for z in 0..2 {
            let bottom = voxels[(x * 4 + z) as usize];
            let top = voxels[(x * 4 + 2 + z) as usize];
            assert_eq!(bottom, Voxel { id: x * 4 + z, is_solid: true, block_type: BlockType::Grass });
            assert_eq!(top, Voxel { id: x * 4 + 2 + z, is_solid: false, block_type: BlockType::Air });
        }
    }
}

#[test]
fn generated_chunk_holds_what_the_field_says() {
    let config = WorldConfig::new(2, 3, 1).unwrap();
    let mut world = ChunkMap::with_config(1, config);
    let field = sloped_field(-4, -4, 8, 8);
    let chunk = world.generate_chunk(IVec3::new(-1, 1, 1), &field);
    assert_eq!(chunk.get_size(), 12);
    for x in 0..2 {
        for y in 0..3 {
            for z in 0..2 {
                let (wx, wy, wz) = (-2 + x, 3 + y, 2 + z);
                let expected = Voxel::new(x * 6 + y * 2 + z, classify(wy, 3 * wx - 2 * wz, 1));
                assert_eq!(chunk.get_voxel(x, y, z), Some(&expected));
            }
        }
    }
    // Generating a chunk does not put it into the world.
    assert!(world.get_chunk(IVec3::new(-1, 1, 1)).is_none());
}

#[test]
fn inserted_chunk_is_found_again() {
    let config = WorldConfig::new(1, 1, 0).unwrap();
    let mut world = ChunkMap::with_config(3, config);
    let stone = Chunk::from_voxels(config, vec![Voxel::new(0, BlockType::Stone)]).unwrap();
    let snow = Chunk::from_voxels(config, vec![Voxel::new(0, BlockType::Snow)]).unwrap();
    let dirt = Chunk::from_voxels(config, vec![Voxel::new(0, BlockType::Dirt)]).unwrap();
    world.insert_chunk(IVec3::new(1, 2, 3), stone);
    world.insert_chunk(IVec3::new(3, 2, 1), snow);
    world.insert_chunk(IVec3::new(-1, i32::MAX - 1, i32::MIN + 1), dirt);
    assert_eq!(world.get_chunk(IVec3::new(1, 2, 3)).unwrap().voxels()[0].block_type, BlockType::Stone);
    assert_eq!(world.get_chunk(IVec3::new(3, 2, 1)).unwrap().voxels()[0].block_type, BlockType::Snow);
    assert_eq!(
        world.get_chunk(IVec3::new(-1, i32::MAX - 1, i32::MIN + 1)).unwrap().voxels()[0].block_type,
        BlockType::Dirt
    );
    assert!(world.get_chunk(IVec3::new(1, 3, 2)).is_none());
    assert!(world.get_chunk(IVec3::new(0, 0, 0)).is_none());
    assert_eq!(world.seed(), 3);
}

#[test]
fn inserting_again_replaces_the_chunk() {
    let config = WorldConfig::new(1, 1, 0).unwrap();
    let mut world = ChunkMap::with_config(3, config);
    let stone = Chunk::from_voxels(config, vec![Voxel::new(0, BlockType::Stone)]).unwrap();
    let snow = Chunk::from_voxels(config, vec![Voxel::new(0, BlockType::Snow)]).unwrap();
    world.insert_chunk(IVec3::new(0, 0, 0), stone);
    world.insert_chunk(IVec3::new(0, 0, 0), snow);
    assert_eq!(world.get_chunk(IVec3::new(0, 0, 0)).unwrap().voxels()[0].block_type, BlockType::Snow);
}

#[test]
fn terrain_fills_every_chunk_of_the_extent() {
    let config = WorldConfig::new(2, 2, 3).unwrap();
    let mut world = ChunkMap::with_config(11, config);
    let field = sloped_field(0, 0, 6, 4);
    let size = IVec3::new(3, 2, 2);
    assert!(world.can_generate(size, &field));
    let solid = world.generate_terrain(size, &field);
    let mut expected_solid = 0;
    for wx in 0..6 {
        for wy in 0..4 {
            for wz in 0..4 {
                if classify(wy, 3 * wx - 2 * wz, 3) != BlockType::Air {
                    expected_solid += 1;
                }
            }
        }
    }
    assert_eq!(solid, expected_solid);
    for cx in -1..5 {
        for cy in -1..4 {
            for cz in -1..4 {
                let inside = 0 <= cx && cx < 3 && 0 <= cy && cy < 2 && 0 <= cz && cz < 2;
                assert_eq!(world.get_chunk(IVec3::new(cx, cy, cz)).is_some(), inside);
            }
        }
    }
    for cx in 0..3 {
        for cy in 0..2 {
            for cz in 0..2 {
                let chunk = world.get_chunk(IVec3::new(cx, cy, cz)).unwrap();
                for x in 0..2 {
                    for y in 0..2 {
                        for z in 0..2 {
                            let (wx, wy, wz) = (cx * 2 + x, cy * 2 + y, cz * 2 + z);
                            let expected =
                                Voxel::new(x * 4 + y * 2 + z, classify(wy, 3 * wx - 2 * wz, 3));
                            assert_eq!(chunk.get_voxel(x, y, z), Some(&expected));
                        }
                    }
                }
            }
        }
    }
    assert_eq!(world.seed(), 11);
}

#[test]
fn terrain_of_an_empty_extent_changes_nothing() {
    let config = WorldConfig::new(2, 2, 3).unwrap();
    let mut world = ChunkMap::with_config(11, config);
    let field = HeightField::from_heights(0, 0, 0, 0, Vec::new()).unwrap();
    for size in [IVec3::new(0, 1, 1), IVec3::new(1, 0, 1), IVec3::new(1, 1, 0), IVec3::new(-3, 5, 5)] {
        assert!(world.can_generate(size, &field));
        assert_eq!(world.generate_terrain(size, &field), 0);
        assert!(world.get_chunk(IVec3::new(0, 0, 0)).is_none());
    }
}

#[test]
fn terrain_leaves_other_chunks_alone_and_replaces_those_inside() {
    let config = WorldConfig::new(1, 1, 0).unwrap();
    let mut world = ChunkMap::with_config(11, config);
    let snow = Chunk::from_voxels(config, vec![Voxel::new(0, BlockType::Snow)]).unwrap();
    let water = Chunk::from_voxels(config, vec![Voxel::new(0, BlockType::Water)]).unwrap();
    world.insert_chunk(IVec3::new(5, 5, 5), snow);
    world.insert_chunk(IVec3::new(0, 0, 0), water);
    let field = flat_field(0, 0, 2, 2, 0);
    // Four chunks of one voxel of grass each; the chunks that were there do not count.
    assert_eq!(world.generate_terrain(IVec3::new(2, 1, 2), &field), 4);
    assert_eq!(world.get_chunk(IVec3::new(5, 5, 5)).unwrap().voxels()[0].block_type, BlockType::Snow);
    assert_eq!(world.get_chunk(IVec3::new(0, 0, 0)).unwrap().voxels()[0].block_type, BlockType::Grass);
    assert_eq!(world.get_chunk(IVec3::new(1, 0, 1)).unwrap().voxels()[0].block_type, BlockType::Grass);
}

#[test]
fn terrain_cannot_be_generated_beyond_the_field() {
    let config = WorldConfig::new(2, 2, 3).unwrap();
    let world = ChunkMap::with_config(11, config);
    let field = sloped_field(0, 0, 6, 4);
    assert!(world.can_generate(IVec3::new(3, 1, 2), &field));
    assert!(world.can_generate(IVec3::new(3, 1000, 2), &field));
    assert!(!world.can_generate(IVec3::new(4, 1, 2), &field));
    assert!(!world.can_generate(IVec3::new(3, 1, 3), &field));
    // A field that starts behind the origin misses the first column.
    let late = sloped_field(1, 0, 6, 4);
    assert!(!world.can_generate(IVec3::new(1, 1, 1), &late));
    // A field that starts before the origin holds it.
    let early = sloped_field(-3, -3, 9, 7);
    assert!(world.can_generate(IVec3::new(3, 1, 2), &early));
}

#[test]
fn terrain_cannot_be_generated_beyond_the_i32_range() {
    let config = WorldConfig::new(2, 2, 3).unwrap();
    let world = ChunkMap::with_config(11, config);
    let field = sloped_field(0, 0, 2, 2);
    // Chunk heights up to 1073741822 * 2 + 2 = i32::MAX - 1 fit, one more does not.
    assert!(world.can_generate(IVec3::new(1, 1073741823, 1), &field));
    assert!(!world.can_generate(IVec3::new(1, 1073741824, 1), &field));
    assert!(!world.can_generate(IVec3::new(1, i32::MAX, 1), &field));
}

#[test]
fn generating_twice_gives_the_same_world() {
    let config = WorldConfig::new(3, 4, 2).unwrap();
    let field = sloped_field(0, 0, 6, 6);
    let size = IVec3::new(2, 2, 2);
    let mut first = ChunkMap::with_config(5, config);
    let mut second = ChunkMap::with_config(5, config);
    first.generate_terrain(size, &field);
    second.generate_terrain(size, &field);
    second.generate_terrain(size, &field);
    for cx in 0..2 {
        for cy in 0..2 {
            for cz in 0..2 {
                let pos = IVec3::new(cx, cy, cz);
                let a = first.get_chunk(pos).unwrap();
                let b = second.get_chunk(pos).unwrap();
                assert_eq!(a.voxels(), b.voxels());
            }
        }
    }
    let mut a = WorldMap::new();
    a.collect_voxels(&first);
    let mut b = WorldMap::new();
    b.collect_voxels(&second);
    assert_eq!(a.len(), 2 * 2 * 2 * 36);
    assert_eq!(b.len(), a.len());
    for wx in 0..6 {
        for wy in 0..8 {
            for wz in 0..6 {
                assert_eq!(a.get_voxel(wx, wy, wz), b.get_voxel(wx, wy, wz));
            }
        }
    }
}

#[test]
fn terrain_does_not_depend_on_the_chunk_dimensions() {
    let field = sloped_field(0, 0, 12, 12);
    let small = WorldConfig::new(2, 3, 4).unwrap();
    let large = WorldConfig::new(6, 4, 4).unwrap();
    let mut fine = ChunkMap::with_config(5, small);
    let mut coarse = ChunkMap::with_config(5, large);
    fine.generate_terrain(IVec3::new(6, 4, 6), &field);
    coarse.generate_terrain(IVec3::new(2, 3, 2), &field);
    let mut a = WorldMap::new();
    a.collect_voxels(&fine);
    let mut b = WorldMap::new();
    b.collect_voxels(&coarse);
    for wx in 0..12 {
        for wy in 0..12 {
            for wz in 0..12 {
                let va = a.get_voxel(wx, wy, wz).unwrap();
                let vb = b.get_voxel(wx, wy, wz).unwrap();
                let expected = classify(wy, 3 * wx - 2 * wz, 4);
                assert_eq!(va.block_type, expected);
                assert_eq!(vb.block_type, expected);
                assert_eq!(va.is_solid, vb.is_solid);
            }
        }
    }
}

#[test]
fn heights_do_not_depend_on_the_chunk_dimensions() {
    let field = sloped_field(0, 0, 12, 12);
    let mut fine = ChunkMap::with_config(5, WorldConfig::new(2, 3, 4).unwrap());
    let mut coarse = ChunkMap::with_config(5, WorldConfig::new(6, 4, 4).unwrap());
    for wx in 0..12 {
        for wz in 0..12 {
            let a = fine.create_chunk_heightmap(IVec3::new(wx / 2, 0, wz / 2), &field);
            let b = coarse.create_chunk_heightmap(IVec3::new(wx / 6, 0, wz / 6), &field);
            let ha = a[((wx % 2) * 2 + wz % 2) as usize];
            let hb = b[((wx % 6) * 6 + wz % 6) as usize];
            assert_eq!(ha, 3 * wx - 2 * wz);
            assert_eq!(hb, ha);
            assert_eq!(field.height(wx, wz), Some(ha));
        }
    }
}

#[test]
fn world_map_puts_local_coordinates_into_the_world() {
    let config = WorldConfig::new(2, 3, 0).unwrap();
    let mut world = ChunkMap::with_config(1, config);
    let mut voxels = Vec::new();
    for id in 0..12 {
        voxels.push(Voxel::new(id, BlockType::Air));
    }
    // Local (1, 2, 0) has the id 10.
    voxels[10] = Voxel::new(10, BlockType::Snow);
    world.insert_chunk(IVec3::new(3, -2, -1), Chunk::from_voxels(config, voxels).unwrap());
    let mut lookup = WorldMap::new();
    assert_eq!(lookup.len(), 0);
    lookup.collect_voxels(&world);
    assert_eq!(lookup.len(), 12);
    // World coordinate: (3 * 2 + 1, -2 * 3 + 2, -1 * 2 + 0).
    assert_eq!(lookup.get_voxel(7, -4, -2), Some(&Voxel::new(10, BlockType::Snow)));
    for x in 0..2 {
        for y in 0..3 {
            for z in 0..2 {
                let voxel = lookup.get_voxel(6 + x, -6 + y, -2 + z).unwrap();
                assert_eq!(voxel.id, x * 6 + y * 2 + z);
            }
        }
    }
    assert_eq!(lookup.get_voxel(5, -6, -2), None);
    assert_eq!(lookup.get_voxel(8, -6, -2), None);
    assert_eq!(lookup.get_voxel(6, -7, -2), None);
    assert_eq!(lookup.get_voxel(6, -3, -2), None);
    assert_eq!(lookup.get_voxel(6, -6, -3), None);
    assert_eq!(lookup.get_voxel(6, -6, 0), None);
    assert_eq!(lookup.get_voxel(0, 0, 0), None);
}

#[test]
fn world_map_takes_in_every_chunk_and_replaces_what_it_held() {
    let config = WorldConfig::new(1, 1, 0).unwrap();
    let mut first = ChunkMap::with_config(1, config);
    let mut second = ChunkMap::with_config(1, config);
    for (i, material) in [BlockType::Stone, BlockType::Dirt, BlockType::Grass].into_iter().enumerate() {
        let chunk = Chunk::from_voxels(config, vec![Voxel::new(0, material)]).unwrap();
        first.insert_chunk(IVec3::new(i as i32, 0, 0), chunk);
    }
    let water = Chunk::from_voxels(config, vec![Voxel::new(0, BlockType::Water)]).unwrap();
    let snow = Chunk::from_voxels(config, vec![Voxel::new(0, BlockType::Snow)]).unwrap();
    second.insert_chunk(IVec3::new(1, 0, 0), water);
    second.insert_chunk(IVec3::new(0, 9, 0), snow);
    let mut lookup = WorldMap::new();
    lookup.collect_voxels(&first);
    assert_eq!(lookup.len(), 3);
    lookup.collect_voxels(&second);
    assert_eq!(lookup.len(), 4);
    assert_eq!(lookup.get_voxel(0, 0, 0).unwrap().block_type, BlockType::Stone);
    assert_eq!(lookup.get_voxel(1, 0, 0).unwrap().block_type, BlockType::Water);
    assert_eq!(lookup.get_voxel(2, 0, 0).unwrap().block_type, BlockType::Grass);
    assert_eq!(lookup.get_voxel(0, 9, 0).unwrap().block_type, BlockType::Snow);
}

#[test]
fn world_map_reaches_the_ends_of_the_i32_range() {
    let config = WorldConfig::new(1, 1, 0).unwrap();
    let mut world = ChunkMap::with_config(1, config);
    let far = IVec3::new(i32::MAX - 1, i32::MIN + 1, i32::MAX - 1);
    assert!(config.contains_chunk(far));
    let chunk = Chunk::from_voxels(config, vec![Voxel::new(0, BlockType::Stone)]).unwrap();
    world.insert_chunk(far, chunk);
    let mut lookup = WorldMap::new();
    lookup.collect_voxels(&world);
    assert_eq!(
        lookup.get_voxel(i32::MAX - 1, i32::MIN + 1, i32::MAX - 1),
        Some(&Voxel::new(0, BlockType::Stone))
    );
    assert_eq!(lookup.get_voxel(i32::MAX, i32::MIN + 1, i32::MAX - 1), None);
    assert_eq!(lookup.get_voxel(i32::MAX - 1, i32::MIN, i32::MAX - 1), None);
    assert_eq!(lookup.get_voxel(i32::MIN + 1, i32::MAX - 1, i32::MIN + 1), None);
}

#[test]
fn terrain_counts_the_solid_voxels_it_generated() {
    let config = WorldConfig::new(2, 2, 0).unwrap();
    let mut world = ChunkMap::with_config(7, config);
    // Surface at 0 and sea level 0: the lower layer is grass, the upper air.
    let field = flat_field(0, 0, 4, 2, 0);
    assert_eq!(world.generate_terrain(IVec3::new(2, 1, 1), &field), 8);
    // Surface at 5, above both layers: dirt throughout.
    let high = flat_field(0, 0, 4, 2, 5);
    assert_eq!(world.generate_terrain(IVec3::new(2, 1, 1), &high), 16);
    // Surface at 50: the layer at zero lies below the dirt and is air.
    let higher = flat_field(0, 0, 4, 2, 50);
    assert_eq!(world.generate_terrain(IVec3::new(2, 1, 1), &higher), 8);
    // Surface at -1 and sea level 0: water at height zero, air above.
    let low = flat_field(0, 0, 4, 2, -1);
    assert_eq!(world.generate_terrain(IVec3::new(2, 1, 1), &low), 8);
}
