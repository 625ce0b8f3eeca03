use voxel_world::grid::{
    axis_in_range, axis_origin, IVec3, WorldConfig, CHUNK_HEIGHT, CHUNK_SIZE, DIRT_DEPTH,
    SEA_LEVEL, SNOW_LINE,
};

#[test]
fn constants_have_the_documented_values() {
    assert_eq!(CHUNK_SIZE, 32);
    assert_eq!(CHUNK_HEIGHT, 64);
    assert_eq!(SEA_LEVEL, 30);
    assert_eq!(SNOW_LINE, 40);
    assert_eq!(DIRT_DEPTH, 10);
}

#[test]
fn standard_config_uses_the_constants() {
    let config = WorldConfig::standard();
    assert_eq!(config.chunk_size(), 32);
    assert_eq!(config.chunk_height(), 64);
    assert_eq!(config.sea_level(), 30);
    assert_eq!(config.chunk_volume(), 65536);
}

#[test]
fn config_rejects_dimensions_that_are_not_positive() {
    assert!(WorldConfig::new(0, 4, 0).is_none());
    assert!(WorldConfig::new(4, 0, 0).is_none());
    assert!(WorldConfig::new(-1, 4, 0).is_none());
    assert!(WorldConfig::new(4, -3, 0).is_none());
}

#[test]
fn config_rejects_a_chunk_with_more_voxels_than_an_i32_counts() {
    // 1291 * 1289 * 1291 = 2_148_351_809 > i32::MAX, 1290 * 1290 * 1290 = 2_146_689_000 fits.
    assert!(WorldConfig::new(1291, 1289, 0).is_none());
    assert!(WorldConfig::new(1290, 1290, 0).is_some());
    assert!(WorldConfig::new(i32::MAX, i32::MAX, 0).is_none());
    assert!(WorldConfig::new(46341, 1, 0).is_none());
    assert!(WorldConfig::new(46340, 1, 0).is_some());
    assert!(WorldConfig::new(1, i32::MAX, 0).is_some());
}

#[test]
fn config_keeps_what_it_was_made_with() {
    let config = WorldConfig::new(2, 5, -7).unwrap();
    assert_eq!(config.chunk_size(), 2);
    assert_eq!(config.chunk_height(), 5);
    assert_eq!(config.sea_level(), -7);
    assert_eq!(config.chunk_volume(), 20);
}

#[test]
fn encode_follows_the_formula() {
    let config = WorldConfig::new(4, 3, 0).unwrap();
    assert_eq!(config.encode(0, 0, 0), 0);
    assert_eq!(config.encode(0, 0, 1), 1);
    assert_eq!(config.encode(0, 1, 0), 4);
    assert_eq!(config.encode(1, 0, 0), 12);
    assert_eq!(config.encode(3, 2, 3), 47);
    let standard = WorldConfig::standard();
    assert_eq!(standard.encode(1, 2, 3), 2048 + 64 + 3);
    assert_eq!(standard.encode(31, 63, 31), 65535);
}

#[test]
fn decode_follows_the_formula() {
    let config = WorldConfig::new(4, 3, 0).unwrap();
    assert_eq!(config.decode(0), (0, 0, 0));
    assert_eq!(config.decode(1), (0, 0, 1));
    assert_eq!(config.decode(4), (0, 1, 0));
    assert_eq!(config.decode(12), (1, 0, 0));
    assert_eq!(config.decode(47), (3, 2, 3));
    let standard = WorldConfig::standard();
    assert_eq!(standard.decode(2115), (1, 2, 3));
}

#[test]
fn encode_then_decode_gives_the_coordinate_back() {
    let config = WorldConfig::new(4, 3, 0).unwrap();
    for x in 0..4 {
        for y in 0..3 {
            for z in 0..4 {
                let id = config.encode(x, y, z);
                assert_eq!(id, x * 12 + y * 4 + z);
                assert_eq!(config.decode(id), (x, y, z));
            }
        }
    }
}

#[test]
fn decode_then_encode_gives_the_id_back() {
    let config = WorldConfig::new(3, 5, 0).unwrap();
    for id in 0..config.chunk_volume() {
        let (x, y, z) = config.decode(id);
        assert!(config.contains_local(x, y, z));
        assert_eq!(config.encode(x, y, z), id);
    }
}

#[test]
fn local_coordinates_are_bounded_by_the_dimensions() {
    let config = WorldConfig::new(4, 3, 0).unwrap();
    assert!(config.contains_local(0, 0, 0));
    assert!(config.contains_local(3, 2, 3));
    assert!(!config.contains_local(4, 0, 0));
    assert!(!config.contains_local(0, 3, 0));
    assert!(!config.contains_local(0, 0, 4));
    assert!(!config.contains_local(-1, 0, 0));
    assert!(!config.contains_local(0, -1, 0));
    assert!(!config.contains_local(0, 0, -1));
}

#[test]
fn chunks_must_lie_strictly_inside_the_i32_range() {
    let config = WorldConfig::standard();
    assert!(config.contains_chunk(IVec3::new(0, 0, 0)));
    assert!(config.contains_chunk(IVec3::new(-5, 3, 7)));
    // 67108862 * 32 + 32 = 2147483616 <= i32::MAX, one more chunk does not fit.
    assert!(config.contains_chunk(IVec3::new(67108862, 0, 0)));
    assert!(!config.contains_chunk(IVec3::new(67108863, 0, 0)));
    // -67108863 * 32 = -2147483616 > i32::MIN, but -67108864 * 32 = i32::MIN.
    assert!(config.contains_chunk(IVec3::new(-67108863, 0, 0)));
    assert!(!config.contains_chunk(IVec3::new(-67108864, 0, 0)));
    assert!(!config.contains_chunk(IVec3::new(0, i32::MAX, 0)));
    assert!(!config.contains_chunk(IVec3::new(0, 0, i32::MIN)));
}

#[test]
fn axis_range_is_exact_at_both_ends() {
    assert!(axis_in_range(0, i32::MAX));
    assert!(!axis_in_range(1, i32::MAX));
    assert!(axis_in_range(-1, i32::MAX));
    assert!(!axis_in_range(-2, i32::MAX));
    assert!(axis_in_range(i32::MAX - 1, 1));
    assert!(!axis_in_range(i32::MAX, 1));
    assert!(axis_in_range(i32::MIN + 1, 1));
    assert!(!axis_in_range(i32::MIN, 1));
}

#[test]
fn chunk_origin_scales_the_chunk_coordinate() {
    let config = WorldConfig::new(4, 3, 0).unwrap();
    assert_eq!(config.chunk_origin(IVec3::new(0, 0, 0)), IVec3::new(0, 0, 0));
    assert_eq!(config.chunk_origin(IVec3::new(2, 5, -1)), IVec3::new(8, 15, -4));
    assert_eq!(axis_origin(-3, 32), -96);
}

#[test]
fn ivec3_holds_its_components() {
    let v = IVec3::new(1, -2, 3);
    assert_eq!(v.x, 1);
    assert_eq!(v.y, -2);
    assert_eq!(v.z, 3);
    assert_eq!(v, IVec3 { x: 1, y: -2, z: 3 });
    assert_ne!(v, IVec3::new(1, 2, 3));
}
