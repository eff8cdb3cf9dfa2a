use terrain_stream::chunk::TerrainChunkState;
use terrain_stream::world_data::WorldData;

fn make_chunk(chunk_x: i32, chunk_z: i32, chunk_index: u64) -> TerrainChunkState {
    TerrainChunkState {
        chunk_index,
        chunk_x,
        chunk_z,
        dimension: 1,
        biomes: vec![0; 16],
        biome_density: vec![0; 16],
        elevations: vec![0; 16],
        water_levels: vec![0; 16],
        water_body_types: vec![0; 16],
        zoning_types: vec![0; 16],
        original_elevations: vec![0; 16],
    }
}

#[test]
fn empty_index_has_sentinel_bounds() {
    let world = WorldData::new();
    assert_eq!(world.bounds, (i32::MAX, i32::MIN, i32::MAX, i32::MIN));
    assert_eq!(world.center_offset, (0, 0));
    assert!(world.get_chunk(0, 0).is_none());
}

#[test]
fn add_region_tracks_exact_bounds() {
    let mut world = WorldData::new();
    world.add_region(vec![make_chunk(-2, 3, 0), make_chunk(4, -1, 1)]);
    assert_eq!(world.bounds, (-2, 4, -1, 3));
}

#[test]
fn add_region_overwrites_duplicate_coordinates() {
    let mut world = WorldData::new();
    world.add_region(vec![make_chunk(5, 5, 10), make_chunk(5, 5, 20)]);
    let hit = world.get_chunk(5, 5).expect("coordinate must be present");
    assert_eq!(hit.chunk_index, 20);
    world.add_region(vec![make_chunk(5, 5, 30)]);
    let hit = world.get_chunk(5, 5).expect("coordinate must be present");
    assert_eq!(hit.chunk_index, 30);
}

#[test]
fn finalize_computes_center_offset() {
    let mut world = WorldData::new();
    world.add_region(vec![make_chunk(-2, 3, 0), make_chunk(4, -1, 1)]);
    world.finalize();
    // Midpoint of chunk bounds, in world units of 416 per chunk:
    // ((-2 + 4) / 2) * 416 = 416 on x, ((-1 + 3) / 2) * 416 = 416 on z.
    assert_eq!(world.center_offset, (416, 416));
    assert!(world.finalized);
}

#[test]
fn finalize_of_empty_world_keeps_zero_offset() {
    let mut world = WorldData::new();
    world.finalize();
    assert_eq!(world.center_offset, (0, 0));
}

#[test]
fn get_chunk_hit_and_miss() {
    let mut world = WorldData::new();
    world.add_region(vec![make_chunk(1, 2, 7)]);
    assert_eq!(world.get_chunk(1, 2).unwrap().chunk_index, 7);
    assert!(world.get_chunk(2, 1).is_none());
}

#[test]
fn radius_query_uses_manhattan_chunk_distance() {
    let mut world = WorldData::new();
    world.add_region(vec![make_chunk(0, 0, 0), make_chunk(1, 0, 1), make_chunk(5, 5, 2)]);
    world.finalize();
    // Bounds (0, 5, 0, 5) put the center offset at (1040, 1040); a camera
    // at (-1040, -1040) sits on chunk (0, 0). A 416-unit radius is one
    // chunk unit: chunks (0, 0) and (1, 0) are within it, (5, 5) is not.
    let hits = world.get_chunks_in_radius((-1040, -1040), 416);
    let coords: Vec<(i32, i32)> = hits.iter().map(|c| (c.chunk_x, c.chunk_z)).collect();
    assert_eq!(coords, vec![(0, 0), (1, 0)]);
}

#[test]
fn viewport_query_selects_rectangle() {
    let mut world = WorldData::new();
    world.add_region(vec![make_chunk(0, 0, 0), make_chunk(1, 0, 1), make_chunk(5, 5, 2)]);
    world.finalize();
    // One-chunk viewport around chunk (0, 0), padded by 3 chunk units on
    // each side: the rectangle reaches out to coordinate 3, so (5, 5)
    // stays out.
    let hits = world.get_chunks_in_viewport((-1040, -1040), 416, 416);
    let coords: Vec<(i32, i32)> = hits.iter().map(|c| (c.chunk_x, c.chunk_z)).collect();
    assert_eq!(coords, vec![(0, 0), (1, 0)]);
}

#[test]
fn viewport_query_of_zero_extent_still_pads() {
    let mut world = WorldData::new();
    world.add_region(vec![make_chunk(0, 0, 0), make_chunk(3, 0, 1), make_chunk(4, 0, 2)]);
    world.finalize();
    // Bounds (0, 4, 0, 0) put the center offset at (832, 0), so a camera
    // at the local origin sits on chunk 2. A zero-extent viewport spans
    // no chunks of its own and the padding of 3 alone remains: the
    // rectangle covers x in [-1, 5], holding all three chunks.
    let hits = world.get_chunks_in_viewport((0, 0), 0, 0);
    assert_eq!(hits.len(), 3);
}
