use terrain_stream::chunk::TerrainChunkState;
use terrain_stream::dynamic_chunks::{update_dynamic_chunks, SpawnedChunks};
use terrain_stream::viewport::{
    ceil_div, compute_viewport_rect, floor_div, ViewportConfig, ViewportPose,
};
use terrain_stream::world_data::WorldData;

fn make_chunk(chunk_x: i32, chunk_z: i32) -> TerrainChunkState {
    TerrainChunkState {
        chunk_index: 0,
        chunk_x,
        chunk_z,
        dimension: 1,
        biomes: vec![0; 16],
        biome_density: vec![0; 16],
        elevations: vec![0; 16],
        water_levels: vec![0; 16],
        water_body_types: vec![0; 16],
        zoning_types: vec![0; 16],
        original_elevations: vec![0; 16],
    }
}

fn four_chunk_world() -> WorldData {
    let mut world = WorldData::new();
    world.add_region(vec![
        make_chunk(0, 0),
        make_chunk(1, 0),
        make_chunk(0, 1),
        make_chunk(1, 1),
    ]);
    world.finalize();
    world
}

fn pose(x: i64, z: i64, zoom: i64) -> ViewportPose {
    ViewportPose { x, z, zoom }
}

#[test]
fn division_rounding() {
    assert_eq!(floor_div(-7, 2), -4);
    assert_eq!(floor_div(7, 2), 3);
    assert_eq!(floor_div(-8, 2), -4);
    assert_eq!(ceil_div(7, 2), 4);
    assert_eq!(ceil_div(-7, 2), -3);
    assert_eq!(ceil_div(8, 2), 4);
}

#[test]
fn config_rejects_invalid_knobs() {
    assert!(ViewportConfig::new(1000, 25, 0, 100, 50).is_none());
    assert!(ViewportConfig::new(1000, 25, 3, -1, 50).is_none());
    assert!(ViewportConfig::new(0, 25, 3, 100, 50).is_none());
    assert!(ViewportConfig::new(1000, 25, 3, 100, 0).is_none());
    let cfg = ViewportConfig::new(1000, 25, 3, 100, 50).expect("valid configuration");
    assert_eq!(cfg, ViewportConfig::default());
}

#[test]
fn pose_bounds_gate() {
    assert!(pose(0, 0, 1).in_bounds());
    assert!(!pose(0, 0, 0).in_bounds());
    assert!(!pose(2_000_000_000, 0, 1000).in_bounds());
}

#[test]
fn four_chunk_scenario_spawns_all() {
    // A 2-by-2 world, a camera at its local origin: the viewport
    // rectangle clamps to (0,0)-(1,1) and the first tick over an empty
    // active set spawns exactly the four chunks and despawns nothing.
    let world = four_chunk_world();
    let cfg = ViewportConfig::default();
    let mut state = SpawnedChunks::new();
    let tick = update_dynamic_chunks(&world, &cfg, &mut state, &pose(0, 0, 1000));
    assert!(tick.recomputed);
    assert_eq!(tick.spawned.len(), 4);
    assert_eq!(tick.despawned.len(), 0);
    let mut active = state.chunks.clone();
    active.sort();
    assert_eq!(active, vec![(0, 0), (0, 1), (1, 0), (1, 1)]);
}

#[test]
fn movement_hysteresis_thresholds() {
    // With a movement threshold of 100 world units, a 99-unit move must
    // not trigger a recompute, a 101-unit move must.
    let world = four_chunk_world();
    let cfg = ViewportConfig::default();
    let mut state = SpawnedChunks::new();
    let first = update_dynamic_chunks(&world, &cfg, &mut state, &pose(0, 0, 1000));
    assert!(first.recomputed);

    let small = update_dynamic_chunks(&world, &cfg, &mut state, &pose(99, 0, 1000));
    assert!(!small.recomputed);
    assert_eq!(small.spawned.len(), 0);
    assert_eq!(small.despawned.len(), 0);

    let large = update_dynamic_chunks(&world, &cfg, &mut state, &pose(101, 0, 1000));
    assert!(large.recomputed);
}

#[test]
fn zoom_hysteresis_thresholds() {
    // The zoom threshold of 0.05 is 50 fixed-point units: a change of 50
    // stays put, a change of 51 triggers.
    let world = four_chunk_world();
    let cfg = ViewportConfig::default();
    let mut state = SpawnedChunks::new();
    assert!(update_dynamic_chunks(&world, &cfg, &mut state, &pose(0, 0, 1000)).recomputed);
    assert!(!update_dynamic_chunks(&world, &cfg, &mut state, &pose(0, 0, 1050)).recomputed);
    assert!(update_dynamic_chunks(&world, &cfg, &mut state, &pose(0, 0, 1051)).recomputed);
}

#[test]
fn thresholds_measured_from_last_recompute() {
    // Two 60-unit moves in a row: neither alone crosses the threshold
    // from the last recompute at the origin, until the accumulated
    // distance does.
    let world = four_chunk_world();
    let cfg = ViewportConfig::default();
    let mut state = SpawnedChunks::new();
    assert!(update_dynamic_chunks(&world, &cfg, &mut state, &pose(0, 0, 1000)).recomputed);
    assert!(!update_dynamic_chunks(&world, &cfg, &mut state, &pose(60, 0, 1000)).recomputed);
    // 120 units from the origin, where the last recompute happened.
    assert!(update_dynamic_chunks(&world, &cfg, &mut state, &pose(120, 0, 1000)).recomputed);
}

#[test]
fn recompute_with_unchanged_candidates_is_a_no_op() {
    // A move beyond the threshold that leaves the clamped rectangle
    // unchanged recomputes but emits no instructions: reconciliation of
    // identical candidate sets changes nothing.
    let world = four_chunk_world();
    let cfg = ViewportConfig::default();
    let mut state = SpawnedChunks::new();
    assert!(update_dynamic_chunks(&world, &cfg, &mut state, &pose(0, 0, 1000)).recomputed);
    let tick = update_dynamic_chunks(&world, &cfg, &mut state, &pose(200, 0, 1000));
    assert!(tick.recomputed);
    assert_eq!(tick.spawned.len(), 0);
    assert_eq!(tick.despawned.len(), 0);
    assert_eq!(state.chunks.len(), 4);
}

#[test]
fn conservation_of_active_set_size() {
    // |spawned| - |despawned| equals the change of the active set's size
    // on every recomputing tick.
    let world = four_chunk_world();
    let cfg = ViewportConfig::default();
    let mut state = SpawnedChunks::new();

    let before = state.chunks.len() as i64;
    let tick = update_dynamic_chunks(&world, &cfg, &mut state, &pose(0, 0, 1000));
    let after = state.chunks.len() as i64;
    assert_eq!(tick.spawned.len() as i64 - tick.despawned.len() as i64, after - before);

    // A camera far outside the world collapses the rectangle onto the
    // nearest corner: one candidate stays, three chunks despawn.
    let before = after;
    let tick = update_dynamic_chunks(&world, &cfg, &mut state, &pose(1_000_000_000, 1_000_000_000, 1000));
    let after = state.chunks.len() as i64;
    assert!(tick.recomputed);
    assert_eq!(tick.spawned.len(), 0);
    assert_eq!(tick.despawned.len(), 3);
    assert_eq!(tick.spawned.len() as i64 - tick.despawned.len() as i64, after - before);
    assert_eq!(state.chunks, vec![(1, 1)]);
}

#[test]
fn camera_outside_world_collapses_rectangle() {
    let cfg = ViewportConfig::default();
    let rect = compute_viewport_rect(&cfg, &pose(1_000_000_000, 0, 1000), (0, 1, 0, 1), (208, 208));
    assert_eq!(rect.min_x, 1);
    assert_eq!(rect.max_x, 1);
    assert!(rect.min_z <= rect.max_z);
    assert_eq!((rect.min_z, rect.max_z), (0, 1));
}

#[test]
fn rectangle_grows_with_zoom() {
    // Doubling the zoom at a fixed position can only widen the
    // rectangle on each axis.
    let cfg = ViewportConfig::default();
    let bounds = (-100, 100, -100, 100);
    let offset = (0, 0);
    let narrow = compute_viewport_rect(&cfg, &pose(5000, -3000, 1000), bounds, offset);
    let wide = compute_viewport_rect(&cfg, &pose(5000, -3000, 2000), bounds, offset);
    assert!(wide.min_x <= narrow.min_x);
    assert!(narrow.max_x <= wide.max_x);
    assert!(wide.min_z <= narrow.min_z);
    assert!(narrow.max_z <= wide.max_z);
}

#[test]
fn sparse_world_holes_are_skipped() {
    // A hole inside the rectangle is not an error: only loaded chunks
    // are candidates.
    let mut world = WorldData::new();
    world.add_region(vec![make_chunk(0, 0), make_chunk(1, 1)]);
    world.finalize();
    let cfg = ViewportConfig::default();
    let mut state = SpawnedChunks::new();
    let tick = update_dynamic_chunks(&world, &cfg, &mut state, &pose(0, 0, 1000));
    assert!(tick.recomputed);
    assert_eq!(tick.spawned.len(), 2);
    let mut active = state.chunks.clone();
    active.sort();
    assert_eq!(active, vec![(0, 0), (1, 1)]);
}

#[test]
fn empty_world_tick_spawns_nothing() {
    let mut world = WorldData::new();
    world.finalize();
    let cfg = ViewportConfig::default();
    let mut state = SpawnedChunks::new();
    let tick = update_dynamic_chunks(&world, &cfg, &mut state, &pose(0, 0, 1000));
    assert!(tick.recomputed);
    assert_eq!(tick.spawned.len(), 0);
    assert_eq!(tick.despawned.len(), 0);
    assert_eq!(state.chunks.len(), 0);
}

#[test]
fn default_tracker_is_empty_and_unset() {
    let state = SpawnedChunks::default();
    assert_eq!(state.chunks.len(), 0);
    assert!(state.last_pose.is_none());
}
