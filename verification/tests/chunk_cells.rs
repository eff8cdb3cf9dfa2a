use terrain_stream::chunk::{filter_origin_duplicates, isqrt, Biome, Cell, TerrainChunkState};

fn make_chunk(chunk_x: i32, chunk_z: i32, cells: usize) -> TerrainChunkState {
    TerrainChunkState {
        chunk_index: 0,
        chunk_x,
        chunk_z,
        dimension: 1,
        biomes: (0..cells as u32).collect(),
        biome_density: vec![0; cells],
        elevations: (0..cells as i16).collect(),
        water_levels: vec![0; cells],
        water_body_types: vec![0; cells],
        zoning_types: vec![0; cells],
        original_elevations: vec![0; cells],
    }
}

#[test]
fn isqrt_small_values() {
    assert_eq!(isqrt(0), 0);
    assert_eq!(isqrt(1), 1);
    assert_eq!(isqrt(15), 3);
    assert_eq!(isqrt(16), 4);
    assert_eq!(isqrt(17), 4);
    assert_eq!(isqrt(1024), 32);
}

#[test]
fn cells_round_trip_side_four() {
    // A 16-cell chunk decomposes into exactly 16 cells whose world
    // coordinates span [4 * chunk_x, 4 * chunk_x + 3] by
    // [4 * chunk_z, 4 * chunk_z + 3].
    let chunk = make_chunk(2, 3, 16);
    let cells = chunk.cells();
    assert_eq!(cells.len(), 16);
    for i in 0..4 {
        for j in 0..4 {
            let cell = cells[i * 4 + j];
            assert_eq!(cell.cell_x, 4 * 2 + i as i32);
            assert_eq!(cell.cell_z, 4 * 3 + j as i32);
            assert_eq!(cell.biome, (i * 4 + j) as u32);
            assert_eq!(cell.elevation, (i * 4 + j) as i16);
        }
    }
    let min_x = cells.iter().map(|c| c.cell_x).min().unwrap();
    let max_x = cells.iter().map(|c| c.cell_x).max().unwrap();
    let min_z = cells.iter().map(|c| c.cell_z).min().unwrap();
    let max_z = cells.iter().map(|c| c.cell_z).max().unwrap();
    assert_eq!((min_x, max_x), (8, 11));
    assert_eq!((min_z, max_z), (12, 15));
}

#[test]
fn cells_of_negative_chunk_coordinates() {
    let chunk = make_chunk(-1, -2, 16);
    let cells = chunk.cells();
    assert_eq!(cells.len(), 16);
    assert_eq!(cells[0].cell_x, -4);
    assert_eq!(cells[0].cell_z, -8);
    assert_eq!(cells[15].cell_x, -1);
    assert_eq!(cells[15].cell_z, -5);
}

#[test]
fn cells_reject_mismatched_arrays() {
    let mut chunk = make_chunk(0, 0, 16);
    chunk.elevations.pop();
    assert_eq!(chunk.cells().len(), 0);
}

#[test]
fn validate_accepts_square_consistent_chunk() {
    assert!(make_chunk(0, 0, 16).validate());
    assert!(make_chunk(5, -7, 1024).validate());
}

#[test]
fn validate_rejects_non_square_cell_count() {
    assert!(!make_chunk(0, 0, 15).validate());
}

#[test]
fn validate_rejects_mismatched_arrays() {
    let mut chunk = make_chunk(0, 0, 16);
    chunk.water_levels.push(0);
    assert!(!chunk.validate());
}

#[test]
fn filter_keeps_origin_chunk_only_as_first_entry() {
    let region = vec![
        make_chunk(0, 0, 4),
        make_chunk(1, 0, 4),
        make_chunk(0, 0, 4),
        make_chunk(0, 0, 4),
        make_chunk(2, 2, 4),
    ];
    let kept = filter_origin_duplicates(region);
    let coords: Vec<(i32, i32)> = kept.iter().map(|c| (c.chunk_x, c.chunk_z)).collect();
    assert_eq!(coords, vec![(0, 0), (1, 0), (2, 2)]);
}

#[test]
fn filter_drops_origin_chunk_that_is_not_first() {
    let region = vec![make_chunk(1, 0, 4), make_chunk(0, 0, 4)];
    let kept = filter_origin_duplicates(region);
    let coords: Vec<(i32, i32)> = kept.iter().map(|c| (c.chunk_x, c.chunk_z)).collect();
    assert_eq!(coords, vec![(1, 0)]);
}

#[test]
fn cell_is_a_plain_value() {
    let a = Cell { cell_x: 1, cell_z: 2, biome: 3, elevation: 4 };
    let b = a;
    assert_eq!(a, b);
    assert_ne!(a, Cell { cell_x: 0, cell_z: 2, biome: 3, elevation: 4 });
}

#[test]
fn biomes_are_distinct() {
    assert_eq!(Biome::Ocean, Biome::Ocean);
    assert_ne!(Biome::Ocean, Biome::Desert);
    assert_ne!(Biome::CalmForest, Biome::PineWoods);
}
