use geotile::Error;
use geotile::raster::Dataset;

fn dataset_4x4() -> Dataset {
    // Cell (x, y) holds the byte 16 * y + x, so every cell is distinct.
    let data: Vec<u8> = (0..16u8).map(|i| 16 * (i / 4) + i % 4).collect();
    Dataset::new(data, 4, 4).unwrap()
}

#[test]
fn new_accepts_exact_size() {
    let ds = Dataset::new(vec![7u8; 12], 4, 3).unwrap();
    assert_eq!(ds.x_dim, 4);
    assert_eq!(ds.y_dim, 3);
    assert_eq!(ds.data, vec![7u8; 12]);
}

#[test]
fn new_rejects_undersized_input() {
    assert!(matches!(Dataset::new(vec![7u8; 11], 4, 3), Err(Error::TruncatedInput)));
    assert!(matches!(Dataset::new(Vec::new(), 1, 1), Err(Error::TruncatedInput)));
}

#[test]
fn new_disregards_trailing_excess() {
    let ds = Dataset::new(vec![9u8; 20], 4, 3).unwrap();
    assert_eq!(ds.data.len(), 12);
    assert_eq!(ds.data, vec![9u8; 12]);
}

#[test]
fn to_tiles_counts_and_ranges() {
    // W = 4, H = 4, n = 2: tile_x = 2, tile_y = 2; column ranges [0, 2) and
    // [2, 4), row ranges [0, 2) and [2, 4); column-major enumeration.
    let ds = dataset_4x4();
    let tiles = ds.to_tiles(2).unwrap();
    assert_eq!(tiles.len(), 4);
    assert_eq!(tiles[0].x_range, (0, 2));
    assert_eq!(tiles[0].y_range, (0, 2));
    assert_eq!(tiles[1].x_range, (0, 2));
    assert_eq!(tiles[1].y_range, (2, 4));
    assert_eq!(tiles[2].x_range, (2, 4));
    assert_eq!(tiles[2].y_range, (0, 2));
    assert_eq!(tiles[3].x_range, (2, 4));
    assert_eq!(tiles[3].y_range, (2, 4));
}

#[test]
fn to_tiles_rejects_non_divisible_dimensions() {
    let ds = dataset_4x4();
    assert!(matches!(ds.to_tiles(3), Err(Error::NonDivisibleDimensions)));
    let ds2 = Dataset::new(vec![0u8; 6 * 4], 6, 4).unwrap();
    assert!(matches!(ds2.to_tiles(4), Err(Error::NonDivisibleDimensions)));
}

#[test]
fn to_tiles_single_tile() {
    let ds = dataset_4x4();
    let tiles = ds.to_tiles(1).unwrap();
    assert_eq!(tiles.len(), 1);
    assert_eq!(tiles[0].x_range, (0, 4));
    assert_eq!(tiles[0].y_range, (0, 4));
    assert_eq!(tiles[0].bytes(&ds), ds.data);
}

#[test]
fn to_tiles_one_cell_tiles() {
    let ds = dataset_4x4();
    let tiles = ds.to_tiles(4).unwrap();
    assert_eq!(tiles.len(), 16);
    for t in &tiles {
        assert_eq!(t.x_range.1 - t.x_range.0, 1);
        assert_eq!(t.y_range.1 - t.y_range.0, 1);
    }
    // The first tile holds cell (0, 0); the last holds cell (3, 3).
    assert_eq!(tiles[0].bytes(&ds), vec![0u8]);
    assert_eq!(tiles[15].bytes(&ds), vec![16 * 3 + 3]);
}

#[test]
fn tile_bytes_gathers_rows() {
    let ds = dataset_4x4();
    let tiles = ds.to_tiles(2).unwrap();
    // Tile of column range [2, 4) and row range [0, 2): rows 0 and 1,
    // columns 2 and 3.
    assert_eq!(tiles[2].bytes(&ds), vec![2, 3, 18, 19]);
    // Tile of column range [0, 2) and row range [2, 4).
    assert_eq!(tiles[1].bytes(&ds), vec![32, 33, 48, 49]);
}

#[test]
fn tile_row_bytes_matches_bytes() {
    let ds = dataset_4x4();
    let tiles = ds.to_tiles(2).unwrap();
    for t in &tiles {
        let mut joined = Vec::new();
        for j in 0..(t.y_range.1 - t.y_range.0) {
            joined.extend_from_slice(&t.row_bytes(&ds, j));
        }
        assert_eq!(joined, t.bytes(&ds));
    }
}

#[test]
fn tiles_reassemble_the_dataset() {
    // Scatter every tile's bytes back onto a canvas by its ranges; the
    // canvas must equal the source dataset byte for byte.
    let ds = dataset_4x4();
    for n in [1usize, 2, 4] {
        let tiles = ds.to_tiles(n).unwrap();
        let mut canvas = vec![255u8; 16];
        for t in &tiles {
            let bytes = t.bytes(&ds);
            let tw = t.x_range.1 - t.x_range.0;
            for j in 0..(t.y_range.1 - t.y_range.0) {
                for i in 0..tw {
                    canvas[(t.y_range.0 + j) * 4 + t.x_range.0 + i] = bytes[j * tw + i];
                }
            }
        }
        assert_eq!(canvas, ds.data);
    }
}

#[test]
fn tiles_cover_without_overlap() {
    // Each cell must be claimed by exactly one tile.
    let ds = dataset_4x4();
    let tiles = ds.to_tiles(2).unwrap();
    let mut claims = vec![0u32; 16];
    for t in &tiles {
        for y in t.y_range.0..t.y_range.1 {
            for x in t.x_range.0..t.x_range.1 {
                claims[y * 4 + x] += 1;
            }
        }
    }
    assert!(claims.iter().all(|&c| c == 1));
}
