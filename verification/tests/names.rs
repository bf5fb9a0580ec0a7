use geotile::raster::Dataset;
use geotile::raster::Tile;

#[test]
fn fname_example_grid() {
    // W = 4, H = 4, n = 2: the tile of column range [0, 2) and row range
    // [0, 2), and the tile of column range [2, 4) and row range [2, 4).
    let ds = Dataset::new(vec![0u8; 16], 4, 4).unwrap();
    let tiles = ds.to_tiles(2).unwrap();
    assert_eq!(tiles[0].get_fname(), "00001-00002.00001-00002");
    assert_eq!(tiles[3].get_fname(), "00003-00004.00003-00004");
}

#[test]
fn fname_pads_to_five_digits() {
    let t = Tile { x_range: (0, 1), y_range: (0, 1) };
    assert_eq!(t.get_fname(), "00001-00001.00001-00001");
    let t2 = Tile { x_range: (9, 100), y_range: (999, 10000) };
    assert_eq!(t2.get_fname(), "00010-00100.01000-10000");
}

#[test]
fn fname_wide_coordinates_are_not_truncated() {
    // Bounds past five digits are written in full.
    let t = Tile { x_range: (99999, 123456), y_range: (100000, 648000) };
    assert_eq!(t.get_fname(), "100000-123456.100001-648000");
}

#[test]
fn fname_ten_by_ten_grid() {
    // A 640-by-640 raster cut into a 10-by-10 grid of 64-wide tiles.
    let ds = Dataset::new(vec![0u8; 640 * 640], 640, 640).unwrap();
    let tiles = ds.to_tiles(10).unwrap();
    assert_eq!(tiles.len(), 100);
    assert_eq!(tiles[0].get_fname(), "00001-00064.00001-00064");
    assert_eq!(tiles[99].get_fname(), "00577-00640.00577-00640");
}
