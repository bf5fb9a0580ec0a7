use geotile::Error;
use geotile::split::split_row;

#[test]
fn split_even_row() {
    let row = vec![1u8, 2, 3, 4, 5, 6];
    let (west, east) = split_row(&row).unwrap();
    assert_eq!(west, vec![1u8, 2, 3]);
    assert_eq!(east, vec![4u8, 5, 6]);
}

#[test]
fn split_rejects_odd_row() {
    let row = vec![1u8, 2, 3];
    assert!(matches!(split_row(&row), Err(Error::NonDivisibleDimensions)));
}

#[test]
fn split_empty_row() {
    let row: Vec<u8> = Vec::new();
    let (west, east) = split_row(&row).unwrap();
    assert!(west.is_empty());
    assert!(east.is_empty());
}

#[test]
fn split_then_concatenate_reconstructs_rows() {
    // A raster of width 8 and height 3, split row by row; gluing each
    // west row to its east row gives back the source row, and each half
    // sees as many rows as the source.
    let rows: Vec<Vec<u8>> = (0..3u8).map(|y| (0..8u8).map(|x| 10 * y + x).collect()).collect();
    let mut west_rows = Vec::new();
    let mut east_rows = Vec::new();
    for row in &rows {
        let (w, e) = split_row(row).unwrap();
        assert_eq!(w.len(), 4);
        assert_eq!(e.len(), 4);
        west_rows.push(w);
        east_rows.push(e);
    }
    assert_eq!(west_rows.len(), rows.len());
    assert_eq!(east_rows.len(), rows.len());
    for (i, row) in rows.iter().enumerate() {
        let mut glued = west_rows[i].clone();
        glued.extend_from_slice(&east_rows[i]);
        assert_eq!(&glued, row);
    }
}
