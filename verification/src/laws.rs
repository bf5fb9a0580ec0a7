//! The laws of the tile grid: the tiles of `to_tiles` partition the raster
//! exactly, and their file contents reassemble it byte for byte.

use vstd::prelude::*;

use crate::raster::Dataset;
use crate::raster::Tile;
use crate::raster::grid_tile;

verus! {

/// Whether cell `(x, y)` lies inside the tile's ranges.
pub open spec fn tile_contains(t: Tile, x: int, y: int) -> bool {
    &&& t.x_range.0 <= x < t.x_range.1
    &&& t.y_range.0 <= y < t.y_range.1
}

/// The index, in the order `to_tiles` yields, of the one grid tile that
/// holds cell `(x, y)` of a `w`-by-`h` raster cut into an n-by-n grid.
pub open spec fn owner(w: int, h: int, n: int, x: int, y: int) -> int {
    (x / (w / n)) * n + y / (h / n)
}

/// The byte that cell `(x, y)` receives when every tile's file contents are
/// placed back at the tile's coordinate ranges.
pub open spec fn reassembled(tiles: Seq<Tile>, ds: Dataset, n: int, x: int, y: int) -> u8 {
    let t = tiles[owner(ds.x_dim as int, ds.y_dim as int, n, x, y)];
    t.contents(ds)[(y - t.y_range.0) * t.width() + (x - t.x_range.0)]
}

/// Law: the tiles of the n-by-n grid are pairwise non-overlapping and their
/// union is exactly the raster. Every cell of `[0, w) x [0, h)` lies in the
/// tile at its `owner` index, and a cell lies in no tile but that one.
pub proof fn lemma_tiles_partition(tiles: Seq<Tile>, w: int, h: int, n: int)
    requires
        1 <= n,
        1 <= w,
        1 <= h,
        w % n == 0,
        h % n == 0,
        tiles.len() == n * n,
        forall|k: int| 0 <= k < n * n ==> grid_tile(#[trigger] tiles[k], w, h, n, k / n, k % n),
    ensures
        forall|x: int, y: int|
            0 <= x < w && 0 <= y < h ==> 0 <= #[trigger] owner(w, h, n, x, y) < n * n
                && tile_contains(tiles[owner(w, h, n, x, y)], x, y),
        forall|k: int, x: int, y: int|
            0 <= k < n * n && #[trigger] tile_contains(tiles[k], x, y) && 0 <= x < w && 0 <= y < h
                ==> k == owner(w, h, n, x, y),
{
    let tx = w / n;
    let ty = h / n;
    assert(n <= w && n <= h) by (nonlinear_arith)
        requires
            w % n == 0,
            h % n == 0,
            1 <= n,
            1 <= w,
            1 <= h,
    ;
    assert(tx * n == w && tx >= 1) by (nonlinear_arith)
        requires
            w % n == 0,
            1 <= n <= w,
            tx == w / n,
    ;
    assert(ty * n == h && ty >= 1) by (nonlinear_arith)
        requires
            h % n == 0,
            1 <= n <= h,
            ty == h / n,
    ;
    assert forall|x: int, y: int| 0 <= x < w && 0 <= y < h implies 0 <= #[trigger] owner(
        w,
        h,
        n,
        x,
        y,
    ) < n * n && tile_contains(tiles[owner(w, h, n, x, y)], x, y) by {
        let c = x / tx;
        let r = y / ty;
        assert(0 <= c < n && c * tx <= x < (c + 1) * tx) by (nonlinear_arith)
            requires
                tx >= 1,
                0 <= x,
                x < tx * n,
                c == x / tx,
        ;
        assert(0 <= r < n && r * ty <= y < (r + 1) * ty) by (nonlinear_arith)
            requires
                ty >= 1,
                0 <= y,
                y < ty * n,
                r == y / ty,
        ;
        let k = c * n + r;
        assert(0 <= k < n * n && k / n == c && k % n == r) by (nonlinear_arith)
            requires
                1 <= n,
                0 <= c < n,
                0 <= r < n,
                k == c * n + r,
        ;
        assert(grid_tile(tiles[k], w, h, n, c, r));
        assert(owner(w, h, n, x, y) == k);
    };
    assert forall|k: int, x: int, y: int|
        0 <= k < n * n && #[trigger] tile_contains(tiles[k], x, y) && 0 <= x < w && 0 <= y
            < h implies k == owner(w, h, n, x, y) by {
        let c = k / n;
        let r = k % n;
        assert(0 <= c < n && 0 <= r < n && c * n + r == k) by (nonlinear_arith)
            requires
                1 <= n,
                0 <= k < n * n,
                c == k / n,
                r == k % n,
        ;
        assert(grid_tile(tiles[k], w, h, n, c, r));
        assert(x / tx == c) by (nonlinear_arith)
            requires
                tx >= 1,
                0 <= c,
                c * tx <= x < (c + 1) * tx,
        ;
        assert(y / ty == r) by (nonlinear_arith)
            requires
                ty >= 1,
                0 <= r,
                r * ty <= y < (r + 1) * ty,
        ;
    };
}

/// Law: reassembling all tiles by their coordinate ranges reproduces the
/// raster byte for byte: at every cell, the byte the owning tile's file
/// contents carry for that cell is the dataset's byte.
pub proof fn lemma_tiles_reassemble(ds: Dataset, tiles: Seq<Tile>, n: int)
    requires
        ds.wf(),
        1 <= n,
        1 <= ds.x_dim,
        1 <= ds.y_dim,
        (ds.x_dim as int) % n == 0,
        (ds.y_dim as int) % n == 0,
        tiles.len() == n * n,
        forall|k: int|
            0 <= k < n * n ==> grid_tile(
                #[trigger] tiles[k],
                ds.x_dim as int,
                ds.y_dim as int,
                n,
                k / n,
                k % n,
            ),
    ensures
        forall|x: int, y: int|
            0 <= x < ds.x_dim && 0 <= y < ds.y_dim ==> #[trigger] reassembled(tiles, ds, n, x, y)
                == ds.cell(x, y),
{
    let w = ds.x_dim as int;
    let h = ds.y_dim as int;
    let tx = w / n;
    let ty = h / n;
    assert(n <= w && n <= h) by (nonlinear_arith)
        requires
            w % n == 0,
            h % n == 0,
            1 <= n,
            1 <= w,
            1 <= h,
    ;
    assert(tx * n == w && tx >= 1) by (nonlinear_arith)
        requires
            w % n == 0,
            1 <= n <= w,
            tx == w / n,
    ;
    assert(ty * n == h && ty >= 1) by (nonlinear_arith)
        requires
            h % n == 0,
            1 <= n <= h,
            ty == h / n,
    ;
    lemma_tiles_partition(tiles, w, h, n);
    assert forall|x: int, y: int| 0 <= x < w && 0 <= y < h implies #[trigger] reassembled(
        tiles,
        ds,
        n,
        x,
        y,
    ) == ds.cell(x, y) by {
        let k = owner(w, h, n, x, y);
        let t = tiles[k];
        assert(0 <= k < n * n && tile_contains(t, x, y));
        assert(grid_tile(tiles[k], w, h, n, k / n, k % n));
        let i = x - t.x_range.0;
        let j = y - t.y_range.0;
        let m = j * t.width() + i;
        assert(t.width() == tx && t.height() == ty) by (nonlinear_arith)
            requires
                t.x_range.0 == (k / n) * tx,
                t.x_range.1 == (k / n + 1) * tx,
                t.y_range.0 == (k % n) * ty,
                t.y_range.1 == (k % n + 1) * ty,
        ;
        assert(0 <= m < ty * tx && m / tx == j && m % tx == i) by (nonlinear_arith)
            requires
                tx >= 1,
                ty >= 1,
                0 <= i < tx,
                0 <= j < ty,
                m == j * tx + i,
        ;
        assert(t.contents(ds)[m] == ds.cell(t.x_range.0 + m % t.width(), t.y_range.0 + m / t.width()));
    };
}

} // verus!
