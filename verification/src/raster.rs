//! The raster data model: an owned row-major byte buffer with its
//! dimensions, and its partition into an n-by-n grid of rectangular tiles.

use vstd::prelude::*;

use crate::Error;

verus! {

/// An in-memory raster: one class-code byte per cell, row-major
/// (row `y`, column `x` at offset `y * x_dim + x`).
pub struct Dataset {
    pub data: Vec<u8>,
    pub x_dim: usize,
    pub y_dim: usize,
}

/// A rectangular view into a [`Dataset`], given by a half-open column range
/// `[x_range.0, x_range.1)` and row range `[y_range.0, y_range.1)`.
#[derive(Clone, Copy, Debug, PartialEq, Eq)]
pub struct Tile {
    pub x_range: (usize, usize),
    pub y_range: (usize, usize),
}

impl Dataset {
    /// The buffer holds exactly one byte per cell.
    pub open spec fn wf(self) -> bool {
        self.data@.len() == self.x_dim * self.y_dim
    }

    /// The byte at column `x`, row `y`.
    pub open spec fn cell(self, x: int, y: int) -> u8 {
        self.data@[y * self.x_dim + x]
    }

    /// Builds a dataset of the declared dimensions from bytes read from
    /// storage.
    ///
    /// Fails when fewer bytes are available than the dimensions require;
    /// trailing excess bytes are disregarded.
    pub fn new(data: Vec<u8>, x_siz: usize, y_siz: usize) -> (r: Result<Dataset, Error>)
        requires
            x_siz * y_siz <= usize::MAX,
        ensures
            r is Ok <==> data@.len() >= x_siz * y_siz,
            r matches Ok(ds) ==> ds.data@ == data@.subrange(0, (x_siz * y_siz) as int)
                && ds.x_dim == x_siz && ds.y_dim == y_siz && ds.wf(),
            r is Err ==> r == Err::<Dataset, Error>(Error::TruncatedInput),
    {
        let need = x_siz * y_siz;
        let mut buf = data;
        if buf.len() < need {
            return Err(Error::TruncatedInput);
        }
        buf.truncate(need);
        Ok(Dataset { data: buf, x_dim: x_siz, y_dim: y_siz })
    }

    /// Partitions the raster into an n-by-n grid of tiles.
    ///
    /// Fails exactly when a dimension is not divisible by `n_dim`. On
    /// success there are `n_dim * n_dim` tiles; the column range ascends in
    /// the outer position and the row range in the inner one, so the tile of
    /// column index `c` and row index `r` stands at index `c * n_dim + r`.
    pub fn to_tiles(&self, n_dim: usize) -> (res: Result<Vec<Tile>, Error>)
        requires
            self.wf(),
            1 <= n_dim,
            1 <= self.x_dim,
            1 <= self.y_dim,
        ensures
            res is Ok <==> (self.x_dim % n_dim == 0 && self.y_dim % n_dim == 0),
            res is Err ==> res == Err::<Vec<Tile>, Error>(Error::NonDivisibleDimensions),
            res matches Ok(tiles) ==> {
                &&& tiles@.len() == n_dim * n_dim
                &&& forall|k: int|
                    0 <= k < tiles@.len() ==> grid_tile(
                        #[trigger] tiles@[k],
                        self.x_dim as int,
                        self.y_dim as int,
                        n_dim as int,
                        k / (n_dim as int),
                        k % (n_dim as int),
                    ) && tiles@[k].wf(*self)
            },
    {
        if (self.x_dim % n_dim != 0) || (self.y_dim % n_dim != 0) {
            return Err(Error::NonDivisibleDimensions);
        }
        let tile_x = self.x_dim / n_dim;
        let tile_y = self.y_dim / n_dim;
        proof {
            assert(tile_x * n_dim == self.x_dim && tile_x >= 1) by (nonlinear_arith)
                requires
                    n_dim >= 1,
                    self.x_dim >= 1,
                    self.x_dim % n_dim == 0,
                    tile_x == self.x_dim / n_dim,
            ;
            assert(tile_y * n_dim == self.y_dim && tile_y >= 1) by (nonlinear_arith)
                requires
                    n_dim >= 1,
                    self.y_dim >= 1,
                    self.y_dim % n_dim == 0,
                    tile_y == self.y_dim / n_dim,
            ;
        }

        let mut xs: Vec<(usize, usize)> = Vec::new();
        let mut x: usize = 0;
        while x < self.x_dim
            invariant
                1 <= tile_x,
                tile_x * n_dim == self.x_dim,
                x == xs@.len() * tile_x,
                xs@.len() <= n_dim,
                x <= self.x_dim,
                forall|i: int|
                    0 <= i < xs@.len() ==> (#[trigger] xs@[i]).0 == i * tile_x && xs@[i].1 == (i
                        + 1) * tile_x,
            decreases self.x_dim - x,
        {
            proof {
                assert((xs@.len() + 1) * tile_x == x + tile_x && x + tile_x <= tile_x * n_dim
                    && xs@.len() < n_dim) by (nonlinear_arith)
                    requires
                        1 <= tile_x,
                        x == xs@.len() * tile_x,
                        x < tile_x * n_dim,
                ;
            }
            let nx = x + tile_x;
            xs.push((x, nx));
            x = nx;
        }
        proof {
            assert(xs@.len() == n_dim) by (nonlinear_arith)
                requires
                    1 <= tile_x,
                    x == xs@.len() * tile_x,
                    x == tile_x * n_dim,
                    xs@.len() <= n_dim,
            ;
        }

        let mut ys: Vec<(usize, usize)> = Vec::new();
        let mut y: usize = 0;
        while y < self.y_dim
            invariant
                1 <= tile_y,
                tile_y * n_dim == self.y_dim,
                y == ys@.len() * tile_y,
                ys@.len() <= n_dim,
                y <= self.y_dim,
                forall|i: int|
                    0 <= i < ys@.len() ==> (#[trigger] ys@[i]).0 == i * tile_y && ys@[i].1 == (i
                        + 1) * tile_y,
            decreases self.y_dim - y,
        {
            proof {
                assert((ys@.len() + 1) * tile_y == y + tile_y && y + tile_y <= tile_y * n_dim
                    && ys@.len() < n_dim) by (nonlinear_arith)
                    requires
                        1 <= tile_y,
                        y == ys@.len() * tile_y,
                        y < tile_y * n_dim,
                ;
            }
            let ny = y + tile_y;
            ys.push((y, ny));
            y = ny;
        }
        proof {
            assert(ys@.len() == n_dim) by (nonlinear_arith)
                requires
                    1 <= tile_y,
                    y == ys@.len() * tile_y,
                    y == tile_y * n_dim,
                    ys@.len() <= n_dim,
            ;
        }

        let mut tiles: Vec<Tile> = Vec::new();
        let mut c: usize = 0;
        while c < n_dim
            invariant
                xs@.len() == n_dim,
                ys@.len() == n_dim,
                1 <= tile_x,
                1 <= tile_y,
                tile_x * n_dim == self.x_dim,
                tile_y * n_dim == self.y_dim,
                tile_x == self.x_dim as int / n_dim as int,
                tile_y == self.y_dim as int / n_dim as int,
                forall|i: int|
                    0 <= i < n_dim ==> (#[trigger] xs@[i]).0 == i * tile_x && xs@[i].1 == (i + 1)
                        * tile_x,
                forall|i: int|
                    0 <= i < n_dim ==> (#[trigger] ys@[i]).0 == i * tile_y && ys@[i].1 == (i + 1)
                        * tile_y,
                c <= n_dim,
                tiles@.len() == c * n_dim,
                forall|k: int|
                    0 <= k < tiles@.len() ==> grid_tile(
                        #[trigger] tiles@[k],
                        self.x_dim as int,
                        self.y_dim as int,
                        n_dim as int,
                        k / (n_dim as int),
                        k % (n_dim as int),
                    ),
            decreases n_dim - c,
        {
            let mut r: usize = 0;
            while r < n_dim
                invariant
                    xs@.len() == n_dim,
                    ys@.len() == n_dim,
                    1 <= tile_x,
                    1 <= tile_y,
                    tile_x * n_dim == self.x_dim,
                    tile_y * n_dim == self.y_dim,
                    tile_x == self.x_dim as int / n_dim as int,
                    tile_y == self.y_dim as int / n_dim as int,
                    forall|i: int|
                        0 <= i < n_dim ==> (#[trigger] xs@[i]).0 == i * tile_x && xs@[i].1 == (i
                            + 1) * tile_x,
                    forall|i: int|
                        0 <= i < n_dim ==> (#[trigger] ys@[i]).0 == i * tile_y && ys@[i].1 == (i
                            + 1) * tile_y,
                    c < n_dim,
                    r <= n_dim,
                    tiles@.len() == c * n_dim + r,
                    forall|k: int|
                        0 <= k < tiles@.len() ==> grid_tile(
                            #[trigger] tiles@[k],
                            self.x_dim as int,
                            self.y_dim as int,
                            n_dim as int,
                            k / (n_dim as int),
                            k % (n_dim as int),
                        ),
                decreases n_dim - r,
            {
                let t = Tile { x_range: xs[c], y_range: ys[r] };
                tiles.push(t);
                proof {
                    let k0 = c * (n_dim as int) + r;
                    assert(k0 / (n_dim as int) == c && k0 % (n_dim as int) == r) by (nonlinear_arith)
                        requires
                            0 <= c < n_dim,
                            0 <= r < n_dim,
                            k0 == c * (n_dim as int) + r,
                    ;
                }
                r = r + 1;
            }
            proof {
                assert((c + 1) * (n_dim as int) == c * (n_dim as int) + n_dim) by (nonlinear_arith);
            }
            c = c + 1;
        }
        proof {
            assert(tiles@.len() == n_dim * n_dim);
            assert forall|k: int| 0 <= k < tiles@.len() implies (#[trigger] tiles@[k]).wf(
                *self,
            ) by {
                let n = n_dim as int;
                let kc = k / n;
                let kr = k % n;
                assert(0 <= kc < n && 0 <= kr < n) by (nonlinear_arith)
                    requires
                        0 <= k < n * n,
                        kc == k / n,
                        kr == k % n,
                        n >= 1,
                ;
                assert(kc * tile_x < (kc + 1) * tile_x <= n * tile_x && kr * tile_y < (kr + 1)
                    * tile_y <= n * tile_y) by (nonlinear_arith)
                    requires
                        0 <= kc < n,
                        0 <= kr < n,
                        1 <= tile_x,
                        1 <= tile_y,
                ;
            };
        }
        Ok(tiles)
    }
}

impl Tile {
    /// The tile's ranges are non-empty and lie inside the dataset.
    pub open spec fn wf(self, ds: Dataset) -> bool {
        &&& self.x_range.0 < self.x_range.1 <= ds.x_dim
        &&& self.y_range.0 < self.y_range.1 <= ds.y_dim
    }

    /// The tile's width in columns.
    pub open spec fn width(self) -> int {
        self.x_range.1 - self.x_range.0
    }

    /// The tile's height in rows.
    pub open spec fn height(self) -> int {
        self.y_range.1 - self.y_range.0
    }

    /// The bytes of the tile's file: its rows in ascending row order, each
    /// row the column sub-range of the dataset's row.
    pub open spec fn contents(self, ds: Dataset) -> Seq<u8> {
        Seq::new(
            (self.height() * self.width()) as nat,
            |i: int|
                ds.cell(
                    self.x_range.0 + i % self.width(),
                    self.y_range.0 + i / self.width(),
                ),
        )
    }

    /// Copies one row of the tile out of the dataset: row `j` of the tile,
    /// that is, the columns `[x_range.0, x_range.1)` of the dataset's row
    /// `y_range.0 + j`.
    pub fn row_bytes(&self, ds: &Dataset, j: usize) -> (r: Vec<u8>)
        requires
            ds.wf(),
            self.wf(*ds),
            j < self.height(),
        ensures
            r@.len() == self.width(),
            forall|i: int|
                0 <= i < self.width() ==> r@[i] == ds.cell(
                    self.x_range.0 + i,
                    self.y_range.0 + j,
                ),
            r@ == self.contents(*ds).subrange(j * self.width(), (j + 1) * self.width()),
    {
        let w = ds.x_dim;
        let tw = self.x_range.1 - self.x_range.0;
        let y = self.y_range.0 + j;
        let mut r: Vec<u8> = Vec::new();
        let dlen = ds.data.len();
        proof {
            assert(y * w + w <= dlen) by (nonlinear_arith)
                requires
                    y < ds.y_dim,
                    w == ds.x_dim,
                    dlen == ds.x_dim * ds.y_dim,
            ;
        }
        let base = y * w;
        let mut i: usize = 0;
        while i < tw
            invariant
                ds.wf(),
                self.wf(*ds),
                w == ds.x_dim,
                tw == self.width(),
                j < self.height(),
                y == self.y_range.0 + j,
                base == y * w,
                dlen == ds.data@.len(),
                base + w <= dlen,
                i <= tw,
                r@.len() == i,
                forall|ii: int|
                    0 <= ii < i ==> r@[ii] == ds.cell(self.x_range.0 + ii, self.y_range.0 + j),
            decreases tw - i,
        {
            let b = ds.data[base + self.x_range.0 + i];
            r.push(b);
            i = i + 1;
        }
        proof {
            let tws = self.width();
            assert forall|i: int| 0 <= i < tws implies #[trigger] r@[i] == self.contents(*ds)[j
                * tws + i] by {
                assert((j * tws + i) / tws == j && (j * tws + i) % tws == i) by (nonlinear_arith)
                    requires
                        0 <= i < tws,
                        0 <= j,
                ;
                assert(0 <= j * tws + i < self.contents(*ds).len()) by (nonlinear_arith)
                    requires
                        0 <= i < tws,
                        0 <= j < self.height(),
                        self.contents(*ds).len() == self.height() * tws,
                ;
            };
            assert((j + 1) * tws == j * tws + tws) by (nonlinear_arith);
            assert(0 <= j * tws && (j + 1) * tws <= self.contents(*ds).len()) by (nonlinear_arith)
                requires
                    0 <= j < self.height(),
                    tws >= 1,
                    self.contents(*ds).len() == self.height() * tws,
            ;
            assert(r@ =~= self.contents(*ds).subrange(j * tws, (j + 1) * tws));
        }
        r
    }

    /// Copies the tile's cells out of the dataset, row by row: exactly the
    /// bytes that the tile's file holds.
    pub fn bytes(&self, ds: &Dataset) -> (r: Vec<u8>)
        requires
            ds.wf(),
            self.wf(*ds),
        ensures
            r@ == self.contents(*ds),
    {
        let th = self.y_range.1 - self.y_range.0;
        let mut r: Vec<u8> = Vec::new();
        let mut j: usize = 0;
        proof {
            assert(0 * self.width() == 0) by (nonlinear_arith);
        }
        while j < th
            invariant
                ds.wf(),
                self.wf(*ds),
                th == self.height(),
                j <= th,
                r@ == self.contents(*ds).subrange(0, j * self.width()),
                0 <= j * self.width() <= self.contents(*ds).len(),
            decreases th - j,
        {
            let mut row = self.row_bytes(ds, j);
            r.append(&mut row);
            proof {
                let tws = self.width();
                let all = self.contents(*ds);
                assert((j + 1) * tws == j * tws + tws) by (nonlinear_arith);
                assert(0 <= (j + 1) * tws <= all.len()) by (nonlinear_arith)
                    requires
                        0 <= j < th,
                        tws >= 1,
                        all.len() == th * tws,
                ;
                assert(r@ =~= all.subrange(0, (j + 1) * tws));
            }
            j = j + 1;
        }
        proof {
            assert(r@ =~= self.contents(*ds));
        }
        r
    }
}

/// Whether `t` is the grid tile of column index `c` and row index `r` in the
/// n-by-n partition of a `w`-by-`h` raster.
pub open spec fn grid_tile(t: Tile, w: int, h: int, n: int, c: int, r: int) -> bool {
    &&& t.x_range.0 == c * (w / n)
    &&& t.x_range.1 == (c + 1) * (w / n)
    &&& t.y_range.0 == r * (h / n)
    &&& t.y_range.1 == (r + 1) * (h / n)
}

} // verus!
