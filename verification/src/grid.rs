//! The tile grid: a square, row-major, immutable map of tile codes.
//!
//! Tile code `0` is empty and traversable; any other code is a wall with a
//! type-specific color.

use vstd::prelude::*;

verus! {

/// Largest accepted grid side, so that every product in the ray walk fits
/// comfortably in `i64`.
pub const MAX_GRID_DIM: usize = 512;

/// Tile code of cell `(x, y)` in a row-major sequence of side `n`.
pub open spec fn tile_spec(g: Seq<u8>, n: int, x: int, y: int) -> u8 {
    g[y * n + x]
}

/// `(x, y)` lies inside an `n`-by-`n` grid.
pub open spec fn in_bounds(n: int, x: int, y: int) -> bool {
    0 <= x < n && 0 <= y < n
}

/// Every cell on the outer ring of the grid is a wall.
pub open spec fn enclosed_spec(g: Seq<u8>, n: int) -> bool {
    forall|x: int, y: int|
        in_bounds(n, x, y) && (x == 0 || x == n - 1 || y == 0 || y == n - 1)
            ==> tile_spec(g, n, x, y) > 0
}

/// A square grid of tile codes, stored row-major.
pub struct Grid {
    n: usize,
    cells: Vec<u8>,
}

impl Grid {
    /// Side length of the grid, as a mathematical integer.
    pub closed spec fn dim(&self) -> int {
        self.n as int
    }

    /// The row-major tile codes.
    pub closed spec fn tiles(&self) -> Seq<u8> {
        self.cells@
    }

    /// Structural invariant: positive side length within the supported
    /// range, and exactly one tile code per cell.
    pub open spec fn wf(&self) -> bool {
        1 <= self.dim() <= MAX_GRID_DIM && self.tiles().len() == self.dim() * self.dim()
    }

    /// Tile code at `(x, y)`.
    pub open spec fn tile(&self, x: int, y: int) -> u8 {
        tile_spec(self.tiles(), self.dim(), x, y)
    }

    /// Builds a grid of side `n` from row-major tile codes; rejects a side
    /// length outside `1..=MAX_GRID_DIM` and a cell count other than `n * n`.
    pub fn new(n: usize, cells: Vec<u8>) -> (r: Option<Grid>)
        ensures
            match r {
                Some(g) => {
                    &&& g.wf()
                    &&& g.dim() == n
                    &&& g.tiles() == cells@
                    &&& 1 <= n <= MAX_GRID_DIM
                    &&& cells@.len() == n * n
                },
                None => n < 1 || n > MAX_GRID_DIM || cells@.len() != n * n,
            },
    {
        if n >= 1 && n <= MAX_GRID_DIM && cells.len() / n == n && cells.len() % n == 0 {
            proof {
                vstd::arithmetic::div_mod::lemma_fundamental_div_mod(
                    cells@.len() as int,
                    n as int,
                );
            }
            Some(Grid { n, cells })
        } else {
            proof {
                if n >= 1 && cells@.len() == n * n {
                    vstd::arithmetic::div_mod::lemma_div_multiples_vanish(
                        n as int,
                        n as int,
                    );
                    vstd::arithmetic::div_mod::lemma_mod_multiples_basic(
                        n as int,
                        n as int,
                    );
                }
            }
            None
        }
    }

    /// Side length of the grid.
    pub fn side(&self) -> (r: usize)
        ensures
            r == self.dim(),
    {
        self.n
    }

    /// Tile code lookup, defined only inside the grid.
    pub fn tile_at(&self, x: usize, y: usize) -> (r: u8)
        requires
            self.wf(),
            x < self.dim(),
            y < self.dim(),
        ensures
            r == self.tile(x as int, y as int),
    {
        proof {
            assert(y as int * self.dim() + x < self.dim() * self.dim() && self.dim() * self.dim()
                <= 0x40000) by (nonlinear_arith)
                requires
                    (y as int) < self.dim(),
                    (x as int) < self.dim(),
                    1 <= self.dim() <= 512,
            ;
        }
        self.cells[y * self.n + x]
    }

    /// Runtime check that the outer ring of the grid is all wall, so that
    /// every ray walk is guaranteed to stop on it.
    pub fn is_enclosed(&self) -> (r: bool)
        requires
            self.wf(),
        ensures
            r == enclosed_spec(self.tiles(), self.dim()),
    {
        let n = self.n;
        let mut y: usize = 0;
        while y < n
            invariant
                self.wf(),
                n == self.dim(),
                y <= n,
                forall|i: int, j: int|
                    in_bounds(n as int, i, j) && j < y && (i == 0 || i == n - 1 || j == 0 || j
                        == n - 1) ==> self.tile(i, j) > 0,
            decreases n - y,
        {
            let mut x: usize = 0;
            while x < n
                invariant
                    self.wf(),
                    n == self.dim(),
                    y < n,
                    x <= n,
                    forall|i: int, j: int|
                        in_bounds(n as int, i, j) && j < y && (i == 0 || i == n - 1 || j == 0 || j
                            == n - 1) ==> self.tile(i, j) > 0,
                    forall|i: int|
                        0 <= i < x && (i == 0 || i == n - 1 || y as int == 0 || y as int == n - 1)
                            ==> self.tile(i, y as int) > 0,
                decreases n - x,
            {
                if x == 0 || x == n - 1 || y == 0 || y == n - 1 {
                    if self.tile_at(x, y) == 0 {
                        proof {
                            assert(in_bounds(n as int, x as int, y as int));
                            assert(tile_spec(self.tiles(), self.dim(), x as int, y as int) == 0);
                        }
                        return false;
                    }
                }
                x += 1;
            }
            y += 1;
        }
        true
    }
}

/// Tile code of cell `(x, y)` of the stock 16-by-16 level: an enclosing
/// ring of red walls (code 1), a short wall spur at column 12 of the top
/// rows, and a few colored blocks (codes 2, 3, 4) in the interior; every
/// other cell is empty.
pub open spec fn stock_tile(x: int, y: int) -> u8 {
    if y == 0 || y == 15 || x == 0 || x == 15 {
        1
    } else if x == 12 && 1 <= y <= 3 {
        1
    } else if x == 3 && y == 3 {
        1
    } else if x == 3 && y == 4 {
        2
    } else if x == 9 && (y == 4 || y == 5) {
        3
    } else if x == 3 && y == 5 {
        3
    } else if x == 3 && y == 6 {
        4
    } else if y == 10 && 5 <= x <= 7 {
        3
    } else if x == 13 && y == 11 {
        2
    } else if y == 13 && 2 <= x <= 4 {
        2
    } else if y == 13 && x == 11 {
        3
    } else {
        0
    }
}

/// Tile code of cell `(x, y)` of the stock level.
pub fn stock_tile_at(x: usize, y: usize) -> (r: u8)
    requires
        x < 16,
        y < 16,
    ensures
        r == stock_tile(x as int, y as int),
{
    if y == 0 || y == 15 || x == 0 || x == 15 {
        1
    } else if x == 12 && 1 <= y && y <= 3 {
        1
    } else if x == 3 && y == 3 {
        1
    } else if x == 3 && y == 4 {
        2
    } else if x == 9 && (y == 4 || y == 5) {
        3
    } else if x == 3 && y == 5 {
        3
    } else if x == 3 && y == 6 {
        4
    } else if y == 10 && 5 <= x && x <= 7 {
        3
    } else if x == 13 && y == 11 {
        2
    } else if y == 13 && 2 <= x && x <= 4 {
        2
    } else if y == 13 && x == 11 {
        3
    } else {
        0
    }
}

/// The stock 16-by-16 level: every call returns the same grid, whose cell
/// `(x, y)` holds exactly `stock_tile(x, y)`; in particular its outer ring
/// is all wall, so every ray cast from inside it terminates with a hit.
pub fn get_map() -> (g: Grid)
    ensures
        g.wf(),
        g.dim() == 16,
        forall|x: int, y: int|
            in_bounds(16, x, y) ==> g.tile(x, y) == stock_tile(x, y),
        enclosed_spec(g.tiles(), 16),
{
    let mut cells: Vec<u8> = Vec::new();
    let mut y: usize = 0;
    while y < 16
        invariant
            cells.len() == y * 16,
            y <= 16,
            forall|i: int, j: int|
                0 <= i < 16 && 0 <= j < y ==> cells@[j * 16 + i] == stock_tile(i, j),
        decreases 16 - y,
    {
        let mut x: usize = 0;
        while x < 16
            invariant
                cells.len() == y * 16 + x,
                y < 16,
                x <= 16,
                forall|i: int, j: int|
                    0 <= i < 16 && 0 <= j < y ==> cells@[j * 16 + i] == stock_tile(i, j),
                forall|i: int| 0 <= i < x ==> cells@[y * 16 + i] == stock_tile(i, y as int),
            decreases 16 - x,
        {
            cells.push(stock_tile_at(x, y));
            x += 1;
        }
        y += 1;
    }
    let g = Grid { n: 16, cells };
    proof {
        assert forall|x: int, y: int| in_bounds(16, x, y) implies g.tile(x, y) == stock_tile(
            x,
            y,
        ) by {
            assert(g.tiles()[y * 16 + x] == stock_tile(x, y));
        }
        assert forall|x: int, y: int|
            in_bounds(16, x, y) && (x == 0 || x == 15 || y == 0 || y == 15) implies tile_spec(
            g.tiles(),
            16,
            x,
            y,
        ) > 0 by {
            assert(g.tile(x, y) == stock_tile(x, y));
        }
    }
    g
}

} // verus!
