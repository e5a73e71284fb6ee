use vstd::prelude::*;
use crate::tile::TileType;

verus! {

/// Smallest grid side the generators can work with.
pub const MIN_DIM: i32 = 16;

/// Largest grid side, so that every index arithmetic stays well inside
/// `i32` and `usize`.
pub const MAX_DIM: i32 = 4096;

/// The tile grid of one level: a flat row-major sequence of tiles of a
/// fixed width and height, plus the depth the level sits at and a
/// revealed flag per tile (used only by snapshots).
pub struct Grid {
    pub tiles: Vec<TileType>,
    pub width: i32,
    pub height: i32,
    pub revealed_tiles: Vec<bool>,
    pub depth: i32,
}

impl Grid {
    /// Well-formedness: the flat tile vector matches width x height and
    /// both sides are inside the supported range.
    pub open spec fn inv(self) -> bool {
        &&& MIN_DIM <= self.width <= MAX_DIM
        &&& MIN_DIM <= self.height <= MAX_DIM
        &&& self.tiles@.len() == (self.width as int) * (self.height as int)
        &&& self.revealed_tiles@.len() == self.tiles@.len()
    }

    /// The tile stored at column x, row y.
    pub open spec fn tile_at(self, x: int, y: int) -> TileType {
        self.tiles@[y * (self.width as int) + x]
    }

    /// Same width, height and depth.
    pub open spec fn same_dims(self, other: Grid) -> bool {
        self.width == other.width && self.height == other.height && self.depth == other.depth
    }

    /// The grid holds no down-stairs tile anywhere.
    pub open spec fn no_stairs(self) -> bool {
        forall|x: int, y: int|
            0 <= x < self.width && 0 <= y < self.height ==> #[trigger] self.tile_at(x, y)
                != TileType::DownStairs
    }

    /// The grid holds a down-stairs tile at (sx, sy) and nowhere else.
    pub open spec fn one_stairs(self, sx: int, sy: int) -> bool {
        &&& 0 <= sx < self.width
        &&& 0 <= sy < self.height
        &&& self.tile_at(sx, sy) == TileType::DownStairs
        &&& forall|x: int, y: int|
            0 <= x < self.width && 0 <= y < self.height && (x != sx || y != sy)
                ==> #[trigger] self.tile_at(x, y) != TileType::DownStairs
    }

    /// The row-major index of column x, row y.
    pub fn xy_idx(&self, x: i32, y: i32) -> (r: usize)
        requires
            self.inv(),
            0 <= x < self.width,
            0 <= y < self.height,
        ensures
            r == y * (self.width as int) + x,
            r < self.tiles@.len(),
    {
        proof {
            lemma_idx_in_range(self.width as int, self.height as int, x as int, y as int);
        }
        (y as usize) * (self.width as usize) + (x as usize)
    }

    /// The tile at column x, row y.
    pub fn get_tile(&self, x: i32, y: i32) -> (t: TileType)
        requires
            self.inv(),
            0 <= x < self.width,
            0 <= y < self.height,
        ensures
            t == self.tile_at(x as int, y as int),
    {
        let idx = self.xy_idx(x, y);
        self.tiles[idx]
    }

    /// Replaces the tile at column x, row y, leaving every other tile as
    /// it was.
    pub fn set_tile(&mut self, x: i32, y: i32, t: TileType)
        requires
            old(self).inv(),
            0 <= x < old(self).width,
            0 <= y < old(self).height,
        ensures
            final(self).inv(),
            final(self).same_dims(*old(self)),
            final(self).tiles@.len() == old(self).tiles@.len(),
            final(self).revealed_tiles@ == old(self).revealed_tiles@,
            final(self).tile_at(x as int, y as int) == t,
            forall|a: int, b: int|
                0 <= a < final(self).width && 0 <= b < final(self).height && (a != x || b != y)
                    ==> #[trigger] final(self).tile_at(a, b) == old(self).tile_at(a, b),
    {
        let idx = self.xy_idx(x, y);
        self.tiles.set(idx, t);
        proof {
            let w = self.width as int;
            let h = self.height as int;
            assert forall|a: int, b: int|
                0 <= a < w && 0 <= b < h && (a != x || b != y) implies #[trigger] self.tile_at(a, b)
                == old(self).tile_at(a, b) by {
                lemma_idx_in_range(w, h, a, b);
                if b * w + a == (y as int) * w + (x as int) {
                    lemma_idx_inj(w, a, b, x as int, y as int);
                }
            }
        }
    }

    /// A fresh grid of the given size, made entirely of solid wall.
    pub fn new(new_depth: i32, width: i32, height: i32) -> (r: Grid)
        requires
            MIN_DIM <= width <= MAX_DIM,
            MIN_DIM <= height <= MAX_DIM,
        ensures
            r.inv(),
            r.width == width,
            r.height == height,
            r.depth == new_depth,
            forall|i: int| 0 <= i < r.tiles@.len() ==> r.tiles@[i] == TileType::Wall,
            forall|i: int| 0 <= i < r.revealed_tiles@.len() ==> r.revealed_tiles@[i] == false,
    {
        proof {
            lemma_idx_in_range(width as int, height as int, width as int - 1, height as int - 1);
        }
        let count: usize = (width as usize) * (height as usize);
        let mut tiles: Vec<TileType> = Vec::new();
        let mut revealed: Vec<bool> = Vec::new();
        let mut i: usize = 0;
        while i < count
            invariant
                i <= count,
                tiles@.len() == i,
                revealed@.len() == i,
                forall|j: int| 0 <= j < i ==> tiles@[j] == TileType::Wall,
                forall|j: int| 0 <= j < i ==> revealed@[j] == false,
            decreases count - i,
        {
            tiles.push(TileType::Wall);
            revealed.push(false);
            i = i + 1;
        }
        Grid { tiles, width, height, revealed_tiles: revealed, depth: new_depth }
    }

    /// An identical copy of the grid.
    pub fn clone_grid(&self) -> (r: Grid)
        requires
            self.inv(),
        ensures
            r.inv(),
            r.same_dims(*self),
            r.tiles@ == self.tiles@,
            r.revealed_tiles@ == self.revealed_tiles@,
    {
        let n = self.tiles.len();
        let mut tiles: Vec<TileType> = Vec::new();
        let mut revealed: Vec<bool> = Vec::new();
        let mut i: usize = 0;
        while i < n
            invariant
                i <= n,
                n == self.tiles@.len(),
                self.revealed_tiles@.len() == n,
                tiles@.len() == i,
                revealed@.len() == i,
                forall|j: int| 0 <= j < i ==> tiles@[j] == self.tiles@[j],
                forall|j: int| 0 <= j < i ==> revealed@[j] == self.revealed_tiles@[j],
            decreases n - i,
        {
            tiles.push(self.tiles[i]);
            revealed.push(self.revealed_tiles[i]);
            i = i + 1;
        }
        proof {
            assert(tiles@ =~= self.tiles@);
            assert(revealed@ =~= self.revealed_tiles@);
        }
        Grid {
            tiles,
            width: self.width,
            height: self.height,
            revealed_tiles: revealed,
            depth: self.depth,
        }
    }

    /// A copy of the grid with every tile marked revealed, as recorded
    /// in the snapshot history.
    pub fn snapshot(&self) -> (r: Grid)
        requires
            self.inv(),
        ensures
            r.inv(),
            r.same_dims(*self),
            r.tiles@ == self.tiles@,
            forall|i: int| 0 <= i < r.revealed_tiles@.len() ==> r.revealed_tiles@[i] == true,
    {
        let n = self.tiles.len();
        let mut tiles: Vec<TileType> = Vec::new();
        let mut revealed: Vec<bool> = Vec::new();
        let mut i: usize = 0;
        while i < n
            invariant
                i <= n,
                n == self.tiles@.len(),
                tiles@.len() == i,
                revealed@.len() == i,
                forall|j: int| 0 <= j < i ==> tiles@[j] == self.tiles@[j],
                forall|j: int| 0 <= j < i ==> revealed@[j] == true,
            decreases n - i,
        {
            tiles.push(self.tiles[i]);
            revealed.push(true);
            i = i + 1;
        }
        proof {
            assert(tiles@ =~= self.tiles@);
        }
        Grid {
            tiles,
            width: self.width,
            height: self.height,
            revealed_tiles: revealed,
            depth: self.depth,
        }
    }
}

/// Every revealed flag of the grid is set: the form snapshots take.
pub open spec fn grid_all_revealed(g: Grid) -> bool {
    forall|k: int| 0 <= k < g.revealed_tiles@.len() ==> g.revealed_tiles@[k] == true
}

/// The row-major index of column x, row y, as a spec value.
pub open spec fn flat_idx(w: int, x: int, y: int) -> int {
    y * w + x
}

/// Row-major indices of in-bounds coordinates stay below width * height.
pub proof fn lemma_idx_in_range(w: int, h: int, x: int, y: int)
    by (nonlinear_arith)
    requires
        0 <= x < w <= 4096,
        0 <= y < h <= 4096,
    ensures
        0 <= y * w + x < w * h <= 16777216,
{
}

/// Row-major indexing is injective on in-bounds coordinates.
pub proof fn lemma_idx_inj(w: int, x1: int, y1: int, x2: int, y2: int)
    by (nonlinear_arith)
    requires
        0 <= x1 < w,
        0 <= x2 < w,
        y1 * w + x1 == y2 * w + x2,
    ensures
        x1 == x2,
        y1 == y2,
{
}

} // verus!
