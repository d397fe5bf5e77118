//! A plain grid of renderable tiles, for screens that draw by character.

use vstd::prelude::*;

verus! {

/// What one cell shows: a character, or a sprite out of a texture atlas,
/// named by the handle id the host engine assigned.
#[derive(Debug, Clone, Copy, PartialEq, Eq, Structural)]
pub enum Tile {
    Ascii(char),
    Sprite(u64),
}

/// Error returned by grid updates outside the grid.
#[derive(Debug, Clone, Copy, PartialEq, Eq, Structural)]
pub enum TileGridError {
    OutOfBounds,
}

/// A rectangular grid of tiles, stored as columns of equal height.
#[derive(Debug, PartialEq, Eq)]
pub struct TileGrid(pub Vec<Vec<Tile>>);

impl TileGrid {
    /// The number of columns.
    pub open spec fn spec_width(self) -> int {
        self.0@.len() as int
    }

    /// The number of tiles in each column.
    pub open spec fn spec_height(self) -> int {
        if self.0@.len() == 0 {
            0
        } else {
            self.0@[0]@.len() as int
        }
    }

    /// The grid is rectangular: all columns share one height.
    pub open spec fn wf(self) -> bool {
        forall|i: int| 0 <= i < self.0@.len() ==> (#[trigger] self.0@[i])@.len()
            == self.spec_height()
    }

    /// The tile in column `i` at row `j`.
    pub open spec fn spec_tile(self, i: int, j: int) -> Tile {
        self.0@[i]@[j]
    }

    /// Builds a grid from columns of tiles, which must be rectangular.
    pub fn new(tiles: Vec<Vec<Tile>>) -> (r: Self)
        requires
            forall|i: int|
                0 <= i < tiles@.len() ==> (#[trigger] tiles@[i])@.len() == (if tiles@.len() == 0 {
                    0int
                } else {
                    tiles@[0]@.len() as int
                }),
        ensures
            r == TileGrid(tiles),
            r.wf(),
    {
        Self(tiles)
    }

    /// A `width` by `height` grid filled with one tile.
    pub fn fill(width: usize, height: usize, tile: Tile) -> (r: Self)
        ensures
            r.wf(),
            r.spec_width() == width,
            width > 0 ==> r.spec_height() == height,
            forall|i: int, j: int|
                0 <= i < width && 0 <= j < height ==> #[trigger] r.spec_tile(i, j) == tile,
    {
        let mut columns: Vec<Vec<Tile>> = Vec::new();
        let mut i: usize = 0;
        while i < width
            invariant
                0 <= i <= width,
                columns@.len() == i,
                forall|k: int| 0 <= k < i ==> (#[trigger] columns@[k])@.len() == height,
                forall|k: int, j: int|
                    0 <= k < i && 0 <= j < height ==> #[trigger] columns@[k]@[j] == tile,
            decreases width - i,
        {
            let mut column: Vec<Tile> = Vec::new();
            let mut j: usize = 0;
            while j < height
                invariant
                    0 <= j <= height,
                    column@.len() == j,
                    forall|k: int| 0 <= k < j ==> #[trigger] column@[k] == tile,
                decreases height - j,
            {
                column.push(tile);
                j = j + 1;
            }
            columns.push(column);
            i = i + 1;
        }
        Self(columns)
    }

    /// The tile in column `i` at row `j`, which must lie inside the grid.
    pub fn get(&self, i: usize, j: usize) -> (r: &Tile)
        requires
            self.wf(),
            i < self.spec_width(),
            j < self.spec_height(),
        ensures
            *r == self.spec_tile(i as int, j as int),
    {
        &self.0[i][j]
    }

    /// The number of tiles in the grid.
    pub fn size(&self) -> (r: usize)
        requires
            self.spec_width() * self.spec_height() <= usize::MAX,
        ensures
            r == self.spec_width() * self.spec_height(),
    {
        self.width() * self.height()
    }

    /// The number of columns.
    pub fn width(&self) -> (r: usize)
        ensures
            r == self.spec_width(),
    {
        self.0.len()
    }

    /// The height of the columns.
    pub fn height(&self) -> (r: usize)
        ensures
            r == self.spec_height(),
    {
        if self.0.len() == 0 {
            0
        } else {
            self.0[0].len()
        }
    }

    /// Every coordinate pair and its tile, column by column.
    pub fn as_i_j_tile_vector(&self) -> (r: Vec<(usize, usize, Tile)>)
        requires
            self.wf(),
            self.spec_width() * self.spec_height() <= usize::MAX,
        ensures
            r@.len() == self.spec_width() * self.spec_height(),
            forall|i: int, j: int|
                0 <= i < self.spec_width() && 0 <= j < self.spec_height()
                    ==> #[trigger] r@[i * self.spec_height() + j] == (
                i as usize,
                j as usize,
                self.spec_tile(i, j),
            ),
    {
        let width = self.width();
        let height = self.height();
        let mut r: Vec<(usize, usize, Tile)> = Vec::new();
        let mut i: usize = 0;
        while i < width
            invariant
                0 <= i <= width,
                width == self.spec_width(),
                height == self.spec_height(),
                self.wf(),
                width * height <= usize::MAX,
                r@.len() == i * height,
                forall|a: int, b: int|
                    0 <= a < i && 0 <= b < height ==> #[trigger] r@[a * height + b] == (
                    a as usize,
                    b as usize,
                    self.spec_tile(a, b),
                ),
            decreases width - i,
        {
            let mut j: usize = 0;
            proof {
                assert((i + 1) * height == i * height + height) by (nonlinear_arith);
                assert(i * height + height <= width * height) by (nonlinear_arith)
                    requires
                        i + 1 <= width,
                        height >= 0,
                ;
            }
            while j < height
                invariant
                    0 <= j <= height,
                    0 <= i < width,
                    width == self.spec_width(),
                    height == self.spec_height(),
                    self.wf(),
                    i * height + height <= width * height,
                    width * height <= usize::MAX,
                    r@.len() == i * height + j,
                    forall|a: int, b: int|
                        0 <= a < i && 0 <= b < height ==> #[trigger] r@[a * height + b] == (
                        a as usize,
                        b as usize,
                        self.spec_tile(a, b),
                    ),
                    forall|b: int|
                        0 <= b < j ==> #[trigger] r@[i * height + b] == (
                        i as usize,
                        b as usize,
                        self.spec_tile(i as int, b),
                    ),
                decreases height - j,
            {
                let ghost before = r@;
                r.push((i, j, *self.get(i, j)));
                proof {
                    assert forall|a: int, b: int|
                        0 <= a < i && 0 <= b < height implies #[trigger] r@[a * height + b] == (
                        a as usize,
                        b as usize,
                        self.spec_tile(a, b),
                    ) by {
                        crate::map::lemma_grid_index_public(a, b, i as int, height as int);
                        assert(r@[a * height + b] == before[a * height + b]);
                    }
                }
                j = j + 1;
            }
            i = i + 1;
            proof {
                assert forall|a: int, b: int|
                    0 <= a < i && 0 <= b < height implies #[trigger] r@[a * height + b] == (
                    a as usize,
                    b as usize,
                    self.spec_tile(a, b),
                ) by {
                    if a < i - 1 {
                        crate::map::lemma_grid_index_public(a, b, i as int - 1, height as int);
                        assert((i - 1) * height + height == i * height) by (nonlinear_arith);
                    }
                }
            }
        }
        r
    }

    /// Replaces the tile in column `i` at row `j`, or reports `OutOfBounds`.
    pub fn update(&mut self, i: usize, j: usize, tile: Tile) -> (r: Result<(), TileGridError>)
        requires
            old(self).wf(),
        ensures
            final(self).wf(),
            (i < old(self).spec_width() && j < old(self).spec_height()) ==> {
                &&& r == Ok::<(), TileGridError>(())
                &&& final(self).spec_width() == old(self).spec_width()
                &&& final(self).spec_height() == old(self).spec_height()
                &&& final(self).spec_tile(i as int, j as int) == tile
                &&& forall|a: int, b: int|
                    0 <= a < old(self).spec_width() && 0 <= b < old(self).spec_height() && !(a
                        == i && b == j) ==> #[trigger] final(self).spec_tile(a, b) == old(
                        self,
                    ).spec_tile(a, b)
            },
            !(i < old(self).spec_width() && j < old(self).spec_height()) ==> r == Err::<
                (),
                TileGridError,
            >(TileGridError::OutOfBounds) && *final(self) == *old(self),
    {
        if i >= self.width() || j >= self.height() {
            return Err(TileGridError::OutOfBounds);
        }
        let column = &mut self.0[i];
        column[j] = tile;
        proof {
            assert(final(self).wf());
        }
        Ok(())
    }
}

} // verus!
