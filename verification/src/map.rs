//! Map storage: layered rectangular grids of tiles, and locations on them.

use vstd::prelude::*;

use crate::events::Direction;

verus! {

/// Error returned by map accesses outside the grid.
#[derive(Debug, Clone, Copy, PartialEq, Eq, Hash, Structural)]
pub enum MapError {
    OutOfBounds,
}

/// What a tile's ground is made of.
#[derive(Debug, Clone, Copy, PartialEq, Eq, Hash, Structural)]
pub enum SurfaceTile {
    Ground,
    Wall,
    Fireplace,
}

/// Objects stacked on a tile.
#[derive(Debug, Clone, Copy, PartialEq, Eq, Hash, Structural)]
pub enum ObjectTile {
    Item,
    Trap,
}

/// Two tiles with the same surface and the same stack are interchangeable;
/// a copied tile is equal to its original in this sense.
pub open spec fn same_tile(a: Tile, b: Tile) -> bool {
    a.surface == b.surface && a.stack@ == b.stack@
}

/// One tile: a surface and a stack of objects resting on it.
#[derive(Debug, Clone, PartialEq, Eq, Hash)]
pub struct Tile {
    pub surface: SurfaceTile,
    pub stack: Vec<ObjectTile>,
}

impl Tile {
    /// Builds a tile from its surface and stack.
    pub fn new(surface: SurfaceTile, stack: Vec<ObjectTile>) -> (r: Self)
        ensures
            r == (Tile { surface, stack }),
    {
        Self { surface, stack }
    }

    /// A tile with nothing on it.
    pub fn empty(surface: SurfaceTile) -> (r: Self)
        ensures
            r.surface == surface,
            r.stack@.len() == 0,
    {
        Self::new(surface, Vec::new())
    }

    /// Bare ground.
    pub fn empty_ground() -> (r: Self)
        ensures
            r.surface == SurfaceTile::Ground,
            r.stack@.len() == 0,
    {
        Self::empty(SurfaceTile::Ground)
    }

    /// A wall.
    pub fn wall() -> (r: Self)
        ensures
            r.surface == SurfaceTile::Wall,
            r.stack@.len() == 0,
    {
        Self::empty(SurfaceTile::Wall)
    }

    /// Ground with one object on it.
    pub fn object(object: ObjectTile) -> (r: Self)
        ensures
            r.surface == SurfaceTile::Ground,
            r.stack@ =~= seq![object],
    {
        let mut stack: Vec<ObjectTile> = Vec::new();
        stack.push(object);
        Self::new(SurfaceTile::Ground, stack)
    }

    /// The tile's surface.
    pub fn get_surface(&self) -> (r: SurfaceTile)
        ensures
            r == self.surface,
    {
        self.surface
    }

    /// The object stack.
    pub fn get_stack(&self) -> (r: &Vec<ObjectTile>)
        ensures
            r == &self.stack,
    {
        &self.stack
    }

    /// The topmost object, if any.
    pub fn get_top_of_stack(&self) -> (r: Option<ObjectTile>)
        ensures
            r == if self.stack@.len() == 0 {
                Option::<ObjectTile>::None
            } else {
                Option::Some(self.stack@.last())
            },
    {
        if self.stack.len() == 0 {
            None
        } else {
            Some(self.stack[self.stack.len() - 1])
        }
    }

    /// Whether an actor can stand on this tile.
    pub open spec fn spec_traversable(self) -> bool {
        match self.surface {
            SurfaceTile::Ground => true,
            SurfaceTile::Fireplace => true,
            SurfaceTile::Wall => false,
        }
    }

    /// Whether an actor can stand on this tile.
    pub fn is_traversable(&self) -> (r: bool)
        ensures
            r == self.spec_traversable(),
    {
        match self.get_surface() {
            SurfaceTile::Ground => true,
            SurfaceTile::Fireplace => true,
            SurfaceTile::Wall => false,
        }
    }

    /// A value copy of the tile.
    pub fn duplicate(&self) -> (r: Self)
        ensures
            same_tile(r, *self),
    {
        let n = self.stack.len();
        let mut stack: Vec<ObjectTile> = Vec::new();
        let mut i: usize = 0;
        while i < n
            invariant
                0 <= i <= n,
                n == self.stack@.len(),
                stack@ == self.stack@.take(i as int),
            decreases n - i,
        {
            stack.push(self.stack[i]);
            proof {
                assert(self.stack@.take(i as int).push(self.stack@[i as int]) =~= self.stack@.take(
                    i as int + 1,
                ));
            }
            i = i + 1;
        }
        proof {
            assert(self.stack@.take(n as int) =~= self.stack@);
        }
        Self { surface: self.surface, stack }
    }
}

/// A position inside one map layer, in tile coordinates.
#[derive(Debug, Default, Clone, Copy, PartialEq, Eq, Hash, Structural)]
pub struct TileLocation {
    pub i: i32,
    pub j: i32,
}

impl TileLocation {
    /// Builds a location from its coordinates.
    pub fn new(i: i32, j: i32) -> (r: Self)
        ensures
            r == (TileLocation { i, j }),
    {
        Self { i, j }
    }

    /// The first coordinate.
    pub fn x(&self) -> (r: i32)
        ensures
            r == self.i,
    {
        self.i
    }

    /// The second coordinate.
    pub fn y(&self) -> (r: i32)
        ensures
            r == self.j,
    {
        self.j
    }

    /// The origin.
    pub fn zero() -> (r: Self)
        ensures
            r == (TileLocation { i: 0, j: 0 }),
    {
        Self::new(0, 0)
    }

    /// Componentwise sum.
    pub fn add(self, rhs: Self) -> (r: Self)
        requires
            i32::MIN <= self.i + rhs.i <= i32::MAX,
            i32::MIN <= self.j + rhs.j <= i32::MAX,
        ensures
            r.i == self.i + rhs.i,
            r.j == self.j + rhs.j,
    {
        Self::new(self.i + rhs.i, self.j + rhs.j)
    }

    /// Moves one step in a direction.
    pub fn step(&mut self, direction: Direction)
        requires
            i32::MIN + 1 <= old(self).i <= i32::MAX - 1,
            i32::MIN + 1 <= old(self).j <= i32::MAX - 1,
        ensures
            final(self).i == old(self).i + direction.spec_tile_location().i,
            final(self).j == old(self).j + direction.spec_tile_location().j,
    {
        let delta = direction.as_tile_location();
        self.i = self.i + delta.i;
        self.j = self.j + delta.j;
    }
}

/// A position on the map: which layer, and where on it.
#[derive(Debug, Clone, Copy, PartialEq, Eq, Hash, Structural)]
pub struct MapLocation {
    pub map_layer: usize,
    pub tile_location: TileLocation,
}

impl From<TileLocation> for MapLocation {
    fn from(value: TileLocation) -> (r: Self) {
        Self::new(0, value)
    }
}

impl vstd::std_specs::convert::FromSpecImpl<TileLocation> for MapLocation {
    open spec fn obeys_from_spec() -> bool {
        true
    }

    open spec fn from_spec(value: TileLocation) -> Self {
        MapLocation { map_layer: 0, tile_location: value }
    }
}

impl MapLocation {
    /// Builds a location from a layer index and tile coordinates.
    pub fn new(map_layer: usize, tile_location: TileLocation) -> (r: Self)
        ensures
            r == (MapLocation { map_layer, tile_location }),
    {
        Self { map_layer, tile_location }
    }

    /// The layer this location lies on.
    pub fn get_map_layer(&self) -> (r: usize)
        ensures
            r == self.map_layer,
    {
        self.map_layer
    }

    /// The coordinates inside the layer.
    pub fn get_tile_location(&self) -> (r: TileLocation)
        ensures
            r == self.tile_location,
    {
        self.tile_location
    }

    /// Shifts the location by an offset within its layer.
    pub fn translate(&mut self, amount: TileLocation)
        requires
            i32::MIN <= old(self).tile_location.i + amount.i <= i32::MAX,
            i32::MIN <= old(self).tile_location.j + amount.j <= i32::MAX,
        ensures
            final(self).map_layer == old(self).map_layer,
            final(self).tile_location.i == old(self).tile_location.i + amount.i,
            final(self).tile_location.j == old(self).tile_location.j + amount.j,
    {
        self.tile_location = self.tile_location.add(amount);
    }

    /// Whether two locations lie on the same layer.
    pub fn is_on_same_floor(&self, other: &MapLocation) -> (r: bool)
        ensures
            r == (self.map_layer == other.map_layer),
    {
        self.map_layer == other.map_layer
    }

    /// The direction of one step from here towards another location on the
    /// same layer: the signs of the coordinate differences pick one of the
    /// eight directions; `None` when the layers differ or the locations
    /// coincide.
    pub fn get_direction_towards(&self, other: &MapLocation) -> (r: Option<Direction>)
        ensures
            r == spec_direction_towards(*self, *other),
    {
        if self.map_layer != other.map_layer {
            return None;
        }
        let di: i8 = if other.tile_location.i > self.tile_location.i {
            1
        } else if other.tile_location.i < self.tile_location.i {
            -1
        } else {
            0
        };
        let dj: i8 = if other.tile_location.j > self.tile_location.j {
            1
        } else if other.tile_location.j < self.tile_location.j {
            -1
        } else {
            0
        };
        match (di, dj) {
            (0, 1) => Some(Direction::Up),
            (1, 1) => Some(Direction::UpRight),
            (1, 0) => Some(Direction::Right),
            (1, -1) => Some(Direction::DownRight),
            (0, -1) => Some(Direction::Down),
            (-1, -1) => Some(Direction::DownLeft),
            (-1, 0) => Some(Direction::Left),
            (-1, 1) => Some(Direction::UpLeft),
            _ => None,
        }
    }
}

/// The sign of the difference `to - from`, without overflow.
pub open spec fn coordinate_sign(from: int, to: int) -> int {
    if to > from {
        1
    } else if to < from {
        -1
    } else {
        0
    }
}

/// The direction one step towards a target takes; see
/// `MapLocation::get_direction_towards`.
pub open spec fn spec_direction_towards(from: MapLocation, to: MapLocation) -> Option<Direction> {
    if from.map_layer != to.map_layer {
        None
    } else {
        let di = coordinate_sign(from.tile_location.i as int, to.tile_location.i as int);
        let dj = coordinate_sign(from.tile_location.j as int, to.tile_location.j as int);
        if di == 0 && dj == 1 {
            Some(Direction::Up)
        } else if di == 1 && dj == 1 {
            Some(Direction::UpRight)
        } else if di == 1 && dj == 0 {
            Some(Direction::Right)
        } else if di == 1 && dj == -1 {
            Some(Direction::DownRight)
        } else if di == 0 && dj == -1 {
            Some(Direction::Down)
        } else if di == -1 && dj == -1 {
            Some(Direction::DownLeft)
        } else if di == -1 && dj == 0 {
            Some(Direction::Left)
        } else if di == -1 && dj == 1 {
            Some(Direction::UpLeft)
        } else {
            None
        }
    }
}

/// One rectangular layer of tiles, stored as columns of equal height.
#[derive(Debug, Clone, PartialEq, Eq, Hash)]
pub struct MapLayer(pub Vec<Vec<Tile>>);

impl MapLayer {
    /// The number of columns.
    pub open spec fn spec_width(self) -> int {
        self.0@.len() as int
    }

    /// The number of tiles in each column.
    pub open spec fn spec_height(self) -> int {
        if self.0@.len() == 0 {
            0
        } else {
            self.0@[0]@.len() as int
        }
    }

    /// The layer is rectangular: all columns share one height.
    pub open spec fn wf(self) -> bool {
        forall|i: int| 0 <= i < self.0@.len() ==> (#[trigger] self.0@[i])@.len()
            == self.spec_height()
    }

    /// The tile in column `i` at row `j`.
    pub open spec fn spec_tile(self, i: int, j: int) -> Tile {
        self.0@[i]@[j]
    }

    /// Builds a layer from columns of tiles, which must be rectangular.
    pub fn new(tiles: Vec<Vec<Tile>>) -> (r: Self)
        requires
            forall|i: int|
                0 <= i < tiles@.len() ==> (#[trigger] tiles@[i])@.len() == (if tiles@.len() == 0 {
                    0int
                } else {
                    tiles@[0]@.len() as int
                }),
        ensures
            r == MapLayer(tiles),
            r.wf(),
    {
        Self(tiles)
    }

    /// The columns, copied out.
    pub fn get_tiles_cloned(&self) -> (r: Vec<Vec<Tile>>)
        ensures
            r@.len() == self.0@.len(),
            forall|i: int| 0 <= i < r@.len() ==> (#[trigger] r@[i])@.len() == self.0@[i]@.len(),
            forall|i: int, j: int|
                0 <= i < r@.len() && 0 <= j < r@[i]@.len() ==> same_tile(
                    #[trigger] r@[i]@[j],
                    self.0@[i]@[j],
                ),
    {
        let n = self.0.len();
        let mut r: Vec<Vec<Tile>> = Vec::new();
        let mut i: usize = 0;
        while i < n
            invariant
                0 <= i <= n,
                n == self.0@.len(),
                r@.len() == i,
                forall|k: int| 0 <= k < i ==> (#[trigger] r@[k])@.len() == self.0@[k]@.len(),
                forall|k: int, j: int|
                    0 <= k < i && 0 <= j < r@[k]@.len() ==> same_tile(
                        #[trigger] r@[k]@[j],
                        self.0@[k]@[j],
                    ),
            decreases n - i,
        {
            r.push(duplicate_column(&self.0[i]));
            i = i + 1;
        }
        r
    }

    /// A `width` by `height` layer filled with copies of one tile.
    pub fn fill(width: usize, height: usize, tile: Tile) -> (r: Self)
        ensures
            r.wf(),
            r.spec_width() == width,
            width > 0 ==> r.spec_height() == height,
            forall|i: int, j: int|
                0 <= i < width && 0 <= j < height ==> same_tile(#[trigger] r.spec_tile(i, j), tile),
    {
        let mut columns: Vec<Vec<Tile>> = Vec::new();
        let mut i: usize = 0;
        while i < width
            invariant
                0 <= i <= width,
                columns@.len() == i,
                forall|k: int| 0 <= k < i ==> (#[trigger] columns@[k])@.len() == height,
                forall|k: int, j: int|
                    0 <= k < i && 0 <= j < height ==> same_tile(#[trigger] columns@[k]@[j], tile),
            decreases width - i,
        {
            let mut column: Vec<Tile> = Vec::new();
            let mut j: usize = 0;
            while j < height
                invariant
                    0 <= j <= height,
                    column@.len() == j,
                    forall|k: int| 0 <= k < j ==> same_tile(#[trigger] column@[k], tile),
                decreases height - j,
            {
                column.push(tile.duplicate());
                j = j + 1;
            }
            columns.push(column);
            i = i + 1;
        }
        Self(columns)
    }

    /// The tile at a coordinate pair, or `OutOfBounds`.
    pub fn get(&self, i: usize, j: usize) -> (r: Result<&Tile, MapError>)
        requires
            self.wf(),
        ensures
            (i < self.spec_width() && j < self.spec_height()) ==> (r matches Ok(t) && *t
                == self.spec_tile(i as int, j as int)),
            !(i < self.spec_width() && j < self.spec_height()) ==> r == Err::<&Tile, MapError>(
                MapError::OutOfBounds,
            ),
    {
        if self.is_in_bounds(i, j) {
            Ok(&self.0[i][j])
        } else {
            Err(MapError::OutOfBounds)
        }
    }

    /// The tile at a location; negative coordinates are out of bounds.
    pub fn get_from_location(&self, location: TileLocation) -> (r: Result<&Tile, MapError>)
        requires
            self.wf(),
        ensures
            location_in_layer(*self, location) ==> (r matches Ok(t) && *t == self.spec_tile(
                location.i as int,
                location.j as int,
            )),
            !location_in_layer(*self, location) ==> r == Err::<&Tile, MapError>(
                MapError::OutOfBounds,
            ),
    {
        if location.i < 0 || location.j < 0 {
            return Err(MapError::OutOfBounds);
        }
        self.get(location.i as usize, location.j as usize)
    }

    /// The number of tiles in the layer.
    pub fn size(&self) -> (r: usize)
        requires
            self.spec_width() * self.spec_height() <= usize::MAX,
        ensures
            r == self.spec_width() * self.spec_height(),
    {
        self.width() * self.height()
    }

    /// The number of columns.
    pub fn width(&self) -> (r: usize)
        ensures
            r == self.spec_width(),
    {
        self.0.len()
    }

    /// The height of the columns.
    pub fn height(&self) -> (r: usize)
        ensures
            r == self.spec_height(),
    {
        if self.0.len() == 0 {
            0
        } else {
            self.0[0].len()
        }
    }

    /// Every location and its tile, column by column.
    pub fn as_location_and_tile_vector(&self) -> (r: Vec<(TileLocation, Tile)>)
        requires
            self.wf(),
            self.spec_width() <= i32::MAX,
            self.spec_height() <= i32::MAX,
            self.spec_width() * self.spec_height() <= usize::MAX,
        ensures
            r@.len() == self.spec_width() * self.spec_height(),
            forall|i: int, j: int|
                0 <= i < self.spec_width() && 0 <= j < self.spec_height()
                    ==> (#[trigger] r@[i * self.spec_height() + j]).0 == (TileLocation {
                    i: i as i32,
                    j: j as i32,
                }) && same_tile(r@[i * self.spec_height() + j].1, self.spec_tile(i, j)),
    {
        let width = self.width();
        let height = self.height();
        let mut r: Vec<(TileLocation, Tile)> = Vec::new();
        let mut i: usize = 0;
        while i < width
            invariant
                0 <= i <= width,
                width == self.spec_width(),
                height == self.spec_height(),
                self.wf(),
                width <= i32::MAX,
                height <= i32::MAX,
                width * height <= usize::MAX,
                r@.len() == i * height,
                forall|a: int, b: int|
                    0 <= a < i && 0 <= b < height ==> (#[trigger] r@[a * height + b]).0
                        == (TileLocation { i: a as i32, j: b as i32 }) && same_tile(
                        r@[a * height + b].1,
                        self.spec_tile(a, b),
                    ),
            decreases width - i,
        {
            let mut j: usize = 0;
            proof {
                assert((i + 1) * height == i * height + height) by (nonlinear_arith);
                assert(i * height + height <= width * height) by (nonlinear_arith)
                    requires
                        i + 1 <= width,
                        height >= 0,
                ;
            }
            while j < height
                invariant
                    0 <= j <= height,
                    0 <= i < width,
                    width == self.spec_width(),
                    height == self.spec_height(),
                    self.wf(),
                    width <= i32::MAX,
                    height <= i32::MAX,
                    width * height <= usize::MAX,
                    i * height + height <= width * height,
                    r@.len() == i * height + j,
                    forall|a: int, b: int|
                        0 <= a < i && 0 <= b < height ==> (#[trigger] r@[a * height + b]).0
                            == (TileLocation { i: a as i32, j: b as i32 }) && same_tile(
                            r@[a * height + b].1,
                            self.spec_tile(a, b),
                        ),
                    forall|b: int|
                        0 <= b < j ==> (#[trigger] r@[i * height + b]).0 == (TileLocation {
                            i: i as i32,
                            j: b as i32,
                        }) && same_tile(r@[i * height + b].1, self.spec_tile(i as int, b)),
                decreases height - j,
            {
                let ghost before = r@;
                r.push((TileLocation::new(i as i32, j as i32), self.0[i][j].duplicate()));
                proof {
                    assert forall|a: int, b: int|
                        0 <= a < i && 0 <= b < height implies (#[trigger] r@[a * height + b]).0
                            == (TileLocation { i: a as i32, j: b as i32 }) && same_tile(
                            r@[a * height + b].1,
                            self.spec_tile(a, b),
                        ) by {
                        lemma_grid_index_public(a, b, i as int, height as int);
                        assert(a * height + b < before.len());
                        assert(r@[a * height + b] == before[a * height + b]);
                    }
                }
                j = j + 1;
            }
            i = i + 1;
            proof {
                assert forall|a: int, b: int|
                    0 <= a < i && 0 <= b < height implies (#[trigger] r@[a * height + b]).0
                        == (TileLocation { i: a as i32, j: b as i32 }) && same_tile(
                        r@[a * height + b].1,
                        self.spec_tile(a, b),
                    ) by {
                    if a < i - 1 {
                        lemma_grid_index_public(a, b, i as int - 1, height as int);
                        assert((i - 1) * height + height == i * height) by (nonlinear_arith);
                    }
                }
            }
        }
        r
    }

    /// Replaces the tile at a location, or reports `OutOfBounds`.
    pub fn update_at_location(&mut self, tile: Tile, location: TileLocation) -> (r: Result<
        (),
        MapError,
    >)
        requires
            old(self).wf(),
        ensures
            final(self).wf(),
            location_in_layer(*old(self), location) ==> r == Ok::<(), MapError>(())
                && layer_updated(
                *old(self),
                *final(self),
                location.i as int,
                location.j as int,
                tile,
            ),
            !location_in_layer(*old(self), location) ==> r == Err::<(), MapError>(
                MapError::OutOfBounds,
            ) && *final(self) == *old(self),
    {
        if location.i < 0 || location.j < 0 {
            return Err(MapError::OutOfBounds);
        }
        self.update(tile, location.i as usize, location.j as usize)
    }

    /// Replaces the tile in column `i` at row `j`, or reports `OutOfBounds`.
    pub fn update(&mut self, tile: Tile, i: usize, j: usize) -> (r: Result<(), MapError>)
        requires
            old(self).wf(),
        ensures
            final(self).wf(),
            (i < old(self).spec_width() && j < old(self).spec_height()) ==> r == Ok::<
                (),
                MapError,
            >(()) && layer_updated(*old(self), *final(self), i as int, j as int, tile),
            !(i < old(self).spec_width() && j < old(self).spec_height()) ==> r == Err::<
                (),
                MapError,
            >(MapError::OutOfBounds) && *final(self) == *old(self),
    {
        if i >= self.width() || j >= self.height() {
            return Err(MapError::OutOfBounds);
        }
        let column = &mut self.0[i];
        column[j] = tile;
        proof {
            assert(final(self).wf());
        }
        Ok(())
    }

    /// Walls in the border: replaces every tile on the layer's edge with a
    /// copy of the given tile, leaving the interior untouched.
    pub fn update_edges(&mut self, tile: &Tile)
        requires
            old(self).wf(),
        ensures
            final(self).wf(),
            final(self).spec_width() == old(self).spec_width(),
            final(self).spec_height() == old(self).spec_height(),
            forall|a: int, b: int|
                0 <= a < old(self).spec_width() && 0 <= b < old(self).spec_height()
                    ==> if a == 0 || a == old(self).spec_width() - 1 || b == 0 || b == old(
                    self,
                ).spec_height() - 1 {
                    same_tile(#[trigger] final(self).spec_tile(a, b), *tile)
                } else {
                    final(self).spec_tile(a, b) == old(self).spec_tile(a, b)
                },
    {
        let width = self.width();
        let height = self.height();
        if width == 0 || height == 0 {
            return ;
        }
        let ghost orig = *self;

        let mut i: usize = 0;
        while i < width
            invariant
                0 <= i <= width,
                self.wf(),
                width == orig.spec_width(),
                height == orig.spec_height(),
                width > 0 && height > 0,
                self.spec_width() == width,
                self.spec_height() == height,
                forall|a: int, b: int|
                    0 <= a < width && 0 <= b < height ==> if a < i && (b == 0 || b == height - 1) {
                        same_tile(#[trigger] self.spec_tile(a, b), *tile)
                    } else {
                        self.spec_tile(a, b) == orig.spec_tile(a, b)
                    },
            decreases width - i,
        {
            let r1 = self.update(tile.duplicate(), i, 0);
            let r2 = self.update(tile.duplicate(), i, height - 1);
            i = i + 1;
        }

        let ghost mid = *self;
        let mut j: usize = 0;
        while j < height
            invariant
                0 <= j <= height,
                self.wf(),
                width == orig.spec_width(),
                height == orig.spec_height(),
                width > 0 && height > 0,
                self.spec_width() == width,
                self.spec_height() == height,
                forall|a: int, b: int|
                    0 <= a < width && 0 <= b < height ==> if (a == 0 || a == width - 1) && b < j {
                        same_tile(#[trigger] self.spec_tile(a, b), *tile)
                    } else {
                        self.spec_tile(a, b) == mid.spec_tile(a, b)
                    },
                forall|a: int, b: int|
                    0 <= a < width && 0 <= b < height ==> if b == 0 || b == height - 1 {
                        same_tile(#[trigger] mid.spec_tile(a, b), *tile)
                    } else {
                        mid.spec_tile(a, b) == orig.spec_tile(a, b)
                    },
            decreases height - j,
        {
            let r1 = self.update(tile.duplicate(), 0, j);
            let r2 = self.update(tile.duplicate(), width - 1, j);
            j = j + 1;
        }
    }

    /// Whether the coordinates lie inside the layer.
    pub fn is_in_bounds(&self, i: usize, j: usize) -> (r: bool)
        ensures
            r == (i < self.spec_width() && j < self.spec_height()),
    {
        !self.is_out_of_bounds(i, j)
    }

    /// Whether the coordinates fall off the layer.
    pub fn is_out_of_bounds(&self, i: usize, j: usize) -> (r: bool)
        ensures
            r == !(i < self.spec_width() && j < self.spec_height()),
    {
        (i >= self.width()) || (j >= self.height())
    }

    /// Whether an actor can stand at a location of this layer.
    pub fn is_traversable(&self, tile_location: TileLocation) -> (r: Result<bool, MapError>)
        requires
            self.wf(),
        ensures
            location_in_layer(*self, tile_location) ==> r == Ok::<bool, MapError>(
                self.spec_tile(tile_location.i as int, tile_location.j as int).spec_traversable(),
            ),
            !location_in_layer(*self, tile_location) ==> r == Err::<bool, MapError>(
                MapError::OutOfBounds,
            ),
    {
        match self.get_from_location(tile_location) {
            Ok(tile) => Ok(tile.is_traversable()),
            Err(e) => Err(e),
        }
    }
}

/// Whether a location's coordinates lie inside a layer.
pub open spec fn location_in_layer(layer: MapLayer, location: TileLocation) -> bool {
    &&& 0 <= location.i < layer.spec_width()
    &&& 0 <= location.j < layer.spec_height()
}

/// The second layer equals the first with one tile replaced.
pub open spec fn layer_updated(
    old_layer: MapLayer,
    new_layer: MapLayer,
    i: int,
    j: int,
    tile: Tile,
) -> bool {
    &&& new_layer.spec_width() == old_layer.spec_width()
    &&& new_layer.spec_height() == old_layer.spec_height()
    &&& new_layer.spec_tile(i, j) == tile
    &&& forall|a: int, b: int|
        0 <= a < old_layer.spec_width() && 0 <= b < old_layer.spec_height() && !(a == i && b == j)
            ==> new_layer.spec_tile(a, b) == old_layer.spec_tile(a, b)
}

/// The whole map: a pile of layers.
#[derive(Debug, Clone, PartialEq, Eq, Hash)]
pub struct GameMap(pub Vec<MapLayer>);

/// The tile a map holds at a location.
pub open spec fn map_tile(m: GameMap, location: MapLocation) -> Tile {
    m.0@[location.map_layer as int].spec_tile(
        location.tile_location.i as int,
        location.tile_location.j as int,
    )
}

/// Whether a map location names a real tile: its layer exists and its
/// coordinates lie inside that layer.
pub open spec fn location_on_map(m: GameMap, location: MapLocation) -> bool {
    &&& location.map_layer < m.0@.len()
    &&& location_in_layer(m.0@[location.map_layer as int], location.tile_location)
}

impl From<MapLayer> for GameMap {
    fn from(value: MapLayer) -> (r: Self) {
        let mut layers: Vec<MapLayer> = Vec::new();
        layers.push(value);
        Self::new(layers)
    }
}

impl vstd::std_specs::convert::FromSpecImpl<MapLayer> for GameMap {
    // A map holds a `Vec` of layers, which no spec expression can build, so
    // the conversion is left unspecified; verified code builds maps with
    // `new`, whose contract is exact.
    open spec fn obeys_from_spec() -> bool {
        false
    }

    open spec fn from_spec(value: MapLayer) -> Self {
        arbitrary()
    }
}

impl GameMap {
    /// Every layer is rectangular.
    pub open spec fn wf(self) -> bool {
        forall|i: int| 0 <= i < self.0@.len() ==> (#[trigger] self.0@[i]).wf()
    }

    /// Builds a map from its layers.
    pub fn new(layers: Vec<MapLayer>) -> (r: Self)
        ensures
            r == GameMap(layers),
    {
        Self(layers)
    }

    /// One layer by index, or `OutOfBounds`.
    pub fn get_layer(&self, i: usize) -> (r: Result<&MapLayer, MapError>)
        ensures
            i < self.0@.len() ==> (r matches Ok(l) && *l == self.0@[i as int]),
            i >= self.0@.len() ==> r == Err::<&MapLayer, MapError>(MapError::OutOfBounds),
    {
        if i >= self.0.len() {
            return Err(MapError::OutOfBounds);
        }
        Ok(&self.0[i])
    }

    /// The tile at a map location, or `OutOfBounds`.
    pub fn get(&self, location: MapLocation) -> (r: Result<&Tile, MapError>)
        requires
            self.wf(),
        ensures
            location_on_map(*self, location) ==> (r matches Ok(t) && *t == map_tile(
                *self,
                location,
            )),
            !location_on_map(*self, location) ==> r == Err::<&Tile, MapError>(
                MapError::OutOfBounds,
            ),
    {
        match self.get_layer(location.get_map_layer()) {
            Ok(layer) => layer.get_from_location(location.get_tile_location()),
            Err(e) => Err(e),
        }
    }

    /// Whether an actor can stand at a map location, or `OutOfBounds`.
    pub fn is_traversable(&self, location: MapLocation) -> (r: Result<bool, MapError>)
        requires
            self.wf(),
        ensures
            location_on_map(*self, location) ==> r == Ok::<bool, MapError>(
                map_tile(*self, location).spec_traversable(),
            ),
            !location_on_map(*self, location) ==> r == Err::<bool, MapError>(
                MapError::OutOfBounds,
            ),
    {
        match self.get_layer(location.get_map_layer()) {
            Ok(layer) => layer.is_traversable(location.get_tile_location()),
            Err(e) => Err(e),
        }
    }

    /// Replaces the tile at a map location, or reports `OutOfBounds` and
    /// leaves the map as it was.
    pub fn update(&mut self, tile: Tile, location: MapLocation) -> (r: Result<(), MapError>)
        requires
            old(self).wf(),
        ensures
            final(self).wf(),
            location_on_map(*old(self), location) ==> r == Ok::<(), MapError>(()) && map_updated(
                *old(self),
                *final(self),
                location,
                tile,
            ),
            !location_on_map(*old(self), location) ==> r == Err::<(), MapError>(
                MapError::OutOfBounds,
            ) && final(self).0@ == old(self).0@,
    {
        let layer_idx = location.get_map_layer();
        if layer_idx >= self.0.len() {
            return Err(MapError::OutOfBounds);
        }
        let layer = &mut self.0[layer_idx];
        let r = layer.update_at_location(tile, location.get_tile_location());
        proof {
            if !location_in_layer(old(self).0@[layer_idx as int], location.tile_location) {
                assert(final(self).0@ =~= old(self).0@);
            }
        }
        r
    }
}

/// The second map equals the first with one tile replaced.
pub open spec fn map_updated(old_map: GameMap, new_map: GameMap, location: MapLocation, tile: Tile) -> bool {
    &&& new_map.0@.len() == old_map.0@.len()
    &&& forall|l: int|
        0 <= l < old_map.0@.len() && l != location.map_layer ==> #[trigger] new_map.0@[l]
            == old_map.0@[l]
    &&& layer_updated(
        old_map.0@[location.map_layer as int],
        new_map.0@[location.map_layer as int],
        location.tile_location.i as int,
        location.tile_location.j as int,
        tile,
    )
}

/// Column-major grid indices are ordered: a full column precedes the next.
pub proof fn lemma_grid_index_public(a: int, b: int, i: int, height: int)
    requires
        0 <= a < i,
        0 <= b < height,
    ensures
        0 <= a * height + b,
        a * height + b + 1 <= i * height,
{
    assert(0 <= a * height + b && a * height + b + 1 <= i * height) by (nonlinear_arith)
        requires
            0 <= a < i,
            0 <= b < height,
    ;
}

/// A value copy of one column of tiles.
fn duplicate_column(v: &Vec<Tile>) -> (r: Vec<Tile>)
    ensures
        r@.len() == v@.len(),
        forall|i: int| 0 <= i < v@.len() ==> same_tile(#[trigger] r@[i], v@[i]),
{
    let n = v.len();
    let mut r: Vec<Tile> = Vec::new();
    let mut i: usize = 0;
    while i < n
        invariant
            0 <= i <= n,
            n == v@.len(),
            r@.len() == i,
            forall|k: int| 0 <= k < i ==> same_tile(#[trigger] r@[k], v@[k]),
        decreases n - i,
    {
        r.push(v[i].duplicate());
        i = i + 1;
    }
    r
}

/// The palette the host engine's renderer knows.
#[derive(Debug, Clone, Copy, PartialEq, Eq, Hash, Structural)]
pub enum ColorCode {
    AntiqueWhite,
    Red,
    Gray,
}

/// A character with a color, ready to draw.
#[derive(Debug, Clone, Copy, PartialEq, Eq, Hash, Structural)]
pub struct AsciiTileAppearance {
    pub character: char,
    pub color_code: ColorCode,
}

impl From<char> for AsciiTileAppearance {
    fn from(value: char) -> (r: Self) {
        Self::character(value)
    }
}

impl vstd::std_specs::convert::FromSpecImpl<char> for AsciiTileAppearance {
    open spec fn obeys_from_spec() -> bool {
        true
    }

    open spec fn from_spec(value: char) -> Self {
        AsciiTileAppearance { character: value, color_code: ColorCode::AntiqueWhite }
    }
}

impl AsciiTileAppearance {
    /// A character in a chosen color.
    pub fn new(character: char, color: ColorCode) -> (r: Self)
        ensures
            r == (AsciiTileAppearance { character, color_code: color }),
    {
        Self { character, color_code: color }
    }

    /// A character in the default color.
    pub fn character(character: char) -> (r: Self)
        ensures
            r == (AsciiTileAppearance { character, color_code: ColorCode::AntiqueWhite }),
    {
        Self::new(character, ColorCode::AntiqueWhite)
    }
}

/// How one tile is drawn: a colored character, or a sprite named by the
/// handle id the host engine assigned to its texture.
#[derive(Debug, Clone, Copy, PartialEq, Eq, Hash, Structural)]
pub enum TileAppearance {
    Ascii(AsciiTileAppearance),
    Sprite(u64),
}

/// The middle dot that marks walkable ground.
pub const MIDDLE_DOT: char = '\u{00B7}';

/// How a bare surface is drawn.
pub open spec fn spec_surface_appearance(surface: SurfaceTile) -> TileAppearance {
    match surface {
        SurfaceTile::Ground => TileAppearance::Ascii(
            AsciiTileAppearance { character: MIDDLE_DOT, color_code: ColorCode::AntiqueWhite },
        ),
        SurfaceTile::Wall => TileAppearance::Ascii(
            AsciiTileAppearance { character: '#', color_code: ColorCode::AntiqueWhite },
        ),
        SurfaceTile::Fireplace => TileAppearance::Ascii(
            AsciiTileAppearance { character: 'X', color_code: ColorCode::Red },
        ),
    }
}

impl TileAppearance {
    /// How a tile is drawn. Drawing object stacks is not part of this core,
    /// so the tile must carry none.
    pub fn from_tile(tile: &Tile) -> (r: Self)
        requires
            tile.stack@.len() == 0,
        ensures
            r == spec_surface_appearance(tile.surface),
    {
        match tile.get_surface() {
            SurfaceTile::Ground => TileAppearance::Ascii(AsciiTileAppearance::character(MIDDLE_DOT)),
            SurfaceTile::Wall => TileAppearance::Ascii(AsciiTileAppearance::character('#')),
            SurfaceTile::Fireplace => TileAppearance::Ascii(
                AsciiTileAppearance::new('X', ColorCode::Red),
            ),
        }
    }
}

/// A rectangular grid of drawable appearances, one per tile of a layer.
#[derive(Debug, Default, Clone, PartialEq, Eq, Hash)]
pub struct TileGrid {
    pub grid: Vec<Vec<TileAppearance>>,
}

impl TileGrid {
    /// The number of columns.
    pub open spec fn spec_width(self) -> int {
        self.grid@.len() as int
    }

    /// The number of appearances in each column.
    pub open spec fn spec_height(self) -> int {
        if self.grid@.len() == 0 {
            0
        } else {
            self.grid@[0]@.len() as int
        }
    }

    /// The grid is rectangular.
    pub open spec fn wf(self) -> bool {
        forall|i: int| 0 <= i < self.grid@.len() ==> (#[trigger] self.grid@[i])@.len()
            == self.spec_height()
    }

    /// The appearance in column `i` at row `j`.
    pub open spec fn spec_cell(self, i: int, j: int) -> TileAppearance {
        self.grid@[i]@[j]
    }

    /// Builds a grid from its columns.
    pub fn new(grid: Vec<Vec<TileAppearance>>) -> (r: Self)
        ensures
            r == (TileGrid { grid }),
    {
        Self { grid }
    }

    /// The drawable grid of a map layer, tile by tile. Layers carrying
    /// object stacks cannot be drawn by this core.
    pub fn from_map_layer(layer: MapLayer) -> (r: Self)
        requires
            layer.wf(),
            forall|i: int, j: int|
                0 <= i < layer.spec_width() && 0 <= j < layer.spec_height()
                    ==> (#[trigger] layer.spec_tile(i, j)).stack@.len() == 0,
        ensures
            r.wf(),
            r.spec_width() == layer.spec_width(),
            layer.spec_width() > 0 ==> r.spec_height() == layer.spec_height(),
            forall|i: int, j: int|
                0 <= i < layer.spec_width() && 0 <= j < layer.spec_height()
                    ==> #[trigger] r.spec_cell(i, j) == spec_surface_appearance(
                    layer.spec_tile(i, j).surface,
                ),
    {
        let width = layer.width();
        let height = layer.height();
        let mut grid: Vec<Vec<TileAppearance>> = Vec::new();
        let mut i: usize = 0;
        while i < width
            invariant
                0 <= i <= width,
                width == layer.spec_width(),
                height == layer.spec_height(),
                layer.wf(),
                forall|a: int, b: int|
                    0 <= a < width && 0 <= b < height ==> (#[trigger] layer.spec_tile(
                        a,
                        b,
                    )).stack@.len() == 0,
                grid@.len() == i,
                forall|k: int| 0 <= k < i ==> (#[trigger] grid@[k])@.len() == height,
                forall|k: int, j: int|
                    0 <= k < i && 0 <= j < height ==> #[trigger] grid@[k]@[j]
                        == spec_surface_appearance(layer.spec_tile(k, j).surface),
            decreases width - i,
        {
            let mut column: Vec<TileAppearance> = Vec::new();
            let mut j: usize = 0;
            while j < height
                invariant
                    0 <= j <= height,
                    0 <= i < width,
                    width == layer.spec_width(),
                    height == layer.spec_height(),
                    layer.wf(),
                    forall|a: int, b: int|
                        0 <= a < width && 0 <= b < height ==> (#[trigger] layer.spec_tile(
                            a,
                            b,
                        )).stack@.len() == 0,
                    column@.len() == j,
                    forall|k: int|
                        0 <= k < j ==> #[trigger] column@[k] == spec_surface_appearance(
                            layer.spec_tile(i as int, k).surface,
                        ),
                decreases height - j,
            {
                let tile = match layer.get(i, j) {
                    Ok(t) => t,
                    Err(_) => {
                        return unreached();
                    },
                };
                column.push(TileAppearance::from_tile(tile));
                j = j + 1;
            }
            grid.push(column);
            i = i + 1;
        }
        Self { grid }
    }

    /// The appearance at a coordinate pair, if it lies on the grid.
    pub fn get(&self, i: usize, j: usize) -> (r: Option<TileAppearance>)
        requires
            self.wf(),
        ensures
            (i < self.spec_width() && j < self.spec_height()) ==> r == Some(
                self.spec_cell(i as int, j as int),
            ),
            !(i < self.spec_width() && j < self.spec_height()) ==> r is None,
    {
        if self.is_in_bounds(i, j) {
            Some(self.grid[i][j])
        } else {
            None
        }
    }

    /// Replaces the appearance at a coordinate pair, or reports
    /// `OutOfBounds`.
    pub fn update(&mut self, i: usize, j: usize, tile: TileAppearance) -> (r: Result<(), MapError>)
        requires
            old(self).wf(),
        ensures
            final(self).wf(),
            (i < old(self).spec_width() && j < old(self).spec_height()) ==> {
                &&& r == Ok::<(), MapError>(())
                &&& final(self).spec_width() == old(self).spec_width()
                &&& final(self).spec_height() == old(self).spec_height()
                &&& final(self).spec_cell(i as int, j as int) == tile
                &&& forall|a: int, b: int|
                    0 <= a < old(self).spec_width() && 0 <= b < old(self).spec_height() && !(a
                        == i && b == j) ==> #[trigger] final(self).spec_cell(a, b) == old(
                        self,
                    ).spec_cell(a, b)
            },
            !(i < old(self).spec_width() && j < old(self).spec_height()) ==> r == Err::<
                (),
                MapError,
            >(MapError::OutOfBounds) && *final(self) == *old(self),
    {
        if self.is_in_bounds(i, j) {
            let column = &mut self.grid[i];
            column[j] = tile;
            proof {
                assert(final(self).wf());
            }
            Ok(())
        } else {
            Err(MapError::OutOfBounds)
        }
    }

    /// Every location and its appearance, column by column.
    pub fn enumerated(&self) -> (r: Vec<(TileLocation, TileAppearance)>)
        requires
            self.wf(),
            self.spec_width() <= i32::MAX,
            self.spec_height() <= i32::MAX,
            self.spec_width() * self.spec_height() <= usize::MAX,
        ensures
            r@.len() == self.spec_width() * self.spec_height(),
            forall|i: int, j: int|
                0 <= i < self.spec_width() && 0 <= j < self.spec_height()
                    ==> #[trigger] r@[i * self.spec_height() + j] == (
                TileLocation { i: i as i32, j: j as i32 },
                self.spec_cell(i, j),
            ),
    {
        let width = self.width();
        let height = self.height();
        let mut r: Vec<(TileLocation, TileAppearance)> = Vec::new();
        let mut i: usize = 0;
        while i < width
            invariant
                0 <= i <= width,
                width == self.spec_width(),
                height == self.spec_height(),
                self.wf(),
                width <= i32::MAX,
                height <= i32::MAX,
                width * height <= usize::MAX,
                r@.len() == i * height,
                forall|a: int, b: int|
                    0 <= a < i && 0 <= b < height ==> #[trigger] r@[a * height + b] == (
                    TileLocation { i: a as i32, j: b as i32 },
                    self.spec_cell(a, b),
                ),
            decreases width - i,
        {
            let mut j: usize = 0;
            proof {
                assert((i + 1) * height == i * height + height) by (nonlinear_arith);
                assert(i * height + height <= width * height) by (nonlinear_arith)
                    requires
                        i + 1 <= width,
                        height >= 0,
                ;
            }
            while j < height
                invariant
                    0 <= j <= height,
                    0 <= i < width,
                    width == self.spec_width(),
                    height == self.spec_height(),
                    self.wf(),
                    width <= i32::MAX,
                    height <= i32::MAX,
                    width * height <= usize::MAX,
                    i * height + height <= width * height,
                    r@.len() == i * height + j,
                    forall|a: int, b: int|
                        0 <= a < i && 0 <= b < height ==> #[trigger] r@[a * height + b] == (
                        TileLocation { i: a as i32, j: b as i32 },
                        self.spec_cell(a, b),
                    ),
                    forall|b: int|
                        0 <= b < j ==> #[trigger] r@[i * height + b] == (
                        TileLocation { i: i as i32, j: b as i32 },
                        self.spec_cell(i as int, b),
                    ),
                decreases height - j,
            {
                let ghost before = r@;
                r.push((TileLocation::new(i as i32, j as i32), self.grid[i][j]));
                proof {
                    assert forall|a: int, b: int|
                        0 <= a < i && 0 <= b < height implies #[trigger] r@[a * height + b] == (
                        TileLocation { i: a as i32, j: b as i32 },
                        self.spec_cell(a, b),
                    ) by {
                        lemma_grid_index_public(a, b, i as int, height as int);
                        assert(r@[a * height + b] == before[a * height + b]);
                    }
                }
                j = j + 1;
            }
            i = i + 1;
            proof {
                assert forall|a: int, b: int|
                    0 <= a < i && 0 <= b < height implies #[trigger] r@[a * height + b] == (
                    TileLocation { i: a as i32, j: b as i32 },
                    self.spec_cell(a, b),
                ) by {
                    if a < i - 1 {
                        lemma_grid_index_public(a, b, i as int - 1, height as int);
                        assert((i - 1) * height + height == i * height) by (nonlinear_arith);
                    }
                }
            }
        }
        r
    }

    /// The number of columns.
    pub fn width(&self) -> (r: usize)
        ensures
            r == self.spec_width(),
    {
        self.grid.len()
    }

    /// The height of the columns.
    pub fn height(&self) -> (r: usize)
        ensures
            r == self.spec_height(),
    {
        if self.grid.len() == 0 {
            0
        } else {
            self.grid[0].len()
        }
    }

    /// Whether the coordinates lie inside the grid.
    pub fn is_in_bounds(&self, i: usize, j: usize) -> (r: bool)
        ensures
            r == (i < self.spec_width() && j < self.spec_height()),
    {
        if self.grid.len() == 0 {
            false
        } else {
            (i < self.grid.len()) && (j < self.grid[0].len())
        }
    }
}

} // verus!

