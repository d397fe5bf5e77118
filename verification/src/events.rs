//! Directions in which actors, particles and the camera move.

use vstd::prelude::*;

use crate::map::TileLocation;

verus! {

/// One of the eight compass directions of the tile grid.
#[derive(Debug, Clone, Copy, Hash, PartialEq, Eq, Structural)]
pub enum Direction {
    Up,
    UpRight,
    Right,
    DownRight,
    Down,
    DownLeft,
    Left,
    UpLeft,
}

impl Direction {
    /// The unit step this direction takes on the tile grid.
    pub open spec fn spec_tile_location(self) -> TileLocation {
        match self {
            Direction::Up => TileLocation { i: 0i32, j: 1i32 },
            Direction::UpRight => TileLocation { i: 1i32, j: 1i32 },
            Direction::Right => TileLocation { i: 1i32, j: 0i32 },
            Direction::DownRight => TileLocation { i: 1i32, j: -1i32 },
            Direction::Down => TileLocation { i: 0i32, j: -1i32 },
            Direction::DownLeft => TileLocation { i: -1i32, j: -1i32 },
            Direction::Left => TileLocation { i: -1i32, j: 0i32 },
            Direction::UpLeft => TileLocation { i: -1i32, j: 1i32 },
        }
    }

    /// The unit step this direction takes on the tile grid.
    pub fn as_tile_location(&self) -> (r: TileLocation)
        ensures
            r == self.spec_tile_location(),
            -1 <= r.i <= 1 && -1 <= r.j <= 1,
    {
        match self {
            Direction::Up => TileLocation::new(0, 1),
            Direction::UpRight => TileLocation::new(1, 1),
            Direction::Right => TileLocation::new(1, 0),
            Direction::DownRight => TileLocation::new(1, -1),
            Direction::Down => TileLocation::new(0, -1),
            Direction::DownLeft => TileLocation::new(-1, -1),
            Direction::Left => TileLocation::new(-1, 0),
            Direction::UpLeft => TileLocation::new(-1, 1),
        }
    }
}

} // verus!
