use roguelike_core::tiles::Tile;
use roguelike_core::tiles::TileGrid;
use roguelike_core::tiles::TileGridError;

#[test]
fn test_tilegrid_width_and_height() {
    let grid = TileGrid::fill(4, 9, Tile::Ascii('a'));
    assert_eq!(grid.width(), 4);
    assert_eq!(grid.height(), 9);
}

#[test]
fn test_tilegrid_fills() {
    assert_eq!(
        TileGrid::new(Vec::new()),
        TileGrid::fill(0, 0, Tile::Ascii('a'))
    );

    assert_eq!(
        TileGrid::new(vec![
            vec![Tile::Ascii('a'), Tile::Ascii('a')],
            vec![Tile::Ascii('a'), Tile::Ascii('a')],
            vec![Tile::Ascii('a'), Tile::Ascii('a')],
            vec![Tile::Ascii('a'), Tile::Ascii('a')],
        ]),
        TileGrid::fill(4, 2, Tile::Ascii('a'))
    );
}

#[test]
fn test_tilegrid_i_j_tile_vector() {
    let grid = TileGrid::fill(4, 9, Tile::Ascii('a'));
    let v = grid.as_i_j_tile_vector();
    assert_eq!(v.len(), grid.size());

    assert_eq!(v[0], (0, 0, Tile::Ascii('a')));
    assert_eq!(v.last(), Some(&(3, 8, Tile::Ascii('a'))));
}

#[test]
fn tilegrid_updates_one_cell() {
    let mut grid = TileGrid::fill(2, 2, Tile::Ascii('a'));
    assert_eq!(grid.update(1, 0, Tile::Ascii('b')), Ok(()));
    assert_eq!(*grid.get(1, 0), Tile::Ascii('b'));
    assert_eq!(*grid.get(0, 0), Tile::Ascii('a'));
    assert_eq!(
        grid.update(2, 0, Tile::Ascii('c')),
        Err(TileGridError::OutOfBounds)
    );
}
