use roguelike_core::map::AsciiTileAppearance;
use roguelike_core::map::ColorCode;
use roguelike_core::map::GameMap;
use roguelike_core::map::MapError;
use roguelike_core::map::MapLayer;
use roguelike_core::map::MapLocation;
use roguelike_core::map::SurfaceTile;
use roguelike_core::map::Tile;
use roguelike_core::map::TileAppearance;
use roguelike_core::map::TileGrid;
use roguelike_core::map::TileLocation;

#[test]
fn test_map_is_traversable() {
    let map_layer = MapLayer::fill(5, 5, Tile::empty_ground());
    assert!(map_layer.is_traversable(TileLocation::zero()).unwrap());

    let map: GameMap = MapLayer::fill(5, 5, Tile::empty_ground()).into();
    assert!(map
        .is_traversable(MapLocation::new(0, TileLocation::zero()))
        .unwrap());
    assert!(map
        .get_layer(0)
        .unwrap()
        .is_traversable(TileLocation::zero())
        .unwrap());
    assert!(map
        .is_traversable(MapLocation::new(0, TileLocation::new(4, 4)))
        .unwrap());

    let map: GameMap = MapLayer::fill(5, 5, Tile::wall()).into();
    assert_eq!(
        map.is_traversable(MapLocation::new(0, TileLocation::zero()))
            .unwrap(),
        false
    );
    assert_eq!(
        map.get_layer(0)
            .unwrap()
            .is_traversable(TileLocation::zero())
            .unwrap(),
        false
    );
    assert_eq!(
        map.is_traversable(MapLocation::new(0, TileLocation::new(4, 4)))
            .unwrap(),
        false
    );
}

#[test]
fn test_map_layer_width_and_height() {
    let grid = MapLayer::fill(4, 9, Tile::wall());
    assert_eq!(grid.width(), 4);
    assert_eq!(grid.height(), 9);
}

#[test]
fn test_map_layer_fills() {
    assert_eq!(
        MapLayer::new(Vec::new()),
        MapLayer::fill(0, 0, Tile::wall())
    );

    assert_eq!(
        MapLayer::new(vec![
            vec![Tile::wall(), Tile::wall()],
            vec![Tile::wall(), Tile::wall()],
            vec![Tile::wall(), Tile::wall()],
            vec![Tile::wall(), Tile::wall()],
        ]),
        MapLayer::fill(4, 2, Tile::wall())
    );
}

#[test]
fn test_map_layer_i_j_tile_vector() {
    let grid = MapLayer::fill(4, 9, Tile::wall());
    let v = grid.as_location_and_tile_vector();
    assert_eq!(v.len(), grid.size());

    assert_eq!(v[0], (TileLocation::zero(), Tile::wall()));
    assert_eq!(v.last(), Some(&(TileLocation::new(3, 8), Tile::wall())));
}

#[test]
fn edges_become_walls() {
    let mut layer = MapLayer::fill(4, 3, Tile::empty_ground());
    layer.update_edges(&Tile::wall());
    for i in 0..4usize {
        for j in 0..3usize {
            let expected = if i == 0 || i == 3 || j == 0 || j == 2 {
                SurfaceTile::Wall
            } else {
                SurfaceTile::Ground
            };
            assert_eq!(layer.get(i, j).unwrap().surface, expected);
        }
    }
}

#[test]
fn out_of_bounds_accesses_are_rejected() {
    let layer = MapLayer::fill(3, 3, Tile::empty_ground());
    assert_eq!(layer.get(3, 0), Err(MapError::OutOfBounds));
    assert_eq!(
        layer.get_from_location(TileLocation::new(-1, 0)),
        Err(MapError::OutOfBounds)
    );

    let map: GameMap = layer.into();
    assert_eq!(
        map.is_traversable(MapLocation::new(1, TileLocation::zero())),
        Err(MapError::OutOfBounds)
    );
}

#[test]
fn map_updates_replace_one_tile() {
    let mut map: GameMap = MapLayer::fill(3, 3, Tile::empty_ground()).into();
    let at = MapLocation::new(0, TileLocation::new(1, 2));
    map.update(Tile::wall(), at).unwrap();
    assert_eq!(map.get(at).unwrap().surface, SurfaceTile::Wall);
    assert_eq!(
        map.get(MapLocation::new(0, TileLocation::zero()))
            .unwrap()
            .surface,
        SurfaceTile::Ground
    );
    assert_eq!(
        map.update(Tile::wall(), MapLocation::new(0, TileLocation::new(9, 9))),
        Err(MapError::OutOfBounds)
    );
}

#[test]
fn directions_towards_other_locations() {
    let here = MapLocation::new(0, TileLocation::new(2, 2));
    let up_right = MapLocation::new(0, TileLocation::new(5, 7));
    let same_spot = MapLocation::new(0, TileLocation::new(2, 2));
    let other_floor = MapLocation::new(1, TileLocation::new(5, 7));
    assert_eq!(
        here.get_direction_towards(&up_right),
        Some(roguelike_core::events::Direction::UpRight)
    );
    assert_eq!(here.get_direction_towards(&same_spot), None);
    assert_eq!(here.get_direction_towards(&other_floor), None);
    assert!(here.is_on_same_floor(&up_right));
    assert!(!here.is_on_same_floor(&other_floor));
}

#[test]
fn tile_grids_render_surfaces() {
    let mut layer = MapLayer::fill(3, 2, Tile::empty_ground());
    layer.update(Tile::wall(), 0, 0).unwrap();
    layer
        .update(Tile::empty(SurfaceTile::Fireplace), 2, 1)
        .unwrap();
    let grid = TileGrid::from_map_layer(layer);
    assert_eq!(
        grid.get(0, 0),
        Some(TileAppearance::Ascii(AsciiTileAppearance::character('#')))
    );
    assert_eq!(
        grid.get(1, 0),
        Some(TileAppearance::Ascii(AsciiTileAppearance::character(
            '\u{00B7}'
        )))
    );
    assert_eq!(
        grid.get(2, 1),
        Some(TileAppearance::Ascii(AsciiTileAppearance::new(
            'X',
            ColorCode::Red
        )))
    );
    assert_eq!(grid.get(3, 0), None);

    let cells = grid.enumerated();
    assert_eq!(cells.len(), 6);
    assert_eq!(cells[0].0, TileLocation::zero());
}
