use roguelike_core::map::GameMap;
use roguelike_core::map::MapLayer;
use roguelike_core::map::Tile;
use roguelike_core::map::TileLocation;
use roguelike_core::map_editor::sanitize_map_name;
use roguelike_core::map_editor::InputError;
use roguelike_core::map_editor::MapEditorMenuType;
use roguelike_core::map_editor::MapEditorMenuUIState;
use roguelike_core::map_editor::Transaction;
use roguelike_core::map_editor::TransactionStore;
use roguelike_core::map_editor::TransactionStoreError;
use roguelike_core::menu::MenuType;

#[test]
fn test_transactions_compile() {
    let map: GameMap = MapLayer::fill(10, 20, Tile::empty_ground()).into();
    let mut store = TransactionStore::from_snapshot(map);
    store.add(Transaction::Update(
        Tile::wall(),
        TileLocation::new(3, 5).into(),
    ));
    store.add(Transaction::Update(
        Tile::wall(),
        TileLocation::new(4, 5).into(),
    ));
    store.add(Transaction::Update(
        Tile::wall(),
        TileLocation::new(5, 5).into(),
    ));
    let _ = store.undo();

    let mut expected: GameMap = MapLayer::fill(10, 20, Tile::empty_ground()).into();
    let _ = expected.update(Tile::wall(), TileLocation::new(3, 5).into());
    let _ = expected.update(Tile::wall(), TileLocation::new(4, 5).into());

    assert_eq!(store.compile(), Ok(expected));
}

#[test]
fn compiling_without_a_snapshot_fails() {
    let store = TransactionStore::new(vec![Transaction::Update(
        Tile::wall(),
        TileLocation::zero().into(),
    )]);
    assert_eq!(
        store.compile(),
        Err(TransactionStoreError::NoSnapshotTransaction)
    );

    let mut empty = TransactionStore::new(Vec::new());
    assert_eq!(
        empty.undo(),
        Err(TransactionStoreError::NoTransactionsToUndo)
    );
}

#[test]
fn compile_layer_checks_the_layer_exists() {
    let map: GameMap = MapLayer::fill(2, 2, Tile::empty_ground()).into();
    let store = TransactionStore::from_snapshot(map);
    assert!(store.compile_layer(0).is_ok());
    assert_eq!(
        store.compile_layer(1),
        Err(TransactionStoreError::CurrentLayerDoesntExist)
    );
}

#[test]
fn undoing_the_snapshot_breaks_compilation() {
    let map: GameMap = MapLayer::fill(2, 2, Tile::empty_ground()).into();
    let mut store = TransactionStore::from_snapshot(map);
    assert!(store.undo().is_ok());
    assert_eq!(
        store.compile(),
        Err(TransactionStoreError::NoSnapshotTransaction)
    );
}

#[test]
fn map_names_are_sanitized() {
    assert_eq!(
        sanitize_map_name("cellar".to_string()),
        Ok("cellar".to_string())
    );
    assert_eq!(
        sanitize_map_name("".to_string()),
        Err(InputError::InvalidFileStem("".to_string()))
    );
    assert_eq!(
        sanitize_map_name("a/b".to_string()),
        Err(InputError::InvalidFileStem("a/b".to_string()))
    );
    assert_eq!(
        sanitize_map_name("floor.one".to_string()),
        Err(InputError::InvalidFileStem("floor.one".to_string()))
    );
    assert_eq!(
        sanitize_map_name("CON".to_string()),
        Err(InputError::InvalidFileStem("CON".to_string()))
    );
    assert_eq!(
        sanitize_map_name("lpt7".to_string()),
        Err(InputError::InvalidFileStem("lpt7".to_string()))
    );
    assert_eq!(
        sanitize_map_name(" cave".to_string()),
        Err(InputError::InvalidFileStem(" cave".to_string()))
    );
    assert_eq!(
        sanitize_map_name("cave ".to_string()),
        Err(InputError::InvalidFileStem("cave ".to_string()))
    );
    let long = "x".repeat(256);
    assert_eq!(
        sanitize_map_name(long.clone()),
        Err(InputError::InvalidFileStem(long))
    );
    assert_eq!(
        InputError::InvalidFileStem("a/b".to_string()).to_string(),
        "Invalid Filename: a/b"
    );
}

#[test]
fn editor_menus_open_with_their_widgets() {
    let menu = MapEditorMenuUIState::default();
    assert_eq!(menu.menu_type, MapEditorMenuType::NewOrLoadMenu);
    match &menu.menu_state.menu_type {
        MenuType::SelectFinite(options) => {
            assert_eq!(options, &vec!["New Map".to_string(), "Load Map".to_string()]);
        }
        other => panic!("unexpected menu widget: {other:?}"),
    }

    let load = MapEditorMenuUIState::from_type(MapEditorMenuType::LoadMapMenu(vec![
        "cellar".to_string(),
    ]));
    match &load.menu_state.menu_type {
        MenuType::SearchAndSelect(title, maps) => {
            assert_eq!(title, "Load Map");
            assert_eq!(maps, &vec!["cellar".to_string()]);
        }
        other => panic!("unexpected menu widget: {other:?}"),
    }
}
