use roguelike_core::character::ActionClockComponent;
use roguelike_core::enemy::AICommand;
use roguelike_core::enemy::AIComponent;
use roguelike_core::events::Direction;
use roguelike_core::map::GameMap;
use roguelike_core::map::MapLayer;
use roguelike_core::map::MapLocation;
use roguelike_core::map::Tile;
use roguelike_core::map::TileLocation;
use roguelike_core::scheduler::resolve_move;
use roguelike_core::scheduler::sort_actors_by_clock;
use roguelike_core::scheduler::GameState;
use roguelike_core::scheduler::MoveResolution;
use roguelike_core::scheduler::TimeElapsed;
use roguelike_core::scheduler::TurnIntent;
use roguelike_core::scheduler::TurnScheduler;

#[test]
fn turn_order_round_trip_serves_ascending_clocks() {
    let mut scheduler = TurnScheduler::new();
    let mut time = TimeElapsed(0);
    scheduler.end_player_turn(&mut time, 10);
    assert_eq!(scheduler.phase, GameState::NonPlayerTurns);
    assert_eq!(time.0, 10);

    let actors = vec![(101u64, 30u8), (102u64, 5u8), (103u64, 17u8)];
    scheduler.determine_turn_order(actors);

    let mut served = Vec::new();
    while let Some(actor) = scheduler.pop_next_actor() {
        served.push(actor);
    }
    assert_eq!(served, vec![102, 103, 101]);
    assert_eq!(scheduler.phase, GameState::Exploring);
    assert!(scheduler.pop_next_actor().is_none());
}

#[test]
fn sorting_is_stable_for_equal_clocks() {
    let sorted = sort_actors_by_clock(vec![(1, 9), (2, 3), (3, 9), (4, 3)]);
    assert_eq!(sorted, vec![(2, 3), (4, 3), (1, 9), (3, 9)]);
}

#[test]
fn actors_with_unfinished_clocks_carry_the_remainder() {
    let mut scheduler = TurnScheduler::new();
    let mut time = TimeElapsed(0);
    scheduler.end_player_turn(&mut time, 10);

    let mut clock = ActionClockComponent(25);
    let mut ai = AIComponent::new(vec![AICommand::Wait(40)]);
    let acted = scheduler.take_actor_turn(&mut clock, &mut ai);
    assert_eq!(acted, None);
    assert_eq!(clock.0, 15);

    let mut due = ActionClockComponent(4);
    let acted = scheduler.take_actor_turn(&mut due, &mut ai);
    assert_eq!(acted, Some(AICommand::Wait(40)));
    assert_eq!(due.0, 40);
}

#[test]
fn commands_resolve_to_intents() {
    let actor = MapLocation::new(0, TileLocation::new(4, 4));
    let player = MapLocation::new(0, TileLocation::new(2, 2));
    let far_player = MapLocation::new(1, TileLocation::new(2, 2));

    assert_eq!(
        TurnScheduler::resolve_command(AICommand::Wait(3), actor, player),
        TurnIntent::Nothing
    );
    assert_eq!(
        TurnScheduler::resolve_command(AICommand::Move(Direction::Left), actor, player),
        TurnIntent::Move(Direction::Left)
    );
    assert_eq!(
        TurnScheduler::resolve_command(AICommand::MoveTowardsPlayer, actor, player),
        TurnIntent::Move(Direction::DownLeft)
    );
    assert_eq!(
        TurnScheduler::resolve_command(AICommand::MoveTowardsPlayer, actor, far_player),
        TurnIntent::Nothing
    );
    assert_eq!(
        TurnScheduler::resolve_command(AICommand::Speak("hello".to_string()), actor, player),
        TurnIntent::Speak("hello".to_string())
    );
    assert_eq!(
        TurnScheduler::resolve_command(AICommand::Attack, actor, player),
        TurnIntent::Attack
    );
}

#[test]
fn moves_resolve_against_map_and_occupants() {
    let mut layer = MapLayer::fill(4, 4, Tile::empty_ground());
    layer.update(Tile::wall(), 2, 1).unwrap();
    let map: GameMap = layer.into();
    let mover = MapLocation::new(0, TileLocation::new(1, 1));

    let nobody: Vec<MapLocation> = Vec::new();
    assert_eq!(
        resolve_move(&map, mover, Direction::Up, &nobody),
        MoveResolution::Moved(MapLocation::new(0, TileLocation::new(1, 2)))
    );
    assert_eq!(
        resolve_move(&map, mover, Direction::Right, &nobody),
        MoveResolution::NotTraversable
    );
    assert_eq!(
        resolve_move(&map, mover, Direction::DownLeft, &nobody),
        MoveResolution::Moved(MapLocation::new(0, TileLocation::new(0, 0)))
    );
    let off = MapLocation::new(0, TileLocation::new(0, 0));
    assert_eq!(
        resolve_move(&map, off, Direction::Left, &nobody),
        MoveResolution::OffMap
    );

    let occupied = vec![MapLocation::new(0, TileLocation::new(1, 2))];
    assert_eq!(
        resolve_move(&map, mover, Direction::Up, &occupied),
        MoveResolution::BlockedByEntity
    );
}
