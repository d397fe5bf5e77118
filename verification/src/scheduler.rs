//! The non-player turn scheduler.
//!
//! When a player action consumes time, the game enters the non-player turn
//! phase: every other actor is ordered by remaining action-clock ticks,
//! ascending, and processed one at a time. An actor whose clock runs out
//! advances its AI program one step, emits the resulting intent, and re-arms
//! its clock with the new action's cost; an actor whose clock stays positive
//! carries the remainder into the next phase. When the order is exhausted the
//! game returns to exploration.

use vstd::prelude::*;

use crate::character::ActionClockComponent;
use crate::enemy::AICommand;
use crate::enemy::AIComponent;
use crate::events::Direction;
use crate::map::GameMap;
use crate::map::MapLocation;
use crate::map::location_on_map;
use crate::map::map_tile;
use crate::map::spec_direction_towards;

verus! {

/// The phases the game passes through.
#[derive(Debug, Default, Clone, Copy, PartialEq, Eq, Hash, Structural)]
pub enum GameState {
    #[default]
    LoadingAssets,
    LoadingUI,
    InitializingWorld,
    LoadingMap,
    Exploring,
    NonPlayerTurns,
    Interacting,
    Menu,
    Paused,
    GameOver,
    Victory,
    PlayerMenu,
    EditingMapMenu,
    EditingMap,
}

/// The phase play stood in when it was paused, to return to on unpause.
#[derive(Debug, Default, Clone, Copy, PartialEq, Eq, Hash, Structural)]
pub struct PausedState(pub GameState);

/// Total game time consumed so far, in ticks.
#[derive(Debug, Default, Clone, Copy, PartialEq, Eq, Hash, Structural)]
pub struct TimeElapsed(pub u64);

impl TimeElapsed {
    /// Advances the game clock.
    pub fn increment(&mut self, amount: u64)
        requires
            old(self).0 + amount <= u64::MAX,
        ensures
            final(self).0 == old(self).0 + amount,
    {
        self.0 = self.0 + amount;
    }
}

/// The actors still owed a turn this phase, as a stack: the next actor to
/// act sits at the end.
#[derive(Debug, Clone, PartialEq, Eq, Hash)]
pub struct NonPlayerTurnOrder(pub Vec<u64>);

/// The game time the player's last action consumed, which every non-player
/// clock is ticked by during the phase it opened.
#[derive(Debug, Clone, Copy, PartialEq, Eq, Hash, Structural)]
pub struct NonPlayerTurnLength(pub u8);

/// Entries sorted by remaining clock, ascending.
pub open spec fn sorted_by_clock(s: Seq<(u64, u8)>) -> bool {
    forall|i: int, j: int| 0 <= i < j < s.len() ==> (#[trigger] s[i]).1 <= (#[trigger] s[j]).1
}

/// Inserts an entry into a run sorted ascending by clock, after every entry
/// whose clock does not exceed it, so that earlier actors keep their place
/// among ties.
pub open spec fn spec_insert_by_clock(s: Seq<(u64, u8)>, x: (u64, u8)) -> Seq<(u64, u8)>
    decreases s.len(),
{
    if s.len() == 0 {
        seq![x]
    } else if x.1 < s[0].1 {
        seq![x] + s
    } else {
        seq![s[0]] + spec_insert_by_clock(s.drop_first(), x)
    }
}

/// Insertion sort by remaining clock, stable: entries are inserted in input
/// order, each after all entries with a clock no larger than its own.
pub open spec fn spec_sort_by_clock(s: Seq<(u64, u8)>) -> Seq<(u64, u8)>
    decreases s.len(),
{
    if s.len() == 0 {
        Seq::empty()
    } else {
        spec_insert_by_clock(spec_sort_by_clock(s.drop_last()), s.last())
    }
}

/// Inserting anywhere in a run adds the entry to its multiset.
proof fn lemma_seq_insert_multiset(s: Seq<(u64, u8)>, x: (u64, u8), pos: int)
    requires
        0 <= pos <= s.len(),
    ensures
        s.insert(pos, x).to_multiset() == s.to_multiset().insert(x),
{
    broadcast use vstd::multiset::group_multiset_axioms;

    let ins = s.insert(pos, x);
    ins.to_multiset_ensures();
    s.to_multiset_ensures();
    assert(ins.remove(pos) =~= s);
    assert(ins[pos] == x);
    assert(ins.remove(pos).to_multiset() =~= ins.to_multiset().remove(x));
    assert(ins.contains(x));
    assert(ins.to_multiset().count(x) > 0);
    assert forall|e: (u64, u8)|
        ins.to_multiset().count(e) == s.to_multiset().insert(x).count(e) by {
        if e == x {
            assert(s.to_multiset().count(x) == ins.to_multiset().remove(x).count(x));
        } else {
            assert(s.to_multiset().count(e) == ins.to_multiset().remove(x).count(e));
        }
    }
    assert(ins.to_multiset() =~= s.to_multiset().insert(x));
}

/// Inserting keeps the run sorted and only adds the new entry.
pub proof fn lemma_insert_by_clock(s: Seq<(u64, u8)>, x: (u64, u8))
    requires
        sorted_by_clock(s),
    ensures
        sorted_by_clock(spec_insert_by_clock(s, x)),
        spec_insert_by_clock(s, x).to_multiset() == s.to_multiset().insert(x),
        spec_insert_by_clock(s, x).len() == s.len() + 1,
    decreases s.len(),
{
    let r = spec_insert_by_clock(s, x);
    if s.len() == 0 {
        assert(seq![x] =~= s.insert(0, x));
        lemma_seq_insert_multiset(s, x, 0);
    } else if x.1 < s[0].1 {
        assert(r == seq![x] + s);
        assert(r.drop_first() =~= s);
        assert(r =~= s.insert(0, x));
        lemma_seq_insert_multiset(s, x, 0);
        assert forall|i: int, j: int|
            0 <= i < j < r.len() implies (#[trigger] r[i]).1 <= (#[trigger] r[j]).1 by {
            if i == 0 {
                assert(r[j] == s[j - 1]);
                assert(s[0].1 <= s[j - 1].1 || j - 1 == 0);
            } else {
                assert(r[i] == s[i - 1] && r[j] == s[j - 1]);
            }
        }
    } else {
        assert(sorted_by_clock(s.drop_first()));
        lemma_insert_by_clock(s.drop_first(), x);
        let inner = spec_insert_by_clock(s.drop_first(), x);
        assert(r == seq![s[0]] + inner);
        // Multiset bookkeeping: prepending the head adds it back.
        assert(r =~= inner.insert(0, s[0]));
        lemma_seq_insert_multiset(inner, s[0], 0);
        assert(s.drop_first() =~= s.remove(0));
        assert(s =~= s.drop_first().insert(0, s[0]));
        lemma_seq_insert_multiset(s.drop_first(), s[0], 0);
        assert(r.to_multiset() =~= s.to_multiset().insert(x)) by {
            broadcast use vstd::multiset::group_multiset_axioms;

            assert(r.to_multiset() == inner.to_multiset().insert(s[0]));
            assert(inner.to_multiset() == s.drop_first().to_multiset().insert(x));
            assert(s.to_multiset() == s.drop_first().to_multiset().insert(s[0]));
        }
        // Sortedness: the head is no larger than anything inserted after it.
        assert forall|i: int, j: int|
            0 <= i < j < r.len() implies (#[trigger] r[i]).1 <= (#[trigger] r[j]).1 by {
            if i == 0 {
                assert(r[j] == inner[j - 1]);
                assert(inner.to_multiset().contains(inner[j - 1])) by {
                    inner.to_multiset_ensures();
                }
                assert(s.drop_first().to_multiset().insert(x).contains(inner[j - 1]));
                if inner[j - 1] == x {
                    assert(s[0].1 <= x.1);
                } else {
                    assert(s.drop_first().to_multiset().contains(inner[j - 1]));
                    s.drop_first().to_multiset_ensures();
                    assert(s.drop_first().contains(inner[j - 1]));
                    let k = choose|k: int|
                        0 <= k < s.drop_first().len() && s.drop_first()[k] == inner[j - 1];
                    assert(s[0].1 <= s[k + 1].1);
                }
            } else {
                assert(r[i] == inner[i - 1] && r[j] == inner[j - 1]);
            }
        }
    }
}

/// The sort returns the same actors, ordered by clock.
pub proof fn lemma_sort_by_clock(s: Seq<(u64, u8)>)
    ensures
        sorted_by_clock(spec_sort_by_clock(s)),
        spec_sort_by_clock(s).to_multiset() == s.to_multiset(),
        spec_sort_by_clock(s).len() == s.len(),
    decreases s.len(),
{
    if s.len() == 0 {
        assert(spec_sort_by_clock(s) =~= Seq::<(u64, u8)>::empty());
        assert(spec_sort_by_clock(s) =~= s);
    } else {
        lemma_sort_by_clock(s.drop_last());
        lemma_insert_by_clock(spec_sort_by_clock(s.drop_last()), s.last());
        s.to_multiset_ensures();
        assert(s.drop_last().push(s.last()) =~= s);
        s.drop_last().to_multiset_ensures();
        assert(s.drop_last().push(s.last()).to_multiset() == s.drop_last().to_multiset().insert(
            s.last(),
        ));
    }
}

/// Sorts actors ascending by remaining clock; ties keep their input order.
pub fn sort_actors_by_clock(actors: Vec<(u64, u8)>) -> (r: Vec<(u64, u8)>)
    ensures
        r@ == spec_sort_by_clock(actors@),
        sorted_by_clock(r@),
        r@.to_multiset() == actors@.to_multiset(),
        r@.len() == actors@.len(),
{
    let n = actors.len();
    let mut r: Vec<(u64, u8)> = Vec::new();
    let mut i: usize = 0;
    while i < n
        invariant
            0 <= i <= n,
            n == actors@.len(),
            r@ == spec_sort_by_clock(actors@.take(i as int)),
            sorted_by_clock(r@),
        decreases n - i,
    {
        let x = actors[i];
        let ghost before = r@;
        // Find the first position whose clock exceeds the new entry's.
        let mut pos: usize = 0;
        while pos < r.len() && r[pos].1 <= x.1
            invariant
                0 <= pos <= r@.len(),
                forall|k: int| 0 <= k < pos ==> (#[trigger] r@[k]).1 <= x.1,
                r@ == before,
            decreases r@.len() - pos,
        {
            pos = pos + 1;
        }
        r.insert(pos, x);
        proof {
            assert(before.take(pos as int) =~= r@.take(pos as int));
            lemma_insert_at_position(before, x, pos as int);
            assert(r@ =~= before.insert(pos as int, x));
            assert(actors@.take(i as int + 1).drop_last() =~= actors@.take(i as int));
            assert(actors@.take(i as int + 1).last() == actors@[i as int]);
            lemma_insert_by_clock(before, x);
        }
        i = i + 1;
    }
    proof {
        assert(actors@.take(n as int) =~= actors@);
        lemma_sort_by_clock(actors@);
    }
    r
}

/// In a sorted run, inserting at the first position whose clock exceeds the
/// entry's is what `spec_insert_by_clock` does.
proof fn lemma_insert_at_position(s: Seq<(u64, u8)>, x: (u64, u8), pos: int)
    requires
        sorted_by_clock(s),
        0 <= pos <= s.len(),
        forall|k: int| 0 <= k < pos ==> (#[trigger] s[k]).1 <= x.1,
        pos < s.len() ==> s[pos].1 > x.1,
    ensures
        spec_insert_by_clock(s, x) == s.insert(pos, x),
    decreases s.len(),
{
    if s.len() == 0 {
        assert(spec_insert_by_clock(s, x) =~= s.insert(0, x));
    } else if x.1 < s[0].1 {
        assert(pos == 0);
        assert(spec_insert_by_clock(s, x) =~= s.insert(0, x));
    } else {
        assert(pos > 0);
        assert(sorted_by_clock(s.drop_first()));
        assert(forall|k: int|
            0 <= k < pos - 1 ==> (#[trigger] s.drop_first()[k]).1 == s[k + 1].1 && s[k + 1].1
                <= x.1);
        assert(pos - 1 < s.drop_first().len() ==> s.drop_first()[pos - 1].1 > x.1);
        lemma_insert_at_position(s.drop_first(), x, pos - 1);
        assert(spec_insert_by_clock(s, x) == seq![s[0]] + s.drop_first().insert(pos - 1, x));
        assert(seq![s[0]] + s.drop_first().insert(pos - 1, x) =~= s.insert(pos, x));
    }
}

/// What an actor's turn asks the surrounding systems to do.
#[derive(Debug, Clone, PartialEq, Eq)]
pub enum TurnIntent {
    /// Nothing to carry out: the actor waited, or its target is unreachable.
    Nothing,
    /// Try to move one step.
    Move(Direction),
    /// Say a line, for the log.
    Speak(String),
    /// Strike; resolution belongs to the combat system.
    Attack,
}

/// What one actor's turn decided; see `TurnScheduler::resolve_command`.
pub open spec fn spec_resolve_command(
    command: AICommand,
    actor_location: MapLocation,
    player_location: MapLocation,
) -> TurnIntent {
    match command {
        AICommand::Wait(_) => TurnIntent::Nothing,
        AICommand::Move(direction) => TurnIntent::Move(direction),
        AICommand::MoveTowardsPlayer => {
            if actor_location.map_layer == player_location.map_layer {
                match spec_direction_towards(actor_location, player_location) {
                    Some(direction) => TurnIntent::Move(direction),
                    None => TurnIntent::Nothing,
                }
            } else {
                TurnIntent::Nothing
            }
        },
        AICommand::Speak(s) => TurnIntent::Speak(s),
        AICommand::Attack => TurnIntent::Attack,
    }
}

/// How an attempted one-step move resolves.
#[derive(Debug, Clone, Copy, PartialEq, Eq, Structural)]
pub enum MoveResolution {
    /// The step lands on a free, walkable tile.
    Moved(MapLocation),
    /// Another actor stands on the target tile.
    BlockedByEntity,
    /// The target tile cannot be walked on.
    NotTraversable,
    /// The step leaves the map.
    OffMap,
}

/// How a step from `mover` resolves; see `resolve_move`.
pub open spec fn spec_resolve_move(
    map: GameMap,
    target: MapLocation,
    occupied: Seq<MapLocation>,
) -> MoveResolution {
    if occupied.contains(target) {
        MoveResolution::BlockedByEntity
    } else if !location_on_map(map, target) {
        MoveResolution::OffMap
    } else if map_tile(map, target).spec_traversable() {
        MoveResolution::Moved(target)
    } else {
        MoveResolution::NotTraversable
    }
}

/// Decides an attempted one-step move: blocked by a standing entity, off the
/// map, against non-walkable terrain, or a move to the target tile.
pub fn resolve_move(
    map: &GameMap,
    mover: MapLocation,
    direction: Direction,
    occupied: &Vec<MapLocation>,
) -> (r: MoveResolution)
    requires
        map.wf(),
        i32::MIN + 1 <= mover.tile_location.i <= i32::MAX - 1,
        i32::MIN + 1 <= mover.tile_location.j <= i32::MAX - 1,
    ensures
        ({
            let target = MapLocation {
                map_layer: mover.map_layer,
                tile_location: spec_step_location(mover.tile_location, direction),
            };
            r == spec_resolve_move(*map, target, occupied@)
        }),
{
    let step = direction.as_tile_location();
    let mut target = mover;
    target.translate(step);
    if contains_location(occupied, target) {
        return MoveResolution::BlockedByEntity;
    }
    match map.is_traversable(target) {
        Err(_) => MoveResolution::OffMap,
        Ok(true) => MoveResolution::Moved(target),
        Ok(false) => MoveResolution::NotTraversable,
    }
}

/// The tile location one step in a direction away from a starting point.
pub open spec fn spec_step_location(
    from: crate::map::TileLocation,
    direction: Direction,
) -> crate::map::TileLocation {
    crate::map::TileLocation {
        i: (from.i + direction.spec_tile_location().i) as i32,
        j: (from.j + direction.spec_tile_location().j) as i32,
    }
}

/// Membership test over a list of map locations.
fn contains_location(v: &Vec<MapLocation>, x: MapLocation) -> (r: bool)
    ensures
        r == v@.contains(x),
{
    let n = v.len();
    let mut i: usize = 0;
    while i < n
        invariant
            0 <= i <= n,
            n == v@.len(),
            forall|k: int| 0 <= k < i ==> v@[k] != x,
        decreases n - i,
    {
        if v[i] == x {
            return true;
        }
        i = i + 1;
    }
    false
}

/// The scheduler itself: the current phase, the stack of actors owed a turn,
/// and the tick length of the phase.
#[derive(Debug, Clone)]
pub struct TurnScheduler {
    pub phase: GameState,
    pub turn_order: Vec<u64>,
    pub turn_length: u8,
}

impl TurnScheduler {
    /// A scheduler at rest, in the exploration phase.
    pub fn new() -> (r: Self)
        ensures
            r.phase == GameState::Exploring,
            r.turn_order@.len() == 0,
            r.turn_length == 0,
    {
        Self { phase: GameState::Exploring, turn_order: Vec::new(), turn_length: 0 }
    }

    /// Ends the player's turn: records how much game time the action took,
    /// advances the world clock, and opens the non-player phase.
    pub fn end_player_turn(&mut self, time_elapsed: &mut TimeElapsed, n_ticks: u8)
        requires
            old(time_elapsed).0 + n_ticks <= u64::MAX,
        ensures
            final(self).phase == GameState::NonPlayerTurns,
            final(self).turn_length == n_ticks,
            final(self).turn_order == old(self).turn_order,
            final(time_elapsed).0 == old(time_elapsed).0 + n_ticks,
    {
        time_elapsed.increment(n_ticks as u64);
        self.turn_length = n_ticks;
        self.phase = GameState::NonPlayerTurns;
    }

    /// Computes the turn order from every non-player actor's id and
    /// remaining clock: ascending by remaining clock, ties in input order,
    /// stored reversed so that popping from the end serves the smallest
    /// remaining clock first.
    pub fn determine_turn_order(&mut self, actors: Vec<(u64, u8)>)
        ensures
            final(self).phase == old(self).phase,
            final(self).turn_length == old(self).turn_length,
            final(self).turn_order@ == ids_of(spec_sort_by_clock(actors@)).reverse(),
    {
        let sorted = sort_actors_by_clock(actors);
        let n = sorted.len();
        let mut order: Vec<u64> = Vec::new();
        let mut i: usize = 0;
        while i < n
            invariant
                0 <= i <= n,
                n == sorted@.len(),
                order@.len() == i,
                forall|k: int| 0 <= k < i ==> order@[k] == (#[trigger] sorted@[n - 1 - k]).0,
            decreases n - i,
        {
            order.push(sorted[n - 1 - i].0);
            i = i + 1;
        }
        proof {
            assert(order@ =~= ids_of(sorted@).reverse());
        }
        self.turn_order = order;
    }

    /// Pops the actor whose turn comes next. When none is left the phase
    /// falls back to exploration.
    pub fn pop_next_actor(&mut self) -> (r: Option<u64>)
        ensures
            old(self).turn_order@.len() == 0 ==> {
                &&& r is None
                &&& final(self).phase == GameState::Exploring
                &&& final(self).turn_order@.len() == 0
            },
            old(self).turn_order@.len() > 0 ==> {
                &&& r == Some(old(self).turn_order@.last())
                &&& final(self).turn_order@ == old(self).turn_order@.drop_last()
                &&& final(self).phase == old(self).phase
            },
            final(self).turn_length == old(self).turn_length,
    {
        match self.turn_order.pop() {
            Some(actor) => Some(actor),
            None => {
                self.phase = GameState::Exploring;
                None
            },
        }
    }

    /// Runs one actor's share of the phase: ticks its clock by the phase's
    /// turn length; if the clock runs out, advances the AI one step, re-arms
    /// the clock with the new action's cost, and hands the action back.
    /// Otherwise the actor does not get to act this phase.
    pub fn take_actor_turn(&self, clock: &mut ActionClockComponent, ai: &mut AIComponent) -> (r:
        Option<AICommand>)
        requires
            old(ai).wf(),
        ensures
            final(ai).wf(),
            old(clock).0 > self.turn_length ==> {
                &&& r is None
                &&& *final(ai) == *old(ai)
                &&& final(clock).0 == old(clock).0 - self.turn_length
            },
            old(clock).0 <= self.turn_length ==> (r matches Some(cmd) && {
                &&& final(ai).commands == old(ai).commands
                &&& final(ai).pointer == (old(ai).pointer + 1) % (old(ai).commands@.len() as int)
                &&& cmd == final(ai).spec_current()
                &&& final(clock).0 == cmd.spec_ticks()
            }),
    {
        if clock.tick(self.turn_length) {
            let command = ai.next();
            clock.reset(command.get_ticks());
            Some(command)
        } else {
            None
        }
    }

    /// Interprets the action an actor chose: waits cost time and do nothing
    /// more; moves become movement intents; a move towards the player picks
    /// the direction of one step towards the player's location, and is
    /// dropped when the player is on another floor or on the same tile;
    /// speech and attacks are passed through for the log and the combat
    /// system.
    pub fn resolve_command(
        command: AICommand,
        actor_location: MapLocation,
        player_location: MapLocation,
    ) -> (r: TurnIntent)
        ensures
            r == spec_resolve_command(command, actor_location, player_location),
    {
        match command {
            AICommand::Wait(_amount) => TurnIntent::Nothing,
            AICommand::Move(direction) => TurnIntent::Move(direction),
            AICommand::MoveTowardsPlayer => {
                if actor_location.is_on_same_floor(&player_location) {
                    match actor_location.get_direction_towards(&player_location) {
                        Some(direction) => TurnIntent::Move(direction),
                        None => TurnIntent::Nothing,
                    }
                } else {
                    TurnIntent::Nothing
                }
            },
            AICommand::Speak(content) => TurnIntent::Speak(content),
            AICommand::Attack => TurnIntent::Attack,
        }
    }
}

/// The ids of a run of actors, in order.
pub open spec fn ids_of(s: Seq<(u64, u8)>) -> Seq<u64> {
    s.map_values(|p: (u64, u8)| p.0)
}

/// The round trip the non-player phase makes: with all remaining clocks
/// distinct, the computed turn order serves the actors in strictly ascending
/// clock order — popping from the end of the stack walks the sorted run from
/// its smallest entry — and it serves each actor exactly once.
pub proof fn lemma_turn_order_round_trip(actors: Seq<(u64, u8)>)
    requires
        forall|i: int, j: int|
            0 <= i < j < actors.len() ==> (#[trigger] actors[i]).1 != (#[trigger] actors[j]).1,
    ensures
        ({
            let sorted = spec_sort_by_clock(actors);
            &&& sorted.len() == actors.len()
            &&& sorted.to_multiset() == actors.to_multiset()
            &&& forall|i: int, j: int|
                0 <= i < j < sorted.len() ==> (#[trigger] sorted[i]).1 < (#[trigger] sorted[j]).1
            &&& forall|k: int|
                0 <= k < sorted.len() ==> ids_of(sorted).reverse()[sorted.len() - 1 - k]
                    == (#[trigger] sorted[k]).0
        }),
{
    let sorted = spec_sort_by_clock(actors);
    lemma_sort_by_clock(actors);
    // Distinct clocks stay distinct across a permutation, so the sorted run
    // is strictly increasing.
    assert forall|i: int, j: int|
        0 <= i < j < sorted.len() implies (#[trigger] sorted[i]).1 < (#[trigger] sorted[j]).1 by {
        assert(sorted[i].1 <= sorted[j].1);
        lemma_permutation_distinct_clocks(actors, sorted, i, j);
    }
    assert forall|k: int|
        0 <= k < sorted.len() implies ids_of(sorted).reverse()[sorted.len() - 1 - k]
            == (#[trigger] sorted[k]).0 by {
        assert(ids_of(sorted).reverse()[sorted.len() - 1 - k] == ids_of(sorted)[k]);
    }
}

/// A permutation of a distinct-clock run keeps its clocks distinct.
proof fn lemma_permutation_distinct_clocks(
    actors: Seq<(u64, u8)>,
    sorted: Seq<(u64, u8)>,
    i: int,
    j: int,
)
    requires
        forall|a: int, b: int|
            0 <= a < b < actors.len() ==> (#[trigger] actors[a]).1 != (#[trigger] actors[b]).1,
        sorted.to_multiset() == actors.to_multiset(),
        sorted.len() == actors.len(),
        0 <= i < j < sorted.len(),
    ensures
        sorted[i].1 != sorted[j].1,
{
    if sorted[i].1 != sorted[j].1 {
        return ;
    }
    sorted.to_multiset_ensures();
    actors.to_multiset_ensures();
    // Both entries occur in the actors' run.
    assert(sorted.to_multiset().contains(sorted[i]));
    assert(sorted.to_multiset().contains(sorted[j]));
    if sorted[i] == sorted[j] {
        // The same entry occurs twice in `sorted`, so its multiplicity is at
        // least two, and two positions of `actors` hold it.
        let removed = sorted.remove(j);
        sorted.to_multiset_ensures();
        assert(removed.to_multiset() == sorted.to_multiset().remove(sorted[j]));
        assert(removed[i] == sorted[i]);
        removed.to_multiset_ensures();
        assert(removed.to_multiset().contains(sorted[i]));
        assert(actors.to_multiset().remove(sorted[j]).contains(sorted[i]));
        let m = actors.to_multiset();
        assert(m.count(sorted[i]) >= 2);
        lemma_multiset_count_two(actors, sorted[i]);
    } else {
        assert(actors.contains(sorted[i]));
        assert(actors.contains(sorted[j]));
        let a = choose|a: int| 0 <= a < actors.len() && actors[a] == sorted[i];
        let b = choose|b: int| 0 <= b < actors.len() && actors[b] == sorted[j];
        assert(a != b);
        if a < b {
            assert(actors[a].1 != actors[b].1);
        } else {
            assert(actors[b].1 != actors[a].1);
        }
    }
}

/// A multiset count of two means two distinct positions hold the value.
proof fn lemma_multiset_count_two(s: Seq<(u64, u8)>, x: (u64, u8))
    requires
        s.to_multiset().count(x) >= 2,
    ensures
        exists|a: int, b: int| 0 <= a < b < s.len() && s[a] == x && s[b] == x,
    decreases s.len(),
{
    s.to_multiset_ensures();
    assert(s.to_multiset().contains(x));
    assert(s.contains(x));
    let a = choose|a: int| 0 <= a < s.len() && s[a] == x;
    let removed = s.remove(a);
    s.to_multiset_ensures();
    assert(removed.to_multiset() == s.to_multiset().remove(x));
    assert(removed.to_multiset().count(x) >= 1);
    removed.to_multiset_ensures();
    assert(removed.contains(x));
    let c = choose|c: int| 0 <= c < removed.len() && removed[c] == x;
    if c < a {
        assert(s[c] == x);
        assert(0 <= c < a < s.len() && s[c] == x && s[a] == x);
    } else {
        assert(s[c + 1] == x);
        assert(0 <= a < c + 1 < s.len() && s[a] == x && s[c + 1] == x);
    }
}

} // verus!
