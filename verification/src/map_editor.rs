//! The map editor's undo model: a store of transactions.
//!
//! Every edit is a transaction — a full snapshot of the map, or one tile
//! update — and the current map is compiled by replaying the updates that
//! follow the most recent snapshot. Undo removes the newest transaction.

use vstd::prelude::*;

use crate::map::GameMap;
use crate::map::MapLayer;
use crate::map::MapLocation;
use crate::map::Tile;
use crate::map::location_on_map;
use crate::map::map_tile;
use crate::map::same_tile;

verus! {

/// One recorded edit.
#[derive(Debug, Clone, PartialEq, Eq)]
pub enum Transaction {
    /// The whole map as of this point.
    Snapshot(GameMap),
    /// One tile replaced at a location.
    Update(Tile, MapLocation),
}

impl Transaction {
    /// Whether this edit is a snapshot.
    pub fn is_snapshot(&self) -> (r: bool)
        ensures
            r == (*self is Snapshot),
    {
        match self {
            Self::Snapshot(_) => true,
            Self::Update(_, _) => false,
        }
    }
}

/// What can go wrong when compiling or undoing.
#[derive(Debug, Clone, Copy, PartialEq, Eq, Structural)]
pub enum TransactionStoreError {
    /// No snapshot exists to replay from.
    NoSnapshotTransaction,
    /// Nothing to undo.
    NoTransactionsToUndo,
    /// The compiled map has no layer at the edited index.
    CurrentLayerDoesntExist,
}

/// Two layers with the same dimensions and interchangeable tiles.
pub open spec fn same_layer(a: MapLayer, b: MapLayer) -> bool {
    &&& a.spec_width() == b.spec_width()
    &&& a.spec_height() == b.spec_height()
    &&& forall|i: int, j: int|
        0 <= i < a.spec_width() && 0 <= j < a.spec_height() ==> same_tile(
            #[trigger] a.spec_tile(i, j),
            b.spec_tile(i, j),
        )
}

/// Two maps with the same layers, tile for tile.
pub open spec fn same_map(a: GameMap, b: GameMap) -> bool {
    &&& a.0@.len() == b.0@.len()
    &&& forall|l: int| 0 <= l < a.0@.len() ==> same_layer(#[trigger] a.0@[l], b.0@[l])
}

/// Whether any transaction is a snapshot.
pub open spec fn has_snapshot(ts: Seq<Transaction>) -> bool {
    exists|i: int| 0 <= i < ts.len() && (#[trigger] ts[i]) is Snapshot
}

/// The index of the most recent snapshot.
pub open spec fn last_snapshot_index(ts: Seq<Transaction>) -> int
    decreases ts.len(),
{
    if ts.len() == 0 {
        -1
    } else if ts.last() is Snapshot {
        ts.len() - 1
    } else {
        last_snapshot_index(ts.drop_last())
    }
}

/// The tile a run of updates leaves at one location, starting from a base
/// map: the last update aimed at an existing tile there wins; updates off
/// the map are dropped silently.
pub open spec fn spec_tile_after(updates: Seq<Transaction>, base: GameMap, loc: MapLocation) -> Tile
    decreases updates.len(),
{
    if updates.len() == 0 {
        map_tile(base, loc)
    } else {
        match updates.last() {
            Transaction::Update(tile, at) => {
                if at == loc && location_on_map(base, loc) {
                    tile
                } else {
                    spec_tile_after(updates.drop_last(), base, loc)
                }
            },
            Transaction::Snapshot(_) => spec_tile_after(updates.drop_last(), base, loc),
        }
    }
}

/// What compiling a store yields when a snapshot exists: the dimensions of
/// the most recent snapshot, with the updates after it replayed tile by
/// tile.
pub open spec fn compiles_to(ts: Seq<Transaction>, m: GameMap) -> bool {
    let si = last_snapshot_index(ts);
    let snap = ts[si]->Snapshot_0;
    &&& m.0@.len() == snap.0@.len()
    &&& forall|l: int|
        0 <= l < snap.0@.len() ==> (#[trigger] m.0@[l]).spec_width() == snap.0@[l].spec_width()
            && m.0@[l].spec_height() == snap.0@[l].spec_height()
    &&& forall|loc: MapLocation|
        location_on_map(snap, loc) ==> same_tile(
            #[trigger] map_tile(m, loc),
            spec_tile_after(ts.skip(si + 1), snap, loc),
        )
}

/// How many layers a compiled store has: the layer count of its most recent
/// snapshot.
pub open spec fn compiled_layer_count(ts: Seq<Transaction>) -> int {
    ts[last_snapshot_index(ts)]->Snapshot_0.0@.len() as int
}

/// The most recent snapshot lies where `last_snapshot_index` says, and
/// nothing after it is a snapshot.
proof fn lemma_last_snapshot_index(ts: Seq<Transaction>)
    requires
        has_snapshot(ts),
    ensures
        0 <= last_snapshot_index(ts) < ts.len(),
        ts[last_snapshot_index(ts)] is Snapshot,
        forall|k: int| last_snapshot_index(ts) < k < ts.len() ==> !((#[trigger] ts[k]) is Snapshot),
    decreases ts.len(),
{
    if ts.last() is Snapshot {
    } else {
        assert(has_snapshot(ts.drop_last())) by {
            let i = choose|i: int| 0 <= i < ts.len() && (#[trigger] ts[i]) is Snapshot;
            assert(i < ts.len() - 1);
            assert(ts.drop_last()[i] is Snapshot);
        }
        lemma_last_snapshot_index(ts.drop_last());
        assert(forall|k: int|
            0 <= k < ts.len() - 1 ==> #[trigger] ts[k] == ts.drop_last()[k]);
    }
}

/// A store of edits, newest last.
#[derive(Debug, Clone)]
pub struct TransactionStore {
    pub transactions: Vec<Transaction>,
}

impl TransactionStore {
    /// Builds a store from recorded edits.
    pub fn new(transactions: Vec<Transaction>) -> (r: Self)
        ensures
            r == (TransactionStore { transactions }),
    {
        Self { transactions }
    }

    /// A store opened on a full snapshot.
    pub fn from_snapshot(map: GameMap) -> (r: Self)
        ensures
            r.transactions@ =~= seq![Transaction::Snapshot(map)],
    {
        let mut transactions: Vec<Transaction> = Vec::new();
        transactions.push(Transaction::Snapshot(map));
        Self::new(transactions)
    }

    /// Records one more edit.
    pub fn add(&mut self, transaction: Transaction)
        ensures
            final(self).transactions@ == old(self).transactions@.push(transaction),
    {
        self.transactions.push(transaction);
    }

    /// Removes the newest edit; fails when nothing is recorded.
    pub fn undo(&mut self) -> (r: Result<(), TransactionStoreError>)
        ensures
            old(self).transactions@.len() == 0 ==> r == Err::<(), TransactionStoreError>(
                TransactionStoreError::NoTransactionsToUndo,
            ) && *final(self) == *old(self),
            old(self).transactions@.len() > 0 ==> r == Ok::<(), TransactionStoreError>(())
                && final(self).transactions@ == old(self).transactions@.drop_last(),
    {
        if self.transactions.len() == 0 {
            Err(TransactionStoreError::NoTransactionsToUndo)
        } else {
            let last = self.transactions.len() - 1;
            let _removed = self.transactions.remove(last);
            proof {
                assert(old(self).transactions@.remove(old(self).transactions@.len() - 1) =~= old(
                    self,
                ).transactions@.drop_last());
            }
            Ok(())
        }
    }

    /// Replays the store: the most recent snapshot with the updates after it
    /// applied in order. Fails when no snapshot was ever recorded.
    pub fn compile(&self) -> (r: Result<GameMap, TransactionStoreError>)
        requires
            forall|i: int|
                0 <= i < self.transactions@.len() && (#[trigger] self.transactions@[i]) is Snapshot
                    ==> self.transactions@[i]->Snapshot_0.wf(),
        ensures
            r is Ok <==> has_snapshot(self.transactions@),
            r matches Ok(m) ==> compiles_to(self.transactions@, m) && m.wf(),
            r is Err ==> r == Err::<GameMap, TransactionStoreError>(
                TransactionStoreError::NoSnapshotTransaction,
            ),
    {
        let ghost ts = self.transactions@;
        let n = self.transactions.len();

        // Find the most recent snapshot.
        let mut snapshot_at: usize = n;
        let mut i: usize = n;
        while i > 0
            invariant
                0 <= i <= n,
                n == ts.len(),
                ts == self.transactions@,
                snapshot_at <= n,
                snapshot_at == n ==> forall|k: int|
                    i <= k < n ==> !((#[trigger] ts[k]) is Snapshot),
                snapshot_at < n ==> i <= snapshot_at && ts[snapshot_at as int] is Snapshot
                    && forall|k: int| snapshot_at < k < n ==> !((#[trigger] ts[k]) is Snapshot),
            decreases i,
        {
            i = i - 1;
            if snapshot_at == n && self.transactions[i].is_snapshot() {
                snapshot_at = i;
            }
        }
        if snapshot_at == n {
            proof {
                assert(!has_snapshot(ts));
            }
            return Err(TransactionStoreError::NoSnapshotTransaction);
        }
        proof {
            assert(ts[snapshot_at as int] is Snapshot);
            assert(has_snapshot(ts));
            lemma_last_snapshot_index(ts);
            assert(last_snapshot_index(ts) == snapshot_at) by {
                let si = last_snapshot_index(ts);
                if si < snapshot_at {
                    assert(ts[snapshot_at as int] is Snapshot);
                } else if si > snapshot_at {
                    assert(ts[si] is Snapshot);
                }
            }
        }

        let snapshot = match &self.transactions[snapshot_at] {
            Transaction::Snapshot(m) => m,
            Transaction::Update(_, _) => {
                return unreached();
            },
        };
        let ghost snap = ts[snapshot_at as int]->Snapshot_0;
        let mut result = duplicate_map(snapshot);

        let mut k: usize = snapshot_at + 1;
        while k < n
            invariant
                snapshot_at < k <= n,
                n == ts.len(),
                ts == self.transactions@,
                snap == ts[snapshot_at as int]->Snapshot_0,
                snap.wf(),
                forall|j: int|
                    snapshot_at < j < n ==> !((#[trigger] ts[j]) is Snapshot),
                result.wf(),
                result.0@.len() == snap.0@.len(),
                forall|l: int|
                    0 <= l < snap.0@.len() ==> (#[trigger] result.0@[l]).spec_width()
                        == snap.0@[l].spec_width() && result.0@[l].spec_height()
                        == snap.0@[l].spec_height(),
                forall|loc: MapLocation|
                    location_on_map(snap, loc) ==> same_tile(
                        #[trigger] map_tile(result, loc),
                        spec_tile_after(
                            ts.skip(snapshot_at as int + 1).take(k - snapshot_at - 1),
                            snap,
                            loc,
                        ),
                    ),
            decreases n - k,
        {
            let ghost suffix = ts.skip(snapshot_at as int + 1);
            let ghost done = k - snapshot_at - 1;
            proof {
                assert(suffix.take(done + 1).drop_last() =~= suffix.take(done as int));
                assert(suffix.take(done + 1).last() == ts[k as int]);
            }
            match &self.transactions[k] {
                Transaction::Snapshot(_) => {
                    return unreached();
                },
                Transaction::Update(tile, location) => {
                    let ghost before = result;
                    let _ = result.update(tile.duplicate(), *location);
                    proof {
                        let loc0 = *location;
                        assert forall|loc: MapLocation|
                            location_on_map(snap, loc) implies same_tile(
                            #[trigger] map_tile(result, loc),
                            spec_tile_after(suffix.take(done + 1), snap, loc),
                        ) by {
                            if location_on_map(before, loc0) {
                                if loc == loc0 {
                                    assert(same_tile(map_tile(result, loc), *tile));
                                } else {
                                    assert(map_tile(result, loc) == map_tile(before, loc));
                                }
                            } else {
                                assert(result.0@ == before.0@);
                                assert(map_tile(result, loc) == map_tile(before, loc));
                                assert(!location_on_map(snap, loc0) || loc != loc0
                                    || location_on_map(before, loc0));
                            }
                        }
                    }
                },
            }
            k = k + 1;
        }
        proof {
            assert(ts.skip(snapshot_at as int + 1).take(n - snapshot_at - 1) =~= ts.skip(
                snapshot_at as int + 1,
            ));
        }
        Ok(result)
    }

    /// One layer of the replayed map, copied out; fails when the layer does
    /// not exist or no snapshot was recorded.
    pub fn compile_layer(&self, layer_idx: usize) -> (r: Result<MapLayer, TransactionStoreError>)
        requires
            forall|i: int|
                0 <= i < self.transactions@.len() && (#[trigger] self.transactions@[i]) is Snapshot
                    ==> self.transactions@[i]->Snapshot_0.wf(),
        ensures
            r is Ok ==> has_snapshot(self.transactions@),
            r matches Ok(layer) ==> exists|m: GameMap|
                compiles_to(self.transactions@, m) && layer_idx < m.0@.len() && same_layer(
                    layer,
                    #[trigger] m.0@[layer_idx as int],
                ),
            r is Ok <==> has_snapshot(self.transactions@) && (layer_idx as int)
                < compiled_layer_count(self.transactions@),
            !has_snapshot(self.transactions@) ==> r == Err::<MapLayer, TransactionStoreError>(
                TransactionStoreError::NoSnapshotTransaction,
            ),
            r matches Err(e) ==> e == TransactionStoreError::NoSnapshotTransaction || e
                == TransactionStoreError::CurrentLayerDoesntExist,
    {
        let map = match self.compile() {
            Ok(m) => m,
            Err(_) => {
                return Err(TransactionStoreError::NoSnapshotTransaction);
            },
        };
        match map.get_layer(layer_idx) {
            Ok(layer) => {
                let copy = duplicate_layer(layer);
                proof {
                    assert(compiles_to(self.transactions@, map) && layer_idx < map.0@.len()
                        && same_layer(copy, map.0@[layer_idx as int]));
                }
                Ok(copy)
            },
            Err(_) => Err(TransactionStoreError::CurrentLayerDoesntExist),
        }
    }
}

/// A copy of a layer, tile for tile.
fn duplicate_layer(layer: &MapLayer) -> (r: MapLayer)
    requires
        layer.wf(),
    ensures
        r.wf(),
        same_layer(r, *layer),
{
    MapLayer(layer.get_tiles_cloned())
}

/// A copy of a map, layer by layer.
fn duplicate_map(map: &GameMap) -> (r: GameMap)
    requires
        map.wf(),
    ensures
        r.wf(),
        same_map(r, *map),
        r.0@.len() == map.0@.len(),
        forall|l: int|
            0 <= l < map.0@.len() ==> (#[trigger] r.0@[l]).spec_width() == map.0@[l].spec_width()
                && r.0@[l].spec_height() == map.0@[l].spec_height(),
        forall|loc: MapLocation|
            location_on_map(*map, loc) ==> same_tile(#[trigger] map_tile(r, loc), map_tile(*map, loc)),
{
    let n = map.0.len();
    let mut layers: Vec<MapLayer> = Vec::new();
    let mut i: usize = 0;
    while i < n
        invariant
            0 <= i <= n,
            n == map.0@.len(),
            map.wf(),
            layers@.len() == i,
            forall|k: int|
                0 <= k < i ==> (#[trigger] layers@[k]).wf() && same_layer(layers@[k], map.0@[k]),
        decreases n - i,
    {
        layers.push(duplicate_layer(&map.0[i]));
        i = i + 1;
    }
    let r = GameMap(layers);
    proof {
        assert forall|loc: MapLocation|
            location_on_map(*map, loc) implies same_tile(
            #[trigger] map_tile(r, loc),
            map_tile(*map, loc),
        ) by {
            assert(same_layer(r.0@[loc.map_layer as int], map.0@[loc.map_layer as int]));
        }
    }
    r
}

/// Which editor menu is open.
#[derive(Clone, Debug, PartialEq, Eq, Hash)]
pub enum MapEditorMenuType {
    /// Choosing between a new map and a saved one.
    NewOrLoadMenu,
    /// Asking for the new map's name.
    NewMapNameMenu,
    /// Asking for the new map's size; carries the chosen name.
    NewMapSizeMenu(String),
    /// Picking one of the saved maps.
    LoadMapMenu(Vec<String>),
}

impl Default for MapEditorMenuType {
    fn default() -> (r: Self)
        ensures
            r == MapEditorMenuType::NewOrLoadMenu,
    {
        MapEditorMenuType::NewOrLoadMenu
    }
}

/// The menu the given editor menu kind shows.
pub open spec fn spec_editor_menu(t: MapEditorMenuType, m: crate::menu::MenuUIState) -> bool {
    &&& m.buffer@ == Seq::<char>::empty()
    &&& match t {
        MapEditorMenuType::NewOrLoadMenu => m.menu_type matches crate::menu::MenuType::SelectFinite(
            v,
        ) && v@.len() == 2 && v@[0]@ == "New Map"@ && v@[1]@ == "Load Map"@,
        MapEditorMenuType::NewMapNameMenu => m.menu_type
            matches crate::menu::MenuType::TextInput(p) && p@ == "Map Name:"@,
        MapEditorMenuType::NewMapSizeMenu(_) => m.menu_type
            matches crate::menu::MenuType::TextInput(p) && p@ == "Map Size:"@,
        MapEditorMenuType::LoadMapMenu(maps) => m.menu_type
            matches crate::menu::MenuType::SearchAndSelect(title, v) && title@ == "Load Map"@ && v@
            == maps@,
    }
}

/// The editor's menu screen: which menu is open, and its widget state.
#[derive(Clone, Debug, PartialEq, Eq, Hash)]
pub struct MapEditorMenuUIState {
    pub menu_type: MapEditorMenuType,
    pub menu_state: crate::menu::MenuUIState,
}

impl Default for MapEditorMenuUIState {
    fn default() -> (r: Self)
        ensures
            r.menu_type == MapEditorMenuType::NewOrLoadMenu,
            spec_editor_menu(r.menu_type, r.menu_state),
    {
        Self::from_type(MapEditorMenuType::NewOrLoadMenu)
    }
}

impl MapEditorMenuUIState {
    /// Builds the screen from its parts.
    pub fn new(menu_type: MapEditorMenuType, menu_state: crate::menu::MenuUIState) -> (r: Self)
        ensures
            r == (MapEditorMenuUIState { menu_type, menu_state }),
    {
        Self { menu_type, menu_state }
    }

    /// The screen a menu kind opens with.
    pub fn from_type(menu_type: MapEditorMenuType) -> (r: Self)
        ensures
            r.menu_type == menu_type,
            spec_editor_menu(r.menu_type, r.menu_state),
    {
        let menu_state = match &menu_type {
            MapEditorMenuType::NewOrLoadMenu => {
                let mut v: Vec<String> = Vec::new();
                v.push(String::from_str("New Map"));
                v.push(String::from_str("Load Map"));
                crate::menu::MenuUIState::new(crate::menu::MenuType::SelectFinite(v))
            },
            MapEditorMenuType::NewMapNameMenu => crate::menu::MenuUIState::new(
                crate::menu::MenuType::TextInput(String::from_str("Map Name:")),
            ),
            MapEditorMenuType::NewMapSizeMenu(_buffer) => crate::menu::MenuUIState::new(
                crate::menu::MenuType::TextInput(String::from_str("Map Size:")),
            ),
            MapEditorMenuType::LoadMapMenu(maps) => crate::menu::MenuUIState::new(
                crate::menu::MenuType::SearchAndSelect(
                    String::from_str("Load Map"),
                    duplicate_strings(maps),
                ),
            ),
        };
        Self::new(menu_type, menu_state)
    }
}

/// How the editor reacts to keys.
#[derive(Debug, Default, Clone, PartialEq, Eq, Hash, Structural)]
pub enum EditingMode {
    #[default]
    Normal,
    Insert,
    Block,
}

/// The editor while editing: the file being edited, the transaction store,
/// the layer on show, and the input mode.
#[derive(Debug)]
pub struct MapEditorEditingUIState {
    pub filename: String,
    pub store: TransactionStore,
    pub current_layer: usize,
    pub mode: EditingMode,
}

impl MapEditorEditingUIState {
    /// Opens the editor on a store, checking that the layer on show can be
    /// compiled.
    pub fn new(
        filename: String,
        store: TransactionStore,
        current_layer: usize,
        mode: EditingMode,
    ) -> (r: Result<Self, TransactionStoreError>)
        requires
            forall|i: int|
                0 <= i < store.transactions@.len() && (#[trigger] store.transactions@[i])
                    is Snapshot ==> store.transactions@[i]->Snapshot_0.wf(),
        ensures
            r is Ok <==> has_snapshot(store.transactions@) && (current_layer as int)
                < compiled_layer_count(store.transactions@),
            r matches Ok(state) ==> state == (MapEditorEditingUIState {
                filename,
                store,
                current_layer,
                mode,
            }),
            r matches Err(e) ==> e == TransactionStoreError::NoSnapshotTransaction || e
                == TransactionStoreError::CurrentLayerDoesntExist,
    {
        let checked = store.compile_layer(current_layer);
        match checked {
            Ok(_current_map_layer) => Ok(Self { filename, store, current_layer, mode }),
            Err(e) => Err(e),
        }
    }

    /// The file the edits are saved to.
    pub fn get_filename(&self) -> (r: String)
        ensures
            r@ == self.filename@,
    {
        self.filename.clone()
    }

    /// The whole map as edited so far.
    pub fn get_map(&self) -> (r: Result<GameMap, TransactionStoreError>)
        requires
            forall|i: int|
                0 <= i < self.store.transactions@.len() && (
                #[trigger] self.store.transactions@[i]) is Snapshot
                    ==> self.store.transactions@[i]->Snapshot_0.wf(),
        ensures
            r is Ok <==> has_snapshot(self.store.transactions@),
            r matches Ok(m) ==> compiles_to(self.store.transactions@, m) && m.wf(),
    {
        self.store.compile()
    }

    /// The layer on show, compiled from the store.
    pub fn get_current_map_layer(&self) -> (r: Result<MapLayer, TransactionStoreError>)
        requires
            forall|i: int|
                0 <= i < self.store.transactions@.len() && (
                #[trigger] self.store.transactions@[i]) is Snapshot
                    ==> self.store.transactions@[i]->Snapshot_0.wf(),
        ensures
            r is Ok <==> has_snapshot(self.store.transactions@) && (self.current_layer as int)
                < compiled_layer_count(self.store.transactions@),
            r matches Ok(layer) ==> exists|m: GameMap|
                compiles_to(self.store.transactions@, m) && self.current_layer < m.0@.len()
                    && same_layer(layer, #[trigger] m.0@[self.current_layer as int]),
    {
        self.store.compile_layer(self.current_layer)
    }
}

/// A copy of a list of names.
fn duplicate_strings(v: &Vec<String>) -> (r: Vec<String>)
    ensures
        r@ == v@,
{
    let n = v.len();
    let mut r: Vec<String> = Vec::new();
    let mut i: usize = 0;
    while i < n
        invariant
            0 <= i <= n,
            n == v@.len(),
            r@ == v@.take(i as int),
        decreases n - i,
    {
        r.push(v[i].clone());
        proof {
            assert(v@.take(i as int).push(v@[i as int]) =~= v@.take(i as int + 1));
        }
        i = i + 1;
    }
    proof {
        assert(v@.take(n as int) =~= v@);
    }
    r
}

/// Rejection of a user-typed file name.
#[derive(Debug, Clone, Hash, PartialEq, Eq)]
pub enum InputError {
    InvalidFileStem(String),
}

impl InputError {
    /// The message shown for the rejection.
    pub fn to_string(&self) -> (r: String)
        ensures
            r@ == "Invalid Filename: "@ + self->InvalidFileStem_0@,
    {
        let InputError::InvalidFileStem(s) = self;
        String::from_str("Invalid Filename: ").concat(s.as_str())
    }
}

/// ASCII upper-case letters lowered; everything else untouched.
pub open spec fn ascii_lower(b: u8) -> u8 {
    if 65 <= b <= 90 {
        (b + 32) as u8
    } else {
        b
    }
}

/// Bytes a file name must not contain: the separators and wildcards of the
/// common file systems, the NUL byte, and the period.
pub open spec fn forbidden_name_byte(b: u8) -> bool {
    b == 47 || b == 92 || b == 60 || b == 62 || b == 58 || b == 34 || b == 124 || b == 63 || b
        == 42 || b == 0 || b == 46
}

/// Whether the lowered bytes spell a name some platforms reserve: the legacy
/// device names and their numbered ports.
pub open spec fn reserved_name(l: Seq<u8>) -> bool {
    ||| (l.len() == 3 && ((l[0] == 99 && l[1] == 111 && l[2] == 110) || (l[0] == 112 && l[1] == 114
        && l[2] == 110) || (l[0] == 97 && l[1] == 117 && l[2] == 120) || (l[0] == 110 && l[1] == 117
        && l[2] == 108)))
    ||| (l.len() == 4 && ((l[0] == 99 && l[1] == 111 && l[2] == 109) || (l[0] == 108 && l[1] == 112
        && l[2] == 116)) && 49 <= l[3] <= 57)
}

/// A valid map-file stem, judged by its UTF-8 bytes: non-empty and short
/// enough for common file systems, free of forbidden bytes, not a reserved
/// platform name (case-insensitively), and neither starting nor ending with
/// a space or a period.
pub open spec fn valid_map_name(bytes: Seq<u8>) -> bool {
    &&& 1 <= bytes.len() <= 255
    &&& forall|k: int| 0 <= k < bytes.len() ==> !forbidden_name_byte(#[trigger] bytes[k])
    &&& !reserved_name(bytes.map_values(|b: u8| ascii_lower(b)))
    &&& bytes[0] != 32 && bytes[0] != 46
    &&& bytes.last() != 32 && bytes.last() != 46
}

/// Validates a user-typed map name and hands it back, or rejects it.
pub fn sanitize_map_name(name: String) -> (r: Result<String, InputError>)
    ensures
        r is Ok <==> valid_map_name(vstd::utf8::encode_utf8(name@)),
        r matches Ok(n) ==> n == name,
        r matches Err(e) ==> e == InputError::InvalidFileStem(name),
{
    let ghost bs = vstd::utf8::encode_utf8(name@);
    let bytes = name.as_str().as_bytes();
    proof {
        assert(bytes@ == bs);
    }
    let n = bytes.len();
    if n == 0 || n > 255 {
        return Err(InputError::InvalidFileStem(name));
    }
    let mut i: usize = 0;
    while i < n
        invariant
            0 <= i <= n,
            n == bytes@.len(),
            bytes@ == bs,
            bs == vstd::utf8::encode_utf8(name@),
            forall|k: int| 0 <= k < i ==> !forbidden_name_byte(#[trigger] bs[k]),
        decreases n - i,
    {
        let b = bytes[i];
        if b == 47 || b == 92 || b == 60 || b == 62 || b == 58 || b == 34 || b == 124 || b == 63
            || b == 42 || b == 0 || b == 46 {
            proof {
                assert(forbidden_name_byte(bs[i as int]));
            }
            return Err(InputError::InvalidFileStem(name));
        }
        i = i + 1;
    }

    let mut lowered: Vec<u8> = Vec::new();
    let mut j: usize = 0;
    while j < n
        invariant
            0 <= j <= n,
            n == bytes@.len(),
            bytes@ == bs,
            bs == vstd::utf8::encode_utf8(name@),
            1 <= n <= 255,
            forall|k: int| 0 <= k < n ==> !forbidden_name_byte(#[trigger] bs[k]),
            lowered@.len() == j,
            forall|k: int| 0 <= k < j ==> #[trigger] lowered@[k] == ascii_lower(bs[k]),
        decreases n - j,
    {
        let b = bytes[j];
        if 65 <= b && b <= 90 {
            lowered.push(b + 32);
        } else {
            lowered.push(b);
        }
        j = j + 1;
    }
    proof {
        assert(lowered@ =~= bs.map_values(|b: u8| ascii_lower(b)));
    }

    let reserved = if lowered.len() == 3 {
        let a = lowered[0];
        let b = lowered[1];
        let c = lowered[2];
        (a == 99 && b == 111 && c == 110) || (a == 112 && b == 114 && c == 110) || (a == 97 && b
            == 117 && c == 120) || (a == 110 && b == 117 && c == 108)
    } else if lowered.len() == 4 {
        let a = lowered[0];
        let b = lowered[1];
        let c = lowered[2];
        let d = lowered[3];
        ((a == 99 && b == 111 && c == 109) || (a == 108 && b == 112 && c == 116)) && 49 <= d && d
            <= 57
    } else {
        false
    };
    if reserved {
        return Err(InputError::InvalidFileStem(name));
    }

    let first = bytes[0];
    let last = bytes[n - 1];
    if first == 32 || first == 46 || last == 32 || last == 46 {
        return Err(InputError::InvalidFileStem(name));
    }
    proof {
        assert(bytes@ == bs);
        assert(1 <= bs.len() <= 255);
        assert(forall|k: int| 0 <= k < bs.len() ==> !forbidden_name_byte(#[trigger] bs[k]));
        assert(!reserved_name(bs.map_values(|b: u8| ascii_lower(b))));
        assert(bs[0] != 32 && bs[0] != 46);
        assert(bs.last() != 32 && bs.last() != 46);
        assert(valid_map_name(bs));
    }
    Ok(name)
}

} // verus!

