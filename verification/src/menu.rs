//! Menus as plain state; drawing them belongs to the host UI layer.

use vstd::prelude::*;

verus! {

/// The kinds of menu the game shows.
#[derive(Debug, Clone, PartialEq, Eq, Hash)]
pub enum MenuType {
    /// Lines to read.
    Info(Vec<String>),
    /// A numbered list to pick from.
    SelectFinite(Vec<String>),
    /// A searchable list under a title.
    SearchAndSelect(String, Vec<String>),
    /// A prompt asking for free text.
    TextInput(String),
}

/// A menu and the text typed into it so far.
#[derive(Debug, Clone, PartialEq, Eq, Hash)]
pub struct MenuUIState {
    pub menu_type: MenuType,
    pub buffer: String,
}

impl MenuUIState {
    /// Opens a menu with an empty input buffer.
    pub fn new(menu_type: MenuType) -> (r: Self)
        ensures
            r.menu_type == menu_type,
            r.buffer@ == Seq::<char>::empty(),
    {
        Self { menu_type, buffer: String::new() }
    }
}

/// A menu waiting to be drawn.
#[derive(Debug, Clone, PartialEq, Eq, Hash)]
pub struct MenuToShow(pub MenuUIState);

/// The menus reachable while exploring.
#[derive(Debug, Clone, Copy, PartialEq, Eq, Hash, Structural)]
pub enum ExploringMenuType {
    Character,
}

} // verus!
