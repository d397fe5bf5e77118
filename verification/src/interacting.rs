//! Interactions: walking up to something and talking to it.
//!
//! The decisions — which neighbour is interactable, and how a prompt moves a
//! dialog forward — live here; reading keys and drawing panels belong to the
//! host UI layer.

use vstd::prelude::*;

use crate::dialog::Dialog;
use crate::dialog::duplicate_dialog;
use crate::dialog::same_dialog;
use crate::map::MapLocation;

verus! {

/// What an entity offers when interacted with.
#[derive(Debug, PartialEq, Eq, Hash)]
pub enum Interactable {
    Dialog(Dialog),
}

/// A component carrying an entity's interaction.
#[derive(Debug, PartialEq, Eq, Hash)]
pub struct InteractableComponent(pub Interactable);

/// Where an interaction stands.
#[derive(Debug, PartialEq, Eq, Hash)]
pub enum InteractingState {
    /// Waiting for the player to pick a direction.
    ChoosingDirection,
    /// In conversation.
    Interacting(Interactable),
}

impl Default for InteractingState {
    fn default() -> (r: Self)
        ensures
            r == InteractingState::ChoosingDirection,
    {
        InteractingState::ChoosingDirection
    }
}

/// The interaction state mirrored for the UI.
#[derive(Debug, PartialEq, Eq, Hash)]
pub struct InteractingUIState {
    pub interacting_state: InteractingState,
}

/// How the player moves a conversation forward.
#[derive(Debug, Clone, Copy, Hash, PartialEq, Eq, Structural)]
pub enum ProgressPromptEvent {
    Continue,
    ChooseOption(usize),
}

/// What a prompt does to the conversation.
#[derive(Debug, PartialEq, Eq)]
pub enum PromptOutcome {
    /// Nothing changes.
    Stay,
    /// The conversation moves to a further dialog.
    Advance(Interactable),
    /// The conversation ends and play returns to exploration.
    ExitToExploring,
}

/// The index of the first interactable at a location, scanning in order.
pub fn find_interactable_at(
    interactables: &Vec<(MapLocation, InteractableComponent)>,
    location: MapLocation,
) -> (r: Option<usize>)
    ensures
        r matches Some(i) ==> i < interactables@.len() && interactables@[i as int].0 == location
            && forall|k: int| 0 <= k < i ==> (#[trigger] interactables@[k]).0 != location,
        r is None ==> forall|k: int|
            0 <= k < interactables@.len() ==> (#[trigger] interactables@[k]).0 != location,
{
    let n = interactables.len();
    let mut i: usize = 0;
    while i < n
        invariant
            0 <= i <= n,
            n == interactables@.len(),
            forall|k: int| 0 <= k < i ==> (#[trigger] interactables@[k]).0 != location,
        decreases n - i,
    {
        if interactables[i].0 == location {
            return Some(i);
        }
        i = i + 1;
    }
    None
}

/// Moves a conversation forward on a prompt: choosing a listed option with a
/// continuation advances to it, choosing one without a continuation ends the
/// conversation, and continuing an NPC line follows it or ends when nothing
/// follows. Everything else leaves the state as it is.
pub fn progress_prompt(state: &InteractingState, event: &ProgressPromptEvent) -> (r: PromptOutcome)
    ensures
        state is ChoosingDirection ==> r == PromptOutcome::Stay,
        state matches InteractingState::Interacting(i) ==> i matches Interactable::Dialog(d)
            ==> match *d {
            Dialog::PlayerDialog(options) => match *event {
                ProgressPromptEvent::Continue => r == PromptOutcome::Stay,
                ProgressPromptEvent::ChooseOption(choice) => {
                    if choice as int >= options@.len() {
                        r == PromptOutcome::Stay
                    } else {
                        match options@[choice as int].1 {
                            Some(next) => r matches PromptOutcome::Advance(a) && (
                            a matches Interactable::Dialog(nd) && same_dialog(next, nd)),
                            None => r == PromptOutcome::ExitToExploring,
                        }
                    }
                },
            },
            Dialog::NPCDialog(npc) => match *event {
                ProgressPromptEvent::ChooseOption(_) => r == PromptOutcome::Stay,
                ProgressPromptEvent::Continue => match npc.next {
                    Some(next) => r matches PromptOutcome::Advance(a) && (
                    a matches Interactable::Dialog(nd) && same_dialog(next, nd)),
                    None => r == PromptOutcome::ExitToExploring,
                },
            },
        },
{
    match state {
        InteractingState::ChoosingDirection => PromptOutcome::Stay,
        InteractingState::Interacting(interaction) => {
            let Interactable::Dialog(dialog) = interaction;
            match dialog {
                Dialog::PlayerDialog(options) => match event {
                    ProgressPromptEvent::Continue => PromptOutcome::Stay,
                    ProgressPromptEvent::ChooseOption(choice) => {
                        let choice = *choice;
                        if choice >= options.len() {
                            PromptOutcome::Stay
                        } else {
                            match &options[choice].1 {
                                Some(next_dialog) => PromptOutcome::Advance(
                                    Interactable::Dialog(duplicate_dialog(next_dialog)),
                                ),
                                None => PromptOutcome::ExitToExploring,
                            }
                        }
                    },
                },
                Dialog::NPCDialog(npc_dialog) => match event {
                    ProgressPromptEvent::ChooseOption(_) => PromptOutcome::Stay,
                    ProgressPromptEvent::Continue => match &npc_dialog.next {
                        Some(next_dialog) => PromptOutcome::Advance(
                            Interactable::Dialog(duplicate_dialog(next_dialog)),
                        ),
                        None => PromptOutcome::ExitToExploring,
                    },
                },
            }
        },
    }
}

} // verus!
