use roguelike_core::dialog::Dialog;
use roguelike_core::dialog::DialogError;
use roguelike_core::dialog::NPCDialog;
use roguelike_core::interacting::progress_prompt;
use roguelike_core::interacting::Interactable;
use roguelike_core::interacting::InteractingState;
use roguelike_core::interacting::ProgressPromptEvent;
use roguelike_core::interacting::PromptOutcome;

#[test]
fn stories_chain_their_lines() {
    let story = NPCDialog::story(
        "Hermit".to_string(),
        vec!["One.".to_string(), "Two.".to_string(), "Three.".to_string()],
    );
    assert_eq!(story.get_speaker(), "Hermit");
    assert_eq!(story.get_contents(), "One.");
    let second = match story.get_next() {
        Some(Dialog::NPCDialog(npc)) => *npc,
        other => panic!("expected a second line, got {other:?}"),
    };
    assert_eq!(second.get_contents(), "Two.");
    let third = match second.get_next() {
        Some(Dialog::NPCDialog(npc)) => *npc,
        other => panic!("expected a third line, got {other:?}"),
    };
    assert_eq!(third.get_contents(), "Three.");
    assert_eq!(third.get_next(), None);
}

#[test]
fn leaves_accept_a_graft() {
    let mut dialog = Dialog::new_npc("Guard".to_string(), "Halt!".to_string(), None);
    let graft = Dialog::new_npc("Guard".to_string(), "Pass.".to_string(), None);
    assert_eq!(dialog.update_leaf_at(vec![], graft), Ok(()));
    match &dialog {
        Dialog::NPCDialog(npc) => {
            let next = npc.get_next().expect("the graft hangs below the line");
            match next {
                Dialog::NPCDialog(inner) => assert_eq!(inner.get_contents(), "Pass."),
                other => panic!("unexpected graft shape: {other:?}"),
            }
        }
        other => panic!("unexpected dialog shape: {other:?}"),
    }
}

#[test]
fn grafts_follow_player_choices() {
    let mut dialog = Dialog::PlayerDialog(Box::new(vec![
        ("Attack".to_string(), None),
        (
            "Talk".to_string(),
            Some(Dialog::new_npc("NPC".to_string(), "Oh?".to_string(), None)),
        ),
    ]));
    let graft = Dialog::new_npc("NPC".to_string(), "Welcome.".to_string(), None);
    assert_eq!(dialog.update_leaf_at(vec![1], graft), Ok(()));
}

#[test]
fn bad_paths_report_what_went_wrong() {
    let leafy = || Dialog::new_npc("N".to_string(), "Hi".to_string(), None);

    let mut npc = leafy();
    assert_eq!(
        npc.update_leaf_at(vec![0], leafy()),
        Err(DialogError::EncounteredTooFewChoices)
    );

    let mut choices = Dialog::PlayerDialog(Box::new(vec![
        ("Yes".to_string(), None),
        ("No".to_string(), None),
    ]));
    assert_eq!(
        choices.update_leaf_at(vec![5], leafy()),
        Err(DialogError::OutOfBounds)
    );
    assert_eq!(
        choices.update_leaf_at(vec![0, 1], leafy()),
        Err(DialogError::EncounteredTooFewChoices)
    );
    assert_eq!(
        choices.update_leaf_at(vec![], leafy()),
        Err(DialogError::MoreChoicesExist(vec![
            "Yes".to_string(),
            "No".to_string()
        ]))
    );
}

#[test]
fn prompts_move_conversations_forward() {
    let line_two = Dialog::new_npc("N".to_string(), "Two".to_string(), None);
    let line_one = Dialog::new_npc("N".to_string(), "One".to_string(), Some(line_two));
    let state = InteractingState::Interacting(Interactable::Dialog(line_one));

    match progress_prompt(&state, &ProgressPromptEvent::Continue) {
        PromptOutcome::Advance(Interactable::Dialog(Dialog::NPCDialog(npc))) => {
            assert_eq!(npc.get_contents(), "Two");
        }
        other => panic!("expected the conversation to advance, got {other:?}"),
    }
    assert_eq!(
        progress_prompt(&state, &ProgressPromptEvent::ChooseOption(0)),
        PromptOutcome::Stay
    );

    let ending = InteractingState::Interacting(Interactable::Dialog(Dialog::new_npc(
        "N".to_string(),
        "Bye".to_string(),
        None,
    )));
    assert_eq!(
        progress_prompt(&ending, &ProgressPromptEvent::Continue),
        PromptOutcome::ExitToExploring
    );

    let picking = InteractingState::Interacting(Interactable::Dialog(Dialog::PlayerDialog(
        Box::new(vec![
            ("Leave".to_string(), None),
            (
                "Ask".to_string(),
                Some(Dialog::new_npc("N".to_string(), "Ah.".to_string(), None)),
            ),
        ]),
    )));
    assert_eq!(
        progress_prompt(&picking, &ProgressPromptEvent::ChooseOption(0)),
        PromptOutcome::ExitToExploring
    );
    match progress_prompt(&picking, &ProgressPromptEvent::ChooseOption(1)) {
        PromptOutcome::Advance(Interactable::Dialog(Dialog::NPCDialog(npc))) => {
            assert_eq!(npc.get_contents(), "Ah.");
        }
        other => panic!("expected the conversation to advance, got {other:?}"),
    }
    assert_eq!(
        progress_prompt(&picking, &ProgressPromptEvent::ChooseOption(9)),
        PromptOutcome::Stay
    );
    assert_eq!(
        progress_prompt(&InteractingState::ChoosingDirection, &ProgressPromptEvent::Continue),
        PromptOutcome::Stay
    );
}
