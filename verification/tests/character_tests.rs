use roguelike_core::character::ActionClockComponent;
use roguelike_core::character::BodyPart;
use roguelike_core::character::BodyPartState;
use roguelike_core::character::BodyPartStatusEffect;
use roguelike_core::character::BodyPartTreeNode;
use roguelike_core::character::BodyPartType;
use roguelike_core::character::Damage;
use roguelike_core::character::PartialBool;
use roguelike_core::probability::Probability;
use roguelike_core::probability::ProbabilityError;
use roguelike_core::rng::GameRng;

#[test]
fn test_body_part_has_status_effect_recursive() {
    let humanoid = BodyPartTreeNode::new_humanoid();
    assert_eq!(
        humanoid.has_status_effect_recursive(BodyPartStatusEffect::Blind),
        false
    );

    let head: BodyPartTreeNode = BodyPart::new_with_status_effects(
        BodyPartType::Head,
        vec![BodyPartStatusEffect::Blind],
    )
    .into();

    assert!(head.has_status_effect_recursive(BodyPartStatusEffect::Blind));
    assert_eq!(
        head.has_status_effect_recursive(BodyPartStatusEffect::Infected),
        false
    );

    let mut body = BodyPartTreeNode::new(BodyPartType::Body.into(), vec![head]);
    assert!(body.has_status_effect_recursive(BodyPartStatusEffect::Blind));
    assert_eq!(
        body.has_status_effect_recursive(BodyPartStatusEffect::Infected),
        false
    );

    body.add_leaf(BodyPartType::Arm.into());
    assert!(body.has_status_effect_recursive(BodyPartStatusEffect::Blind));
    assert_eq!(
        body.has_status_effect_recursive(BodyPartStatusEffect::Infected),
        false
    );

    body.add_leaf(BodyPartType::Head.into());
    assert_eq!(
        body.has_status_effect_recursive(BodyPartStatusEffect::Blind),
        false
    );
    assert_eq!(
        body.has_status_effect_recursive(BodyPartStatusEffect::Infected),
        false
    );
}

#[test]
fn test_action_clock_ticks() {
    let action_clock = ActionClockComponent(0);
    assert!(action_clock.finished());

    let mut action_clock = ActionClockComponent(10);
    assert!(!action_clock.finished());
    assert_eq!(action_clock.0, 10);

    action_clock.tick(5);
    assert!(!action_clock.finished());

    action_clock.tick(0);
    assert!(!action_clock.finished());

    action_clock.tick(4);
    assert!(!action_clock.finished());
    assert_eq!(action_clock.0, 1);

    action_clock.tick(1);
    assert!(action_clock.finished());

    action_clock.tick(100);
    assert!(action_clock.finished());

    assert_eq!(action_clock.0, 0);
}

#[test]
fn fresh_humanoid_has_no_status_effects() {
    let humanoid = BodyPartTreeNode::new_humanoid();
    for effect in [
        BodyPartStatusEffect::Blind,
        BodyPartStatusEffect::Deaf,
        BodyPartStatusEffect::Bleeding,
        BodyPartStatusEffect::Infected,
        BodyPartStatusEffect::Cancerous,
    ] {
        assert_eq!(humanoid.has_status_effect_recursive(effect), false);
    }
}

#[test]
fn humanoid_sizes_add_up() {
    let humanoid = BodyPartTreeNode::new_humanoid();
    assert_eq!(humanoid.get_size(), 40);
    assert_eq!(humanoid.get_total_children_size(), 100);
    assert_eq!(humanoid.get_size_recursive(), 140);
}

#[test]
fn ternary_status_query_distinguishes_not_applicable() {
    let body = BodyPartTreeNode::leaf(BodyPart::new_empty(BodyPartType::Body));
    assert_eq!(
        body.has_status_effect(BodyPartStatusEffect::Blind),
        PartialBool::NotApplicable
    );
    assert_eq!(
        body.has_status_effect(BodyPartStatusEffect::Infected),
        PartialBool::False
    );

    let head: BodyPartTreeNode = BodyPart::new_with_status_effects(
        BodyPartType::Head,
        vec![BodyPartStatusEffect::Blind],
    )
    .into();
    assert_eq!(
        head.has_status_effect(BodyPartStatusEffect::Blind),
        PartialBool::True
    );
}

fn simple_damage() -> Damage {
    Damage::new(
        vec![
            (
                (BodyPartState::Okay, BodyPartState::Nonfunctional),
                Probability(30),
            ),
            (
                (BodyPartState::Nonfunctional, BodyPartState::Destroyed),
                Probability(50),
            ),
        ],
        vec![(BodyPartStatusEffect::Bleeding, Probability(40))],
    )
    .expect("the transition weights stay within 100")
}

#[test]
fn damage_construction_rejects_overweight_transitions() {
    let overweight = Damage::new(
        vec![
            (
                (BodyPartState::Okay, BodyPartState::Nonfunctional),
                Probability(70),
            ),
            (
                (BodyPartState::Okay, BodyPartState::Destroyed),
                Probability(40),
            ),
        ],
        vec![(BodyPartStatusEffect::Bleeding, Probability(40))],
    );
    assert_eq!(overweight.err(), Some(ProbabilityError::OutOfBounds));

    let at_limit = Damage::new(
        vec![
            (
                (BodyPartState::Okay, BodyPartState::Nonfunctional),
                Probability(60),
            ),
            (
                (BodyPartState::Okay, BodyPartState::Destroyed),
                Probability(40),
            ),
        ],
        vec![],
    );
    assert!(at_limit.is_ok());
}

#[test]
fn state_transitions_include_the_remain_bucket() {
    let damage = simple_damage();
    let transitions = damage
        .get_state_transitions_from(BodyPartState::Okay)
        .expect("a validated table always compiles its transitions");
    assert_eq!(
        transitions,
        vec![
            (BodyPartState::Nonfunctional, Probability(30)),
            (BodyPartState::Okay, Probability(70)),
        ]
    );

    let total: u32 = transitions.iter().map(|(_, p)| p.0 as u32).sum();
    assert_eq!(total, 100);

    let from_destroyed = damage
        .get_state_transitions_from(BodyPartState::Destroyed)
        .unwrap();
    assert_eq!(
        from_destroyed,
        vec![(BodyPartState::Destroyed, Probability(100))]
    );
}

#[test]
fn taking_damage_keeps_the_tree_shape() {
    let mut rng = GameRng::from_seed(7);
    let damage = simple_damage();
    let mut humanoid = BodyPartTreeNode::new_humanoid();
    for _ in 0..50 {
        humanoid.take_damage_recursive(&mut rng, &damage);
    }
    assert_eq!(humanoid.get_size_recursive(), 140);
    assert_eq!(humanoid.children.len(), 5);
    // Only the states and statuses of the table may appear.
    assert_eq!(
        humanoid.has_status_effect_recursive(BodyPartStatusEffect::Deaf),
        false
    );
}

#[test]
fn direct_damage_only_changes_this_node() {
    let mut rng = GameRng::from_seed(3);
    let damage = simple_damage();
    let mut humanoid = BodyPartTreeNode::new_humanoid();
    for _ in 0..20 {
        humanoid.take_damage(&mut rng, &damage);
    }
    for child in humanoid.children.iter() {
        assert_eq!(child.get_state(), BodyPartState::Okay);
    }
}

#[test]
fn menu_text_shows_state_and_statuses() {
    let part = BodyPart::new_empty(BodyPartType::Leg);
    assert_eq!(part.get_menu_text(), "Leg \u{2014} Okay");

    let afflicted = BodyPart::new(
        BodyPartType::Head,
        BodyPartState::Nonfunctional,
        vec![
            BodyPartStatusEffect::Deaf,
            BodyPartStatusEffect::Blind,
            BodyPartStatusEffect::Bleeding,
        ],
    );
    assert_eq!(
        afflicted.get_menu_text(),
        "Head \u{2014} Nonfunctional \u{2014} Bleeding, Blind, Deaf"
    );
}

#[test]
fn tree_menu_text_indents_children() {
    let humanoid = BodyPartTreeNode::new_humanoid();
    let lines = humanoid.get_menu_text();
    assert_eq!(lines.len(), 10);
    assert_eq!(lines[0], "Body \u{2014} Okay");
    assert_eq!(lines[1], "    Head \u{2014} Okay");
    assert_eq!(lines[2], "    Leg \u{2014} Okay");
    assert_eq!(lines[3], "        Foot \u{2014} Okay");
    assert_eq!(lines[8], "    Arm \u{2014} Okay");
    assert_eq!(lines[9], "        Hand \u{2014} Okay");
}

#[test]
fn one_application_strikes_exactly_one_node() {
    // With a certain status effect and no transitions, the struck node — and
    // only the struck node — gains the effect.
    let certain_bleeding = Damage::new(
        vec![],
        vec![(BodyPartStatusEffect::Bleeding, Probability(100))],
    )
    .unwrap();
    let mut rng = GameRng::from_seed(17);
    for _ in 0..20 {
        let mut humanoid = BodyPartTreeNode::new_humanoid();
        humanoid.take_damage_recursive(&mut rng, &certain_bleeding);
        assert_eq!(count_bleeding(&humanoid), 1);
    }
}

fn count_bleeding(node: &BodyPartTreeNode) -> usize {
    let own = if node.has_status_effect(BodyPartStatusEffect::Bleeding) == PartialBool::True {
        1
    } else {
        0
    };
    own + node.children.iter().map(count_bleeding).sum::<usize>()
}
