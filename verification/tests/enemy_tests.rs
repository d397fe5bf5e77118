use roguelike_core::enemy::AICommand;
use roguelike_core::enemy::AIComponent;
use roguelike_core::enemy::Enemy;
use roguelike_core::events::Direction;

#[test]
fn test_ai_component_cycles_correctly() {
    let mut ai = AIComponent::new(vec![AICommand::Wait(10)]);
    assert_eq!(ai.get_current_command(), AICommand::Wait(10));
    assert_eq!(ai.next(), AICommand::Wait(10));
    assert_eq!(ai.next(), AICommand::Wait(10));
    assert_eq!(ai.next(), AICommand::Wait(10));

    let mut ai = AIComponent::new(vec![
        AICommand::Wait(10),
        AICommand::Wait(5),
        AICommand::Speak("Something".to_string()),
    ]);
    assert_eq!(ai.get_current_command(), AICommand::Wait(10));
    assert_eq!(ai.next(), AICommand::Wait(5));
    assert_eq!(ai.next(), AICommand::Speak("Something".to_string()));
    assert_eq!(ai.next(), AICommand::Wait(10));
    assert_eq!(ai.next(), AICommand::Wait(5));
}

#[test]
fn command_costs_are_fixed() {
    assert_eq!(AICommand::Wait(17).get_ticks(), 17);
    assert_eq!(AICommand::Move(Direction::Up).get_ticks(), 10);
    assert_eq!(AICommand::MoveTowardsPlayer.get_ticks(), 10);
    assert_eq!(AICommand::Attack.get_ticks(), 10);
    assert_eq!(AICommand::Speak("hi".to_string()).get_ticks(), 10);
}

#[test]
fn a_full_cycle_returns_to_the_start() {
    let program = vec![
        AICommand::Wait(1),
        AICommand::Attack,
        AICommand::MoveTowardsPlayer,
    ];
    let mut ai = AIComponent::new(program.clone());
    let first_round: Vec<AICommand> = (0..3).map(|_| ai.next()).collect();
    let second_round: Vec<AICommand> = (0..3).map(|_| ai.next()).collect();
    assert_eq!(first_round, second_round);
    assert_eq!(first_round, vec![program[1].clone(), program[2].clone(), program[0].clone()]);
}

#[test]
fn enemies_carry_their_program() {
    let enemy = Enemy::new(vec![AICommand::Speak("Fear me!".to_string()), AICommand::Wait(30)]);
    assert_eq!(enemy.commands.len(), 2);
}
