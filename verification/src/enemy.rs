//! Enemies and their cyclic command programs.

use vstd::prelude::*;

use crate::constants::AI_SPEAK_TICKS;
use crate::constants::MOVEMENT_TICKS;
use crate::events::Direction;

verus! {

/// Marker for entities driven by an AI program.
#[derive(Debug, Clone, Copy)]
pub struct EnemyComponent;

/// One step of an AI program.
#[derive(Debug, Clone, PartialEq, Eq)]
pub enum AICommand {
    Wait(u8),
    Move(Direction),
    MoveTowardsPlayer,
    Attack,
    Speak(String),
}

impl AICommand {
    /// The game time an action consumes.
    pub open spec fn spec_ticks(self) -> int {
        match self {
            AICommand::Wait(ticks) => ticks as int,
            AICommand::Move(_) => MOVEMENT_TICKS as int,
            AICommand::MoveTowardsPlayer => MOVEMENT_TICKS as int,
            AICommand::Attack => MOVEMENT_TICKS as int,
            AICommand::Speak(_) => AI_SPEAK_TICKS as int,
        }
    }

    /// The game time an action consumes.
    pub fn get_ticks(&self) -> (r: u8)
        ensures
            r == self.spec_ticks(),
    {
        match self {
            AICommand::Wait(ticks) => *ticks,
            AICommand::Move(_direction) => MOVEMENT_TICKS,
            AICommand::MoveTowardsPlayer => MOVEMENT_TICKS,
            AICommand::Attack => MOVEMENT_TICKS,
            AICommand::Speak(_s) => AI_SPEAK_TICKS,
        }
    }

    /// A value copy of the command.
    pub fn duplicate(&self) -> (r: Self)
        ensures
            r == *self,
    {
        match self {
            AICommand::Wait(ticks) => AICommand::Wait(*ticks),
            AICommand::Move(direction) => AICommand::Move(*direction),
            AICommand::MoveTowardsPlayer => AICommand::MoveTowardsPlayer,
            AICommand::Attack => AICommand::Attack,
            AICommand::Speak(s) => AICommand::Speak(s.clone()),
        }
    }
}

/// A cyclic AI program: a non-empty command list and a pointer to the
/// current command, advanced modulo the list's length.
#[derive(Debug, Clone)]
pub struct AIComponent {
    pub commands: Vec<AICommand>,
    pub pointer: usize,
}

impl AIComponent {
    /// The program is non-empty and the pointer stays on the list.
    pub open spec fn wf(self) -> bool {
        &&& self.commands@.len() > 0
        &&& self.pointer < self.commands@.len()
    }

    /// The command the pointer rests on.
    pub open spec fn spec_current(self) -> AICommand {
        self.commands@[self.pointer as int]
    }

    /// Builds a program starting at its first command. An empty program is
    /// meaningless and excluded.
    pub fn new(commands: Vec<AICommand>) -> (r: Self)
        requires
            commands@.len() > 0,
        ensures
            r == (AIComponent { commands, pointer: 0 }),
            r.wf(),
    {
        Self { commands, pointer: 0 }
    }

    /// Advances the pointer one step around the cycle and returns the newly
    /// current command.
    pub fn next(&mut self) -> (r: AICommand)
        requires
            old(self).wf(),
        ensures
            final(self).wf(),
            final(self).commands == old(self).commands,
            final(self).pointer == (old(self).pointer + 1) % (old(self).commands@.len() as int),
            r == final(self).spec_current(),
    {
        self.advance_pointer();
        self.get_current_command()
    }

    /// The newly current command without advancing.
    pub fn get_current_command(&self) -> (r: AICommand)
        requires
            self.wf(),
        ensures
            r == self.spec_current(),
    {
        self.commands[self.pointer].duplicate()
    }

    /// Advances the pointer one step around the cycle.
    pub fn advance_pointer(&mut self)
        requires
            old(self).wf(),
        ensures
            final(self).wf(),
            final(self).commands == old(self).commands,
            final(self).pointer == (old(self).pointer + 1) % (old(self).commands@.len() as int),
    {
        let len = self.commands.len();
        self.pointer = (self.pointer + 1) % len;
    }
}

/// The command `steps` calls of `next` from pointer `p` land on, in a cycle
/// of length `len`.
pub open spec fn nth_command(commands: Seq<AICommand>, p: int, steps: nat) -> AICommand {
    commands[(p + steps) % (commands.len() as int)]
}

/// One call of `next` moves the start of the walk one step around the
/// cycle: the command reached by `steps + 1` calls from pointer `p` is the
/// one reached by `steps` calls from the advanced pointer.
pub proof fn lemma_nth_command_step(commands: Seq<AICommand>, p: int, steps: nat)
    requires
        commands.len() > 0,
        0 <= p < commands.len(),
    ensures
        nth_command(commands, p, steps + 1) == nth_command(
            commands,
            (p + 1) % (commands.len() as int),
            steps,
        ),
{
    let len = commands.len() as int;
    assert((p + steps + 1) % len == ((p + 1) % len + steps) % len) by (nonlinear_arith)
        requires
            len > 0,
            0 <= p < len,
    ;
}

/// The AI program cycles: after as many steps as the program has commands,
/// `next` returns the same command again, whatever the starting point.
pub proof fn lemma_ai_program_cycles(commands: Seq<AICommand>, p: int, steps: nat)
    requires
        commands.len() > 0,
    ensures
        nth_command(commands, p, steps + commands.len()) == nth_command(commands, p, steps),
{
    let len = commands.len() as int;
    assert((p + steps + len) % len == (p + steps) % len) by (nonlinear_arith)
        requires
            len > 0,
    ;
}

/// A one-command program always answers with that command.
pub proof fn lemma_single_command_repeats(commands: Seq<AICommand>, p: int, steps: nat)
    requires
        commands.len() == 1,
        0 <= p < 1,
    ensures
        nth_command(commands, p, steps) == commands[0],
{
    assert((p + steps) % 1int == 0) by (nonlinear_arith);
}

/// A spawnable enemy: the command program it will run.
#[derive(Debug, Clone)]
pub struct Enemy {
    pub commands: Vec<AICommand>,
}

impl Enemy {
    /// Builds an enemy from its program.
    pub fn new(commands: Vec<AICommand>) -> (r: Self)
        ensures
            r == (Enemy { commands }),
    {
        Self { commands }
    }
}

} // verus!
