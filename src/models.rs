use vstd::prelude::*;

verus! {

/// A cell of the maze, by column `x` and row `y`, both counted from zero.
#[derive(Clone, Copy, Debug, PartialEq, Eq, Structural)]
pub struct Position {
    pub x: usize,
    pub y: usize,
}

/// A movement intent; `Idle` asks for no movement.
#[derive(Clone, Copy, Debug, PartialEq, Eq, Structural)]
pub enum Direction {
    Up,
    Down,
    Left,
    Right,
    Idle,
}

/// An adversary: where it stands, how it is drawn, and how often (in percent)
/// it heads for the player rather than away from it.
#[derive(Clone, Copy, Debug)]
pub struct Adversary {
    pub position: Position,
    pub color: &'static str,
    pub aggression: u8,
}

} // verus!
