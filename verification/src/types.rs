//! The data model: players, intersections, board sizes, errors, and the
//! structs that the board and the match controller own.

use vstd::prelude::*;

verus! {

/// One of the two players of a match. There is deliberately no "no player"
/// value: an empty cell is expressed by [`Intersection::Empty`], never by a
/// player tag.
#[derive(Copy, Clone, Debug, PartialEq, Eq, Structural)]
pub enum Player {
    One,
    Two,
}

/// One cell of the board grid: empty, or holding a stone of one player.
#[derive(Copy, Clone, Debug, PartialEq, Eq, Structural)]
pub enum Intersection {
    Empty,
    OccupiedBy(Player),
}

/// Why a candidate move was rejected. Both kinds are recoverable: a rejected
/// move has no side effect, and the caller may submit another move.
#[derive(Copy, Clone, Debug, PartialEq, Eq, Structural)]
pub enum MoveError {
    /// A coordinate of the move is not below the board size.
    OutOfBounds,
    /// The addressed cell already holds a stone.
    CellOccupied,
}

/// The supported board dimensions, chosen at match start and immutable
/// thereafter.
#[derive(Copy, Clone, Debug)]
pub enum GobanSize {
    Small,
    Medium,
    Large,
}

impl GobanSize {
    /// The side length of the square board, as a mathematical value.
    pub open spec fn spec_side(self) -> int {
        match self {
            GobanSize::Small => 9,
            GobanSize::Medium => 14,
            GobanSize::Large => 19,
        }
    }

    /// The side length of the square board: 9, 14 or 19.
    pub fn side(&self) -> (n: usize)
        ensures
            n == self.spec_side(),
    {
        match self {
            GobanSize::Small => 9,
            GobanSize::Medium => 14,
            GobanSize::Large => 19,
        }
    }
}

/// The board: a flat row-major grid of `size * size` intersections.
/// Cell `(row, col)` lives at index `row * size + col`.
pub struct Goban {
    pub size: usize,
    pub board: Vec<Intersection>,
}

/// The opening ruleset. Only `Standard` behaviour is implemented; the other
/// values are accepted as inert configuration.
pub enum StartConditions {
    Standard,
    Pro,
    LongPro,
    Swap,
    Swap2,
}

/// Who supplies the moves. The engine only alternates turns; selecting a move
/// source per player is the caller's responsibility.
pub enum GameType {
    PlayerVsPlayer,
    PlayerVsComputer,
    ComputerVsComputer,
}

/// The number of captured enemy stones (5 pairs) that wins a match outright.
pub const STONE_TAKEN_MAX: usize = 10;

/// The whole state of a running match: the board plus the controller's
/// counters.
pub struct GameState {
    pub goban: Goban,
    pub game_type: GameType,
    pub start_cond: StartConditions,
    /// Completed moves so far; incremented once per applied move while the
    /// match goes on.
    pub turn: usize,
    /// The player whose move is expected next.
    pub player: Player,
    /// Enemy stones captured by player one, in total.
    pub p1_stone_taken: usize,
    /// Enemy stones captured by player two, in total.
    pub p2_stone_taken: usize,
    pub debug: bool,
    /// How many cells currently hold a stone; kept current by net deltas.
    pub used_intersection: usize,
}

/// The configuration a match is created from.
pub struct GameArgs {
    pub board_size: GobanSize,
    pub game_type: GameType,
    pub start_cond: StartConditions,
    pub debug: bool,
}

/// The adversary of a player.
pub open spec fn opponent_of(p: Player) -> Player {
    match p {
        Player::One => Player::Two,
        Player::Two => Player::One,
    }
}

impl Player {
    /// The adversary of `self`.
    pub fn other(&self) -> (q: Player)
        ensures
            q == opponent_of(*self),
    {
        match self {
            Player::One => Player::Two,
            Player::Two => Player::One,
        }
    }
}

} // verus!
