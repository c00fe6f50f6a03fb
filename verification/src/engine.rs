//! The match controller: a state machine over the board, the active player,
//! the turn counter, the per-player capture counts and the occupancy counter.
//!
//! One call of [`GameState::play_turn`] performs one protocol iteration:
//! apply the move (rejections leave the state untouched), credit captures,
//! then check the three termination rules in order — capture threshold,
//! five-in-a-row, full board — and otherwise hand the turn to the other
//! player.

use vstd::prelude::*;

verus! {

use crate::goban::{
    cell_at,
    lemma_area_bound,
    lemma_occupied_count_all_empty,
    lemma_occupied_count_bounds,
    occupied_count,
    captures_upto,
    play_result_cell,
    pos_in_bounds,
};
use crate::types::{
    GameArgs,
    GameState,
    GameType,
    Goban,
    GobanSize,
    Intersection,
    MoveError,
    Player,
    StartConditions,
    STONE_TAKEN_MAX,
    opponent_of,
};
use crate::victory::{board_has_victory, check_board_victory};

/// Where a match stands: still running, decided for one player, or drawn.
#[derive(Copy, Clone, Debug, PartialEq, Eq, Structural)]
pub enum GameOutcome {
    InProgress,
    PlayerOneWins,
    PlayerTwoWins,
    Draw,
}

/// The winning outcome of a player.
pub open spec fn win_of(active: Player) -> GameOutcome {
    match active {
        Player::One => GameOutcome::PlayerOneWins,
        Player::Two => GameOutcome::PlayerTwoWins,
    }
}

/// The winning outcome of a player, as an executable value.
fn winner_outcome(p: Player) -> (o: GameOutcome)
    ensures
        o == win_of(p),
{
    match p {
        Player::One => GameOutcome::PlayerOneWins,
        Player::Two => GameOutcome::PlayerTwoWins,
    }
}

/// The capture count credited to one player.
pub open spec fn taken_of(p1_taken: int, p2_taken: int, p: Player) -> int {
    match p {
        Player::One => p1_taken,
        Player::Two => p2_taken,
    }
}

/// The player, if any, whose credited capture count has reached the winning
/// threshold. Either player's count decides; when a single move somehow left
/// both at the threshold, the player who just moved takes precedence.
pub open spec fn threshold_winner(p1_taken: int, p2_taken: int, active: Player) -> Option<Player> {
    if taken_of(p1_taken, p2_taken, active) >= STONE_TAKEN_MAX {
        Some(active)
    } else if taken_of(p1_taken, p2_taken, opponent_of(active)) >= STONE_TAKEN_MAX {
        Some(opponent_of(active))
    } else {
        None
    }
}

/// The controller's termination decision after a move of `active` has been
/// applied, checked in protocol order: capture threshold first, then
/// five-in-a-row, then full board, else the match goes on.
pub open spec fn decide_outcome(
    b: Seq<Intersection>,
    size: int,
    used: int,
    p1_taken: int,
    p2_taken: int,
    active: Player,
) -> GameOutcome {
    match threshold_winner(p1_taken, p2_taken, active) {
        Some(winner) => win_of(winner),
        None => if board_has_victory(b, size) {
            win_of(active)
        } else if used >= size * size {
            GameOutcome::Draw
        } else {
            GameOutcome::InProgress
        },
    }
}

/// The stones a successful move of the active player at `pos` would capture
/// on the current board.
pub open spec fn move_captures(st: GameState, pos: (int, int)) -> int {
    2 * captures_upto(st.goban.board@, st.goban.size as int, pos, st.player, 8)
}

impl Default for GameArgs {
    /// The default configuration: a 19x19 board, two human players, the
    /// standard ruleset, and no debugging.
    fn default() -> (args: GameArgs)
        ensures
            args.board_size is Large,
            args.game_type is PlayerVsPlayer,
            args.start_cond is Standard,
            args.debug == false,
    {
        GameArgs {
            board_size: GobanSize::Large,
            game_type: GameType::PlayerVsPlayer,
            start_cond: StartConditions::Standard,
            debug: false,
        }
    }
}

impl GameArgs {
    /// The default configuration; see [`GameArgs::default`].
    pub fn new() -> (args: GameArgs)
        ensures
            args.board_size is Large,
            args.game_type is PlayerVsPlayer,
            args.start_cond is Standard,
            args.debug == false,
    {
        Default::default()
    }
}

impl GameState {
    /// The controller's invariant: the board is well formed and the occupancy
    /// counter equals the number of stones on the board.
    pub open spec fn wf(self) -> bool {
        &&& self.goban.wf()
        &&& self.used_intersection == occupied_count(self.goban.board@)
    }

    /// A fresh match: an empty board of the configured size, player one to
    /// move, and every counter at zero.
    pub fn new(game_args: GameArgs) -> (st: GameState)
        ensures
            st.wf(),
            st.goban.size == game_args.board_size.spec_side(),
            forall|i: int|
                0 <= i < st.goban.board@.len() ==> st.goban.board@[i] == Intersection::Empty,
            st.turn == 0,
            st.player == Player::One,
            st.p1_stone_taken == 0,
            st.p2_stone_taken == 0,
            st.used_intersection == 0,
            st.game_type == game_args.game_type,
            st.start_cond == game_args.start_cond,
            st.debug == game_args.debug,
    {
        let goban = Goban::new(game_args.board_size);
        proof {
            lemma_occupied_count_all_empty(goban.board@);
        }
        GameState {
            goban,
            game_type: game_args.game_type,
            start_cond: game_args.start_cond,
            turn: 0,
            player: Player::One,
            p1_stone_taken: 0,
            p2_stone_taken: 0,
            debug: game_args.debug,
            used_intersection: 0,
        }
    }

    /// One protocol iteration while the match is in progress: apply the
    /// active player's move, credit any captured stones to that player, keep
    /// the occupancy counter current, and decide whether the match ends. A
    /// rejected move reports its error and changes nothing; only a move that
    /// leaves the match in progress hands the turn over and advances the turn
    /// counter. The numeric bounds in the preconditions only keep the
    /// counters within the machine's integer range.
    pub fn play_turn(&mut self, pos: (usize, usize)) -> (r: Result<GameOutcome, MoveError>)
        requires
            old(self).wf(),
            old(self).turn < usize::MAX,
            old(self).p1_stone_taken + 16 <= usize::MAX,
            old(self).p2_stone_taken + 16 <= usize::MAX,
        ensures
            final(self).wf(),
            r is Err ==> *final(self) == *old(self),
            !pos_in_bounds(old(self).goban.size as int, (pos.0 as int, pos.1 as int)) ==> r
                == Err::<GameOutcome, MoveError>(MoveError::OutOfBounds),
            pos_in_bounds(old(self).goban.size as int, (pos.0 as int, pos.1 as int)) && cell_at(
                old(self).goban.board@,
                old(self).goban.size as int,
                pos.0 as int,
                pos.1 as int,
            ) != Intersection::Empty ==> r == Err::<GameOutcome, MoveError>(MoveError::CellOccupied),
            pos_in_bounds(old(self).goban.size as int, (pos.0 as int, pos.1 as int)) && cell_at(
                old(self).goban.board@,
                old(self).goban.size as int,
                pos.0 as int,
                pos.1 as int,
            ) == Intersection::Empty ==> ({
                let size = old(self).goban.size as int;
                let posg = (pos.0 as int, pos.1 as int);
                let cap = move_captures(*old(self), posg);
                &&& r is Ok
                &&& final(self).goban.size == old(self).goban.size
                &&& forall|rr: int, cc: int|
                    pos_in_bounds(size, (rr, cc)) ==> #[trigger] cell_at(
                        final(self).goban.board@,
                        size,
                        rr,
                        cc,
                    ) == play_result_cell(
                        old(self).goban.board@,
                        size,
                        posg,
                        old(self).player,
                        rr,
                        cc,
                    )
                &&& final(self).used_intersection == old(self).used_intersection + 1 - cap
                &&& final(self).p1_stone_taken == old(self).p1_stone_taken + (
                if old(self).player == Player::One {
                    cap
                } else {
                    0int
                })
                &&& final(self).p2_stone_taken == old(self).p2_stone_taken + (
                if old(self).player == Player::Two {
                    cap
                } else {
                    0int
                })
                &&& r == Ok::<GameOutcome, MoveError>(decide_outcome(
                    final(self).goban.board@,
                    size,
                    final(self).used_intersection as int,
                    final(self).p1_stone_taken as int,
                    final(self).p2_stone_taken as int,
                    old(self).player,
                ))
                &&& (r == Ok::<GameOutcome, MoveError>(GameOutcome::InProgress)
                    ==> final(self).player == opponent_of(old(self).player) && final(self).turn
                    == old(self).turn + 1)
                &&& (r != Ok::<GameOutcome, MoveError>(GameOutcome::InProgress)
                    ==> final(self).player == old(self).player && final(self).turn == old(
                    self,
                ).turn)
                &&& final(self).game_type == old(self).game_type
                &&& final(self).start_cond == old(self).start_cond
                &&& final(self).debug == old(self).debug
            }),
    {
        let active = self.player;
        let delta: isize = match self.goban.play(active, pos) {
            Err(err) => {
                return Err(err);
            },
            Ok(d) => d,
        };
        let captured: usize = (1 - delta) as usize;
        proof {
            lemma_occupied_count_bounds(old(self).goban.board@);
            lemma_occupied_count_bounds(self.goban.board@);
            lemma_area_bound(self.goban.size as int);
        }
        let new_used: usize = if delta >= 0 {
            self.used_intersection + (delta as usize)
        } else {
            self.used_intersection - ((0 - delta) as usize)
        };
        self.used_intersection = new_used;
        match active {
            Player::One => {
                self.p1_stone_taken = self.p1_stone_taken + captured;
            },
            Player::Two => {
                self.p2_stone_taken = self.p2_stone_taken + captured;
            },
        }
        let own_taken = match active {
            Player::One => self.p1_stone_taken,
            Player::Two => self.p2_stone_taken,
        };
        if own_taken >= STONE_TAKEN_MAX {
            return Ok(winner_outcome(active));
        }
        let other = active.other();
        let other_taken = match other {
            Player::One => self.p1_stone_taken,
            Player::Two => self.p2_stone_taken,
        };
        if other_taken >= STONE_TAKEN_MAX {
            return Ok(winner_outcome(other));
        }
        if check_board_victory(&self.goban) {
            return Ok(winner_outcome(active));
        }
        if self.used_intersection >= self.goban.size * self.goban.size {
            return Ok(GameOutcome::Draw);
        }
        self.player = self.player.other();
        self.turn = self.turn + 1;
        Ok(GameOutcome::InProgress)
    }
}

/// Capture-threshold law: once one player's credited capture count has
/// reached the threshold (and the other's has not), the controller decides
/// the match in that player's favour on the very next check, whoever moved
/// and regardless of the board pattern.
pub proof fn lemma_capture_threshold_wins(
    b: Seq<Intersection>,
    size: int,
    used: int,
    p1_taken: int,
    p2_taken: int,
    active: Player,
    winner: Player,
)
    requires
        taken_of(p1_taken, p2_taken, winner) >= STONE_TAKEN_MAX,
        taken_of(p1_taken, p2_taken, opponent_of(winner)) < STONE_TAKEN_MAX,
    ensures
        decide_outcome(b, size, used, p1_taken, p2_taken, active) == win_of(winner),
{
}

/// Draw law: while neither win rule fires, a well-formed occupancy counter
/// (never above the cell count) makes the controller declare a draw exactly
/// when every cell of the board is occupied.
pub proof fn lemma_draw_exactly_on_full_board(
    b: Seq<Intersection>,
    size: int,
    used: int,
    p1_taken: int,
    p2_taken: int,
    active: Player,
)
    requires
        b.len() == size * size,
        0 <= used <= b.len(),
        p1_taken < STONE_TAKEN_MAX,
        p2_taken < STONE_TAKEN_MAX,
        !board_has_victory(b, size),
    ensures
        (decide_outcome(b, size, used, p1_taken, p2_taken, active) == GameOutcome::Draw) == (used
            == size * size),
{
}

} // verus!
