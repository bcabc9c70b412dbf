//! One turn of play: a click resolved to a cell, the human move, and the
//! computer's reply once the search has recommended one.
//!
//! The search itself runs outside the library. A click that leaves the game
//! going on answers `ClickOutcome::ComputerToMove`; the caller then runs the
//! search with `SEARCH_ITERATIONS` and `SEARCH_SEED` and hands its
//! recommendation to `apply_computer_move` before accepting the next click.
use vstd::prelude::*;
use crate::geometry::{Coordinate, on_board};
use crate::session::{
    GameSession, GameStatus, Player, cell_index, lemma_count_update, lemma_index_bounds, stone_count,
};

verus! {

/// Number of playouts the search performs for each computer move.
pub const SEARCH_ITERATIONS: u64 = 10;

/// Seed of the random source of each search, for reproducible replies.
pub const SEARCH_SEED: u64 = 123467123321;

/// What a click led to.
#[derive(Clone, Copy, Debug, PartialEq, Eq, Structural)]
pub enum ClickOutcome {
    /// No move was made: no cell under the pointer, the game is over, or the
    /// cell is taken.
    Ignored,
    /// The human move was made and won the game.
    GameWon,
    /// The human move was made and the computer is to reply.
    ComputerToMove,
}

/// Why a recommended computer move could not be played.
#[derive(Clone, Copy, Debug, PartialEq, Eq, Structural)]
pub enum AiError {
    /// The search did not recommend any move.
    NoRecommendation,
    /// The recommended move is not legal on the current board.
    InvalidAction,
}

/// Playing `c` is legal: the game goes on and `c` is an empty cell of the board.
pub open spec fn is_legal(s: GameSession, c: Coordinate) -> bool {
    &&& s.status_spec() is Ongoing
    &&& on_board(c, s.size_spec() as int)
    &&& s.board()[cell_index(s.size_spec() as int, c)] is None
}

/// `after` is `before` with a stone of the player to move on `c`, and that
/// player has either won or handed the turn over; on a board of one cell the
/// stone wins.
pub open spec fn played(before: GameSession, after: GameSession, c: Coordinate) -> bool {
    let p = before.status_spec()->Ongoing_0;
    &&& after.wf()
    &&& after.size_spec() == before.size_spec()
    &&& after.board() == before.board().update(cell_index(before.size_spec() as int, c), Some(p))
    &&& after.status_spec() == GameStatus::Finished(p) || after.status_spec() == GameStatus::Ongoing(
        p.other(),
    )
    &&& before.size_spec() == 1 ==> after.status_spec() == GameStatus::Finished(p)
}

/// Turns alternate over any sequence of legal moves: each one places a stone of
/// the player to move and adds exactly one stone to the board, the move made on
/// a board of `n` stones is the first player's exactly when `n` is even, and a
/// game that goes on passes the turn to the opponent.
pub proof fn lemma_moves_alternate(before: GameSession, after: GameSession, c: Coordinate)
    requires
        before.wf(),
        is_legal(before, c),
        played(before, after, c),
    ensures
        ({
            let p = before.status_spec()->Ongoing_0;
            &&& after.board()[cell_index(before.size_spec() as int, c)] == Some(p)
            &&& stone_count(after.board()) == stone_count(before.board()) + 1
            &&& (p == Player::First <==> stone_count(before.board()) % 2 == 0)
            &&& after.status_spec() is Ongoing ==> after.status_spec() == GameStatus::Ongoing(p.other())
        }),
{
    let p = before.status_spec()->Ongoing_0;
    let n = before.size_spec() as int;
    before.lemma_turn_parity();
    before.lemma_board_len();
    lemma_index_bounds(n, c.x as int, c.y as int);
    lemma_count_update(before.board(), cell_index(n, c), p, Player::First);
    lemma_count_update(before.board(), cell_index(n, c), p, Player::Second);
}

/// Handles a click on `target` (the cell under the pointer, if any): plays it
/// for the player to move when legal, and otherwise changes nothing.
pub fn handle_click(session: &mut GameSession, target: Option<Coordinate>) -> (r: ClickOutcome)
    requires
        old(session).wf(),
    ensures
        final(session).wf(),
        match target {
            Some(c) if is_legal(*old(session), c) => {
                &&& played(*old(session), *final(session), c)
                &&& (r == ClickOutcome::GameWon <==> final(session).status_spec() is Finished)
                &&& (r == ClickOutcome::ComputerToMove <==> final(session).status_spec() is Ongoing)
            },
            _ => r == ClickOutcome::Ignored && *final(session) == *old(session),
        },
{
    let c = match target {
        None => {
            return ClickOutcome::Ignored;
        },
        Some(c) => c,
    };
    match session.apply_move(c) {
        Err(_) => ClickOutcome::Ignored,
        Ok(()) => match session.status() {
            GameStatus::Finished(_) => ClickOutcome::GameWon,
            GameStatus::Ongoing(_) => ClickOutcome::ComputerToMove,
        },
    }
}

/// Plays the move the search recommended. A missing recommendation or an
/// illegal one is refused with the board left as it was.
pub fn apply_computer_move(session: &mut GameSession, recommended: Option<Coordinate>) -> (r: Result<
    (),
    AiError,
>)
    requires
        old(session).wf(),
    ensures
        final(session).wf(),
        match recommended {
            None => (r matches Err(AiError::NoRecommendation)) && *final(session) == *old(session),
            Some(c) => if is_legal(*old(session), c) {
                r is Ok && played(*old(session), *final(session), c)
            } else {
                (r matches Err(AiError::InvalidAction)) && *final(session) == *old(session)
            },
        },
{
    let c = match recommended {
        None => {
            return Err(AiError::NoRecommendation);
        },
        Some(c) => c,
    };
    match session.apply_move(c) {
        Ok(()) => Ok(()),
        Err(_) => Err(AiError::InvalidAction),
    }
}

} // verus!
