//! The game session: board, player to move and status, with legal move
//! application and turn alternation.
//!
//! Boards of size 2 and more are played on `hexgame::Game`, which decides
//! legality and detects the winner; the session keeps a row-major mirror of the
//! board that the contracts speak of. `hexgame` refuses boards smaller than 2,
//! so the two degenerate sizes are played by the session alone: size 0 has no
//! cell, and on size 1 the single stone touches all four edges and wins.
use vstd::prelude::*;
use crate::geometry::{Coordinate, on_board, precedes};
use hexgame::{Color, Coords, Game, InvalidMove, Status};

verus! {

/// Largest board size a session accepts.
pub const MAX_SIZE: u8 = 17;

/// The two players. `First` always moves first.
#[derive(Clone, Copy, Debug, PartialEq, Eq, Structural)]
pub enum Player {
    First,
    Second,
}

impl Player {
    pub open spec fn other(self) -> Player {
        match self {
            Player::First => Player::Second,
            Player::Second => Player::First,
        }
    }

    pub fn opponent(self) -> (r: Player)
        ensures
            r == self.other(),
    {
        match self {
            Player::First => Player::Second,
            Player::Second => Player::First,
        }
    }
}

/// Whether the game goes on (and who moves next) or who has won.
#[derive(Clone, Copy, Debug, PartialEq, Eq, Structural)]
pub enum GameStatus {
    Ongoing(Player),
    Finished(Player),
}

/// Why a move was refused.
#[derive(Clone, Copy, Debug, PartialEq, Eq, Structural)]
pub enum MoveError {
    /// The game has already been won.
    GameOver,
    /// The coordinate lies outside the board.
    OutOfBounds,
    /// The cell already holds a stone.
    CellOccupied,
}

#[verifier::external_type_specification]
#[verifier::external_body]
pub struct ExGame(hexgame::Game);

/// The stones on a `hexgame` board, keyed by (row, column).
pub uninterp spec fn stones_of(g: Game) -> Map<(int, int), Player>;

/// The status of a `hexgame` game.
pub uninterp spec fn status_of(g: Game) -> GameStatus;

/// The size of a `hexgame` board.
pub uninterp spec fn size_of(g: Game) -> int;

/// Relies on `hexgame::Game::new`: an empty square board of the given size with
/// Black, the first player, to move. It panics outside `MIN_BOARD_SIZE` (2) to
/// `MAX_BOARD_SIZE` (19).
#[verifier::external_body]
fn engine_new(size: u8) -> (r: Game)
    requires
        2 <= size <= 19,
    ensures
        forall|k: (int, int)| !stones_of(r).contains_key(k),
        status_of(r) == GameStatus::Ongoing(Player::First),
        size_of(r) == size,
{
    Game::new(size)
}

/// Relies on `hexgame::Game::play`: a finished game refuses every move; then an
/// out-of-bounds coordinate, then an occupied cell is refused, leaving the game
/// as it was; otherwise the player to move places a stone there and either wins
/// or hands the turn to the opponent.
#[verifier::external_body]
fn engine_play(g: &mut Game, row: u8, column: u8) -> (r: Result<(), MoveError>)
    ensures
        status_of(*old(g)) is Finished ==> (r matches Err(MoveError::GameOver))
            && *final(g) == *old(g),
        status_of(*old(g)) is Ongoing && (row >= size_of(*old(g)) || column >= size_of(*old(g)))
            ==> (r matches Err(MoveError::OutOfBounds)) && *final(g) == *old(g),
        status_of(*old(g)) is Ongoing && row < size_of(*old(g)) && column < size_of(*old(g))
            && stones_of(*old(g)).contains_key((row as int, column as int)) ==> (r matches Err(MoveError::CellOccupied)) && *final(g) == *old(g),
        status_of(*old(g)) is Ongoing && row < size_of(*old(g)) && column < size_of(*old(g))
            && !stones_of(*old(g)).contains_key((row as int, column as int)) ==> {
            let p = status_of(*old(g))->Ongoing_0;
            &&& r is Ok
            &&& stones_of(*final(g)) == stones_of(*old(g)).insert((row as int, column as int), p)
            &&& size_of(*final(g)) == size_of(*old(g))
            &&& status_of(*final(g)) == GameStatus::Finished(p) || status_of(*final(g))
                == GameStatus::Ongoing(p.other())
        },
{
    match g.play(Coords::new(row, column)) {
        Ok(()) => Ok(()),
        Err(InvalidMove::GameOver) => Err(MoveError::GameOver),
        Err(InvalidMove::OutOfBounds(_)) => Err(MoveError::OutOfBounds),
        Err(InvalidMove::CellOccupied(_)) => Err(MoveError::CellOccupied),
    }
}

/// Relies on `hexgame::Game::get_status`, with Black as the first player.
#[verifier::external_body]
fn engine_status(g: &Game) -> (r: GameStatus)
    ensures
        r == status_of(*g),
{
    match g.get_status() {
        Status::Ongoing(Color::Black) => GameStatus::Ongoing(Player::First),
        Status::Ongoing(Color::White) => GameStatus::Ongoing(Player::Second),
        Status::Finished(Color::Black) => GameStatus::Finished(Player::First),
        Status::Finished(Color::White) => GameStatus::Finished(Player::Second),
    }
}

/// Position of cell `c` in the row-major board sequence.
pub open spec fn cell_index(size: int, c: Coordinate) -> int {
    c.x * size + c.y
}

/// Number of stones of `p` on a board.
pub open spec fn count_of(b: Seq<Option<Player>>, p: Player) -> nat
    decreases b.len(),
{
    if b.len() == 0 {
        0
    } else {
        count_of(b.drop_last(), p) + if b.last() == Some(p) {
            1nat
        } else {
            0nat
        }
    }
}

/// Number of stones on a board.
pub open spec fn stone_count(b: Seq<Option<Player>>) -> nat {
    count_of(b, Player::First) + count_of(b, Player::Second)
}

/// Stones of each player as the alternation of turns leaves them: the first
/// player has one stone more exactly when the second player is to move, or when
/// the first player made the last, winning, move.
pub open spec fn counts_agree(b: Seq<Option<Player>>, status: GameStatus) -> bool {
    let f = count_of(b, Player::First);
    let s = count_of(b, Player::Second);
    match status {
        GameStatus::Ongoing(Player::First) | GameStatus::Finished(Player::Second) => f == s,
        GameStatus::Ongoing(Player::Second) | GameStatus::Finished(Player::First) => f == s + 1,
    }
}

pub open spec fn map_cell(m: Map<(int, int), Player>, x: int, y: int) -> Option<Player> {
    if m.contains_key((x, y)) {
        Some(m[(x, y)])
    } else {
        None
    }
}

/// A game in progress or finished, on a square board of 0 to `MAX_SIZE` cells a side.
pub struct GameSession {
    size: u8,
    cells: Vec<Option<Player>>,
    status: GameStatus,
    engine: Option<Game>,
}

impl GameSession {
    pub closed spec fn size_spec(&self) -> nat {
        self.size as nat
    }

    /// The board, row-major: cell `c` is at `cell_index(size, c)`.
    pub closed spec fn board(&self) -> Seq<Option<Player>> {
        self.cells@
    }

    pub closed spec fn status_spec(&self) -> GameStatus {
        self.status
    }

    pub closed spec fn wf(&self) -> bool {
        &&& self.size <= MAX_SIZE
        &&& self.cells@.len() == self.size as int * self.size as int
        &&& counts_agree(self.cells@, self.status)
        &&& (self.engine is Some <==> self.size >= 2)
        &&& self.engine matches Some(g) ==> {
            &&& size_of(g) == self.size
            &&& status_of(g) == self.status
            &&& forall|x: int, y: int|
                0 <= x < self.size && 0 <= y < self.size ==> #[trigger] map_cell(stones_of(g), x, y)
                    == self.cells@[x * self.size + y]
        }
    }
}

pub(crate) proof fn lemma_count_update(b: Seq<Option<Player>>, i: int, p: Player, q: Player)
    requires
        0 <= i < b.len(),
        b[i] is None,
    ensures
        count_of(b.update(i, Some(p)), q) == count_of(b, q) + if p == q {
            1nat
        } else {
            0nat
        },
    decreases b.len(),
{
    let u = b.update(i, Some(p));
    if i == b.len() - 1 {
        assert(u.drop_last() =~= b.drop_last());
    } else {
        assert(u.drop_last() =~= b.drop_last().update(i, Some(p)));
        lemma_count_update(b.drop_last(), i, p, q);
    }
}

proof fn lemma_count_empty(b: Seq<Option<Player>>, q: Player)
    requires
        forall|i: int| 0 <= i < b.len() ==> b[i] is None,
    ensures
        count_of(b, q) == 0,
    decreases b.len(),
{
    if b.len() > 0 {
        lemma_count_empty(b.drop_last(), q);
    }
}

pub(crate) proof fn lemma_index_bounds(n: int, x: int, y: int)
    requires
        0 <= x < n,
        0 <= y < n,
    ensures
        0 <= x * n + y < n * n,
{
    assert(0 <= x * n + y < n * n) by (nonlinear_arith)
        requires 0 <= x < n, 0 <= y < n;
}

proof fn lemma_index_injective(n: int, x: int, y: int, i: int, j: int)
    requires
        0 <= x < n,
        0 <= y < n,
        0 <= i < n,
        0 <= j < n,
        x * n + y == i * n + j,
    ensures
        x == i && y == j,
{
    assert(x == i) by (nonlinear_arith)
        requires 0 <= y < n, 0 <= j < n, x * n + y == i * n + j, 0 <= x, 0 <= i;
}

impl GameSession {
    /// A fresh game: an empty board of `size` cells a side, first player to move.
    pub fn new(size: u8) -> (r: GameSession)
        requires
            size <= MAX_SIZE,
        ensures
            r.wf(),
            r.size_spec() == size,
            r.status_spec() == GameStatus::Ongoing(Player::First),
            r.board().len() == size as int * size as int,
            forall|i: int| 0 <= i < r.board().len() ==> #[trigger] r.board()[i] is None,
    {
        proof {
            assert(size as int * size as int <= 289) by (nonlinear_arith)
                requires size <= 17;
        }
        let n: usize = size as usize * size as usize;
        let mut cells: Vec<Option<Player>> = Vec::new();
        let mut k: usize = 0;
        while k < n
            invariant
                k <= n,
                cells@.len() == k,
                forall|i: int| 0 <= i < k ==> #[trigger] cells@[i] is None,
            decreases n - k,
        {
            cells.push(None);
            k = k + 1;
        }
        let engine = if size >= 2 {
            Some(engine_new(size))
        } else {
            None
        };
        proof {
            lemma_count_empty(cells@, Player::First);
            lemma_count_empty(cells@, Player::Second);
            if engine is Some {
                let g = engine->Some_0;
                assert forall|x: int, y: int| 0 <= x < size && 0 <= y < size implies #[trigger] map_cell(
                    stones_of(g),
                    x,
                    y,
                ) == cells@[x * size + y] by {
                    lemma_index_bounds(size as int, x, y);
                }
            }
        }
        GameSession { size, cells, status: GameStatus::Ongoing(Player::First), engine }
    }

    /// Places a stone of the player to move on `c`.
    ///
    /// A finished game refuses every move; a coordinate off the board and an
    /// occupied cell are refused next. A refused move changes nothing. A legal
    /// move either wins the game for the mover or hands the turn to the
    /// opponent; on a board of one cell it always wins.
    pub fn apply_move(&mut self, c: Coordinate) -> (r: Result<(), MoveError>)
        requires
            old(self).wf(),
        ensures
            final(self).wf(),
            final(self).size_spec() == old(self).size_spec(),
            old(self).status_spec() is Finished ==> (r matches Err(MoveError::GameOver)) && *final(self) == *old(self),
            old(self).status_spec() is Ongoing && !on_board(c, old(self).size_spec() as int) ==> (
            r matches Err(MoveError::OutOfBounds)) && *final(self) == *old(self),
            old(self).status_spec() is Ongoing && on_board(c, old(self).size_spec() as int)
                && old(self).board()[cell_index(old(self).size_spec() as int, c)] is Some ==> (
            r matches Err(MoveError::CellOccupied)) && *final(self) == *old(self),
            old(self).status_spec() is Ongoing && on_board(c, old(self).size_spec() as int)
                && old(self).board()[cell_index(old(self).size_spec() as int, c)] is None ==> {
                let p = old(self).status_spec()->Ongoing_0;
                &&& r is Ok
                &&& final(self).board() == old(self).board().update(
                    cell_index(old(self).size_spec() as int, c),
                    Some(p),
                )
                &&& final(self).status_spec() == GameStatus::Finished(p)
                    || final(self).status_spec() == GameStatus::Ongoing(p.other())
                &&& old(self).size_spec() == 1 ==> final(self).status_spec() == GameStatus::Finished(
                    p,
                )
            },
    {
        let p = match self.status {
            GameStatus::Finished(_) => {
                return Err(MoveError::GameOver);
            },
            GameStatus::Ongoing(p) => p,
        };
        if c.x >= self.size || c.y >= self.size {
            return Err(MoveError::OutOfBounds);
        }
        proof {
            lemma_index_bounds(self.size as int, c.x as int, c.y as int);
            assert(self.size as int * self.size as int <= 289) by (nonlinear_arith)
                requires self.size <= 17;
            assert(0 <= c.x as int * self.size as int <= 289) by (nonlinear_arith)
                requires c.x < self.size, self.size <= 17;
        }
        let idx: usize = c.x as usize * self.size as usize + c.y as usize;
        if self.cells[idx].is_some() {
            return Err(MoveError::CellOccupied);
        }
        let ghost old_cells = self.cells@;
        let ghost n = self.size as int;
        let ghost old_engine = self.engine;
        match &mut self.engine {
            Some(g) => {
                proof {
                    assert(map_cell(stones_of(*g), c.x as int, c.y as int) == old_cells[c.x * n
                        + c.y]);
                }
                let moved = engine_play(g, c.x, c.y);
                if moved.is_err() {
                    return moved;
                }
                self.status = engine_status(g);
            },
            None => {
                self.status = GameStatus::Finished(p);
            },
        }
        self.cells.set(idx, Some(p));
        proof {
            lemma_count_update(old_cells, idx as int, p, Player::First);
            lemma_count_update(old_cells, idx as int, p, Player::Second);
            if self.engine is Some {
                let g = self.engine->Some_0;
                assert forall|x: int, y: int| 0 <= x < n && 0 <= y < n implies #[trigger] map_cell(
                    stones_of(g),
                    x,
                    y,
                ) == self.cells@[x * n + y] by {
                    let g0 = old_engine->Some_0;
                    lemma_index_bounds(n, x, y);
                    assert(stones_of(g) == stones_of(g0).insert((c.x as int, c.y as int), p));
                    if x * n + y == idx as int {
                        lemma_index_injective(n, x, y, c.x as int, c.y as int);
                    } else {
                        assert((x, y) != (c.x as int, c.y as int));
                        assert(map_cell(stones_of(g0), x, y) == old_cells[x * n + y]);
                    }
                }
            }
        }
        Ok(())
    }

    /// Discards the current game and starts a fresh one on a board of `size`.
    pub fn reset(&mut self, size: u8)
        requires
            size <= MAX_SIZE,
        ensures
            final(self).wf(),
            final(self).size_spec() == size,
            final(self).status_spec() == GameStatus::Ongoing(Player::First),
            final(self).board().len() == size as int * size as int,
            forall|i: int| 0 <= i < final(self).board().len() ==> #[trigger] final(self).board()[i] is None,
    {
        *self = GameSession::new(size);
    }

    pub fn size(&self) -> (r: u8)
        ensures
            r == self.size_spec(),
    {
        self.size
    }

    pub fn status(&self) -> (r: GameStatus)
        ensures
            r == self.status_spec(),
    {
        self.status
    }

    /// The player to move, or nothing once the game is won.
    pub fn current_player(&self) -> (r: Option<Player>)
        ensures
            r == match self.status_spec() {
                GameStatus::Ongoing(p) => Some(p),
                GameStatus::Finished(_) => None,
            },
    {
        match self.status {
            GameStatus::Ongoing(p) => Some(p),
            GameStatus::Finished(_) => None,
        }
    }

    /// The stone on cell `c`; nothing for an empty cell or one off the board.
    pub fn cell(&self, c: Coordinate) -> (r: Option<Player>)
        requires
            self.wf(),
        ensures
            on_board(c, self.size_spec() as int) ==> r == self.board()[cell_index(
                self.size_spec() as int,
                c,
            )],
            !on_board(c, self.size_spec() as int) ==> r is None,
    {
        if c.x >= self.size || c.y >= self.size {
            return None;
        }
        proof {
            lemma_index_bounds(self.size as int, c.x as int, c.y as int);
            assert(self.size as int * self.size as int <= 289) by (nonlinear_arith)
                requires self.size <= 17;
            assert(0 <= c.x as int * self.size as int <= 289) by (nonlinear_arith)
                requires c.x < self.size, self.size <= 17;
        }
        self.cells[c.x as usize * self.size as usize + c.y as usize]
    }

    /// The cells holding a stone of `p`, in row-major order.
    pub fn stones_in_order(&self, p: Player) -> (r: Vec<Coordinate>)
        requires
            self.wf(),
        ensures
            forall|k: int|
                0 <= k < r@.len() ==> on_board(#[trigger] r@[k], self.size_spec() as int)
                    && self.board()[cell_index(self.size_spec() as int, r@[k])] == Some(p),
            forall|k: int, l: int| 0 <= k < l < r@.len() ==> precedes(#[trigger] r@[k], #[trigger] r@[l]),
            forall|c: Coordinate|
                on_board(c, self.size_spec() as int) && #[trigger] self.board()[cell_index(
                    self.size_spec() as int,
                    c,
                )] == Some(p) ==> exists|k: int| 0 <= k < r@.len() && r@[k] == c,
    {
        let n = self.size;
        let ghost ni = n as int;
        let mut r: Vec<Coordinate> = Vec::new();
        let mut x: u8 = 0;
        while x < n
            invariant
                self.wf(),
                n == self.size,
                ni == n,
                x <= n,
                forall|k: int|
                    0 <= k < r@.len() ==> on_board(#[trigger] r@[k], ni) && r@[k].x < x
                        && self.cells@[cell_index(ni, r@[k])] == Some(p),
                forall|k: int, l: int| 0 <= k < l < r@.len() ==> precedes(#[trigger] r@[k], #[trigger] r@[l]),
                forall|c: Coordinate|
                    on_board(c, ni) && c.x < x && #[trigger] self.cells@[cell_index(ni, c)] == Some(p)
                        ==> exists|k: int| 0 <= k < r@.len() && r@[k] == c,
            decreases n - x,
        {
            let mut y: u8 = 0;
            while y < n
                invariant
                    self.wf(),
                    n == self.size,
                    ni == n,
                    x < n,
                    y <= n,
                    forall|k: int|
                        0 <= k < r@.len() ==> on_board(#[trigger] r@[k], ni) && precedes(
                            r@[k],
                            Coordinate { x, y },
                        ) && self.cells@[cell_index(ni, r@[k])] == Some(p),
                    forall|k: int, l: int|
                        0 <= k < l < r@.len() ==> precedes(#[trigger] r@[k], #[trigger] r@[l]),
                    forall|c: Coordinate|
                        on_board(c, ni) && precedes(c, Coordinate { x, y }) && #[trigger] self.cells@[cell_index(ni, c)]
                            == Some(p) ==> exists|k: int| 0 <= k < r@.len() && r@[k] == c,
                decreases n - y,
            {
                let here = Coordinate { x, y };
                let held = self.cell(here);
                let ghost before = r@;
                if held == Some(p) {
                    r.push(here);
                    proof {
                        assert(r@[r@.len() - 1] == here);
                        assert forall|c: Coordinate|
                            on_board(c, ni) && precedes(c, Coordinate { x, y: (y + 1) as u8 })
                                && #[trigger] self.cells@[cell_index(ni, c)] == Some(p) implies exists|
                            k: int,
                        | 0 <= k < r@.len() && r@[k] == c by {
                            if c == here {
                                assert(r@[r@.len() - 1] == c);
                            } else {
                                let k = choose|k: int| 0 <= k < before.len() && before[k] == c;
                                assert(r@[k] == c);
                            }
                        }
                    }
                } else {
                    proof {
                        assert forall|c: Coordinate|
                            on_board(c, ni) && precedes(c, Coordinate { x, y: (y + 1) as u8 })
                                && #[trigger] self.cells@[cell_index(ni, c)] == Some(p) implies exists|
                            k: int,
                        | 0 <= k < r@.len() && r@[k] == c by {
                            if c == here {
                                assert(false);
                            }
                        }
                    }
                }
                y = y + 1;
            }
            x = x + 1;
        }
        r
    }

    /// The board holds one entry per cell.
    pub proof fn lemma_board_len(&self)
        requires
            self.wf(),
        ensures
            self.board().len() == self.size_spec() * self.size_spec(),
            self.size_spec() <= MAX_SIZE,
    {
    }

    /// Turns alternate: while the game goes on, the first player is to move
    /// exactly when an even number of stones lies on the board, so the stone
    /// placed as move number `n` (counting from 0) is the first player's exactly
    /// when `n` is even.
    pub proof fn lemma_turn_parity(&self)
        requires
            self.wf(),
        ensures
            self.status_spec() matches GameStatus::Ongoing(p) ==> (p == Player::First <==> stone_count(
                self.board(),
            ) % 2 == 0),
    {
    }
}

} // verus!
