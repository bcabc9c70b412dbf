use hexgame_ui::geometry::Coordinate;
use hexgame_ui::session::{GameSession, GameStatus, MoveError, Player};

fn coord(x: u8, y: u8) -> Coordinate {
    Coordinate { x, y }
}

fn stones(s: &GameSession) -> usize {
    let n = s.size();
    let mut k = 0;
    for x in 0..n {
        for y in 0..n {
            if s.cell(coord(x, y)).is_some() {
                k += 1;
            }
        }
    }
    k
}

#[test]
fn new_game_is_empty_with_first_player_to_move() {
    let s = GameSession::new(5);
    assert_eq!(s.size(), 5);
    assert_eq!(s.status(), GameStatus::Ongoing(Player::First));
    assert_eq!(s.current_player(), Some(Player::First));
    assert_eq!(stones(&s), 0);
}

#[test]
fn moves_alternate_between_players() {
    let mut s = GameSession::new(5);
    let moves = [coord(0, 0), coord(4, 4), coord(2, 1), coord(1, 3), coord(3, 2)];
    for (n, m) in moves.iter().enumerate() {
        let mover = if n % 2 == 0 { Player::First } else { Player::Second };
        assert_eq!(s.current_player(), Some(mover));
        assert_eq!(s.apply_move(*m), Ok(()));
        assert_eq!(s.cell(*m), Some(mover));
        assert_eq!(stones(&s), n + 1);
    }
    assert_eq!(s.current_player(), Some(Player::Second));
}

#[test]
fn rejected_moves_do_not_pass_the_turn() {
    let mut s = GameSession::new(5);
    assert_eq!(s.apply_move(coord(2, 2)), Ok(()));
    assert_eq!(s.apply_move(coord(2, 2)), Err(MoveError::CellOccupied));
    assert_eq!(s.apply_move(coord(5, 0)), Err(MoveError::OutOfBounds));
    assert_eq!(s.apply_move(coord(0, 5)), Err(MoveError::OutOfBounds));
    assert_eq!(s.current_player(), Some(Player::Second));
    assert_eq!(s.cell(coord(2, 2)), Some(Player::First));
    assert_eq!(stones(&s), 1);
}

#[test]
fn empty_board_has_no_legal_move() {
    let mut s = GameSession::new(0);
    assert_eq!(s.apply_move(coord(0, 0)), Err(MoveError::OutOfBounds));
    assert_eq!(s.status(), GameStatus::Ongoing(Player::First));
}

#[test]
fn single_cell_board_is_won_by_its_first_stone() {
    let mut s = GameSession::new(1);
    assert_eq!(s.apply_move(coord(0, 0)), Ok(()));
    assert_eq!(s.status(), GameStatus::Finished(Player::First));
    assert_eq!(s.current_player(), None);
}

#[test]
fn first_player_wins_by_connecting_top_and_bottom() {
    let mut s = GameSession::new(2);
    assert_eq!(s.apply_move(coord(0, 0)), Ok(()));
    assert_eq!(s.apply_move(coord(0, 1)), Ok(()));
    assert_eq!(s.status(), GameStatus::Ongoing(Player::First));
    assert_eq!(s.apply_move(coord(1, 0)), Ok(()));
    assert_eq!(s.status(), GameStatus::Finished(Player::First));
}

#[test]
fn second_player_wins_by_connecting_left_and_right() {
    let mut s = GameSession::new(3);
    for m in [coord(0, 0), coord(1, 0), coord(0, 1), coord(1, 1), coord(2, 2), coord(1, 2)] {
        assert_eq!(s.apply_move(m), Ok(()));
    }
    assert_eq!(s.status(), GameStatus::Finished(Player::Second));
}

#[test]
fn finished_game_refuses_moves_and_keeps_the_board() {
    let mut s = GameSession::new(2);
    for m in [coord(0, 0), coord(0, 1), coord(1, 0)] {
        assert_eq!(s.apply_move(m), Ok(()));
    }
    assert_eq!(s.apply_move(coord(1, 1)), Err(MoveError::GameOver));
    assert_eq!(s.apply_move(coord(1, 1)), Err(MoveError::GameOver));
    assert_eq!(s.cell(coord(1, 1)), None);
    assert_eq!(stones(&s), 3);
    assert_eq!(s.status(), GameStatus::Finished(Player::First));
}

#[test]
fn reset_discards_the_board() {
    let mut s = GameSession::new(3);
    for m in [coord(0, 0), coord(1, 1), coord(2, 2)] {
        assert_eq!(s.apply_move(m), Ok(()));
    }
    s.reset(7);
    assert_eq!(s.size(), 7);
    assert_eq!(stones(&s), 0);
    assert_eq!(s.status(), GameStatus::Ongoing(Player::First));
    assert_eq!(s.apply_move(coord(6, 6)), Ok(()));
}

#[test]
fn reset_after_a_won_game() {
    let mut s = GameSession::new(1);
    assert_eq!(s.apply_move(coord(0, 0)), Ok(()));
    s.reset(4);
    assert_eq!(s.status(), GameStatus::Ongoing(Player::First));
    assert_eq!(stones(&s), 0);
}

#[test]
fn opponent_swaps_players() {
    assert_eq!(Player::First.opponent(), Player::Second);
    assert_eq!(Player::Second.opponent(), Player::First);
}

#[test]
fn stones_are_listed_in_row_major_order() {
    let mut s = GameSession::new(4);
    for m in [coord(3, 1), coord(0, 2), coord(1, 0), coord(2, 3), coord(0, 3)] {
        assert_eq!(s.apply_move(m), Ok(()));
    }
    assert_eq!(
        s.stones_in_order(Player::First),
        vec![coord(0, 3), coord(1, 0), coord(3, 1)]
    );
    assert_eq!(s.stones_in_order(Player::Second), vec![coord(0, 2), coord(2, 3)]);
    assert_eq!(GameSession::new(3).stones_in_order(Player::First), vec![]);
}

#[test]
fn player_to_move_follows_stone_parity() {
    let mut s = GameSession::new(6);
    let moves = [coord(0, 0), coord(5, 5), coord(1, 2), coord(4, 0), coord(3, 3), coord(2, 5), coord(0, 4)];
    for m in moves {
        let placed = stones(&s);
        let expected = if placed % 2 == 0 { Player::First } else { Player::Second };
        assert_eq!(s.current_player(), Some(expected));
        assert_eq!(s.apply_move(m), Ok(()));
        assert_eq!(s.cell(m), Some(expected));
    }
}
