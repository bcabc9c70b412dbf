use hexgame_ui::geometry::Coordinate;
use hexgame_ui::interaction::{apply_computer_move, handle_click, AiError, ClickOutcome};
use hexgame_ui::session::{GameSession, GameStatus, Player};

fn coord(x: u8, y: u8) -> Coordinate {
    Coordinate { x, y }
}

#[test]
fn single_cell_game_ends_without_a_computer_turn() {
    let mut s = GameSession::new(1);
    assert_eq!(handle_click(&mut s, Some(coord(0, 0))), ClickOutcome::GameWon);
    assert_eq!(s.cell(coord(0, 0)), Some(Player::First));
    assert_eq!(s.status(), GameStatus::Finished(Player::First));
}

#[test]
fn click_on_a_free_cell_hands_the_turn_to_the_computer() {
    let mut s = GameSession::new(5);
    assert_eq!(handle_click(&mut s, Some(coord(2, 2))), ClickOutcome::ComputerToMove);
    assert_eq!(s.cell(coord(2, 2)), Some(Player::First));
    assert_eq!(s.current_player(), Some(Player::Second));
}

#[test]
fn clicks_that_make_no_move_are_ignored() {
    let mut s = GameSession::new(5);
    assert_eq!(handle_click(&mut s, None), ClickOutcome::Ignored);
    assert_eq!(handle_click(&mut s, Some(coord(9, 0))), ClickOutcome::Ignored);
    assert_eq!(handle_click(&mut s, Some(coord(2, 2))), ClickOutcome::ComputerToMove);
    assert_eq!(apply_computer_move(&mut s, Some(coord(0, 0))), Ok(()));
    assert_eq!(handle_click(&mut s, Some(coord(2, 2))), ClickOutcome::Ignored);
    assert_eq!(s.current_player(), Some(Player::First));
}

#[test]
fn clicks_after_the_end_are_ignored() {
    let mut s = GameSession::new(1);
    assert_eq!(handle_click(&mut s, Some(coord(0, 0))), ClickOutcome::GameWon);
    assert_eq!(handle_click(&mut s, Some(coord(0, 0))), ClickOutcome::Ignored);
    assert_eq!(s.status(), GameStatus::Finished(Player::First));
}

#[test]
fn computer_move_on_a_free_cell_is_played() {
    let mut s = GameSession::new(5);
    assert_eq!(handle_click(&mut s, Some(coord(2, 2))), ClickOutcome::ComputerToMove);
    assert_eq!(apply_computer_move(&mut s, Some(coord(1, 3))), Ok(()));
    assert_eq!(s.cell(coord(1, 3)), Some(Player::Second));
    assert_eq!(s.current_player(), Some(Player::First));
}

#[test]
fn computer_move_on_an_occupied_cell_is_refused() {
    let mut s = GameSession::new(5);
    assert_eq!(handle_click(&mut s, Some(coord(2, 2))), ClickOutcome::ComputerToMove);
    assert_eq!(apply_computer_move(&mut s, Some(coord(2, 2))), Err(AiError::InvalidAction));
    assert_eq!(apply_computer_move(&mut s, Some(coord(5, 5))), Err(AiError::InvalidAction));
    assert_eq!(s.cell(coord(2, 2)), Some(Player::First));
    assert_eq!(s.current_player(), Some(Player::Second));
}

#[test]
fn missing_recommendation_is_reported() {
    let mut s = GameSession::new(5);
    assert_eq!(handle_click(&mut s, Some(coord(2, 2))), ClickOutcome::ComputerToMove);
    assert_eq!(apply_computer_move(&mut s, None), Err(AiError::NoRecommendation));
    assert_eq!(s.current_player(), Some(Player::Second));
}
