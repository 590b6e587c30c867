//! Tests for the board and the game state machine.

use codenames::board::{Board, Tile};
use codenames::game::{Game, State};
use codenames::gameteam;
use codenames::error::{GameError, TurnAction};
use codenames::request;
use codenames::team::Team;

/// A board whose cells 0..9 are blue, 9..17 red, 17..24 neutral and
/// 24 the death tile, with predictable words.
fn test_board() -> Board {
    let mut words = Vec::new();
    let mut tiles = Vec::new();
    let mut cards = Vec::new();
    for i in 0..25usize {
        words.push(format!("w{:02}", i).into_bytes());
        tiles.push(if i < 9 {
            Tile::Blue
        } else if i < 17 {
            Tile::Red
        } else if i < 24 {
            Tile::Neutral
        } else {
            Tile::Death
        });
        cards.push(false);
    }
    Board { words, tiles, cards }
}

fn full_game() -> Game {
    let mut game = Game::new(test_board(), 1);
    game.add_player(1, Team::Blue, b"Alice".to_vec());
    game.add_player(2, Team::Blue, b"Bob".to_vec());
    game.add_player(3, Team::Red, b"Carol".to_vec());
    game.add_player(4, Team::Red, b"Dave".to_vec());
    game
}

fn started_game() -> Game {
    let mut game = full_game();
    let start = request::Start { blue: b"Alice".to_vec(), red: b"Carol".to_vec() };
    game.start(1, &start).expect("start");
    game
}

#[test]
fn start_team_prefers_the_larger_color() {
    let board = test_board();
    assert_eq!(board.start_team(), Team::Blue);
    let mut red_board = test_board();
    red_board.tiles[0] = Tile::Red;
    assert_eq!(red_board.start_team(), Team::Red);
}

#[test]
fn winner_needs_every_cell_of_a_color() {
    let mut board = test_board();
    assert_eq!(board.winner(), None);
    for i in 0..8usize {
        board.put_card(i / 5, i % 5);
    }
    assert_eq!(board.winner(), None);
    board.put_card(8 / 5, 8 % 5);
    assert_eq!(board.winner(), Some(Team::Blue));
}

#[test]
fn reveal_is_idempotent_for_the_winner() {
    let mut board = test_board();
    for i in 0..9usize {
        board.put_card(i / 5, i % 5);
    }
    assert_eq!(board.winner(), Some(Team::Blue));
    board.put_card(0, 0);
    assert_eq!(board.winner(), Some(Team::Blue));
}

#[test]
fn put_card_reports_the_tile() {
    let mut board = test_board();
    assert_eq!(board.put_card(0, 0), Tile::Blue);
    assert_eq!(board.put_card(4, 4), Tile::Death);
    assert!(board.cards[0] && board.cards[24]);
}

#[test]
fn start_checks_admin_quorum_and_masters() {
    let start = request::Start { blue: b"Alice".to_vec(), red: b"Carol".to_vec() };
    let mut game = full_game();
    assert_eq!(game.start(2, &start), Err(GameError::NotAdmin));

    let mut small = Game::new(test_board(), 1);
    small.add_player(1, Team::Blue, b"Alice".to_vec());
    small.add_player(2, Team::Blue, b"Bob".to_vec());
    small.add_player(3, Team::Red, b"Carol".to_vec());
    assert_eq!(small.start(1, &start), Err(GameError::MissingPlayers(Team::Red)));

    // A failed master lookup binds nothing: both masters stay unset.
    let bad = request::Start { blue: b"Nobody".to_vec(), red: b"Carol".to_vec() };
    assert_eq!(game.start(1, &bad), Err(GameError::MasterNotFound));
    assert_eq!(game.red.master, None);
    assert_eq!(game.blue.master, None);
    assert_eq!(game.state, State::Start);

    assert_eq!(game.start(1, &start), Ok(()));
    assert_eq!(game.state, State::Play(Team::Blue));
    assert_eq!(game.red.master, Some(3));
    assert_eq!(game.blue.master, Some(1));
    assert_eq!(game.start(1, &start), Err(GameError::AlreadyStarted));
}

#[test]
fn hint_only_from_the_master_in_phase() {
    let mut game = started_game();
    let hint = request::Hint { hint: b"ocean".to_vec(), guesses: 2 };
    assert_eq!(game.hint(2, &hint), Err(GameError::NotMaster));
    assert_eq!(game.hint(1, &hint), Ok(()));
    assert_eq!(game.blue.hint, b"ocean".to_vec());
    assert_eq!(game.blue.guesses, 2);
    assert_eq!(game.blue.state, gameteam::State::Guess);
    assert_eq!(game.hint(1, &hint), Err(GameError::WrongPhase));
}

#[test]
fn hint_out_of_play_is_a_turn_error() {
    let mut game = full_game();
    let hint = request::Hint { hint: b"ocean".to_vec(), guesses: 2 };
    assert_eq!(game.hint(1, &hint), Err(GameError::Turn(TurnAction::Hint)));
}

#[test]
fn masters_never_guess() {
    let mut game = started_game();
    let hint = request::Hint { hint: b"ocean".to_vec(), guesses: 2 };
    game.hint(1, &hint).expect("hint");
    assert!(!game.blue.can_guess(1));
    assert!(game.blue.can_guess(2));
    let guess = request::Guess { x: 0, y: 0 };
    assert_eq!(game.guess(1, &guess), Err(GameError::Turn(TurnAction::Guess)));
}

#[test]
fn guess_budget_keeps_and_flips_the_turn() {
    let mut game = started_game();
    let hint = request::Hint { hint: b"ocean".to_vec(), guesses: 2 };
    game.hint(1, &hint).expect("hint");
    // First correct guess: budget 2 -> 1, blue keeps the turn.
    assert_eq!(game.guess(2, &request::Guess { x: 0, y: 0 }), Ok(()));
    assert_eq!(game.state, State::Play(Team::Blue));
    assert_eq!(game.blue.guesses, 1);
    // Second correct guess: budget 0, no bonus, the turn flips.
    assert_eq!(game.guess(2, &request::Guess { x: 0, y: 1 }), Ok(()));
    assert_eq!(game.state, State::Play(Team::Red));
    assert_eq!(game.blue.guesses, 0);
    assert_eq!(game.blue.state, gameteam::State::Hint);
}

#[test]
fn wrong_color_flips_the_turn() {
    let mut game = started_game();
    let hint = request::Hint { hint: b"ocean".to_vec(), guesses: 3 };
    game.hint(1, &hint).expect("hint");
    // Cell 17 is neutral: x=3, y=2.
    assert_eq!(game.guess(2, &request::Guess { x: 3, y: 2 }), Ok(()));
    assert_eq!(game.state, State::Play(Team::Red));
}

#[test]
fn bonus_guess_carries_the_previous_hint() {
    let mut game = started_game();
    // Blue hints for one guess and spends it correctly: with no bonus
    // standing the turn flips.
    game.hint(1, &request::Hint { hint: b"one".to_vec(), guesses: 1 }).expect("hint");
    assert_eq!(game.guess(2, &request::Guess { x: 0, y: 0 }), Ok(()));
    assert_eq!(game.state, State::Play(Team::Red));
    // Red passes the turn straight back.
    game.hint(3, &request::Hint { hint: b"zip".to_vec(), guesses: 1 }).expect("red hint");
    assert_eq!(game.pass(4), Ok(()));
    assert_eq!(game.state, State::Play(Team::Blue));
    // Blue's new hint while a guess was still owed stacks the old one:
    // the team may overshoot its fresh budget by that bonus guess.
    game.hint(1, &request::Hint { hint: b"two".to_vec(), guesses: 1 }).expect("hint");
    assert_eq!(game.blue.previous, None);
    assert_eq!(game.guess(2, &request::Guess { x: 0, y: 1 }), Ok(()));
    assert_eq!(game.state, State::Play(Team::Red));
}

#[test]
fn stacked_hint_grants_a_bonus_guess() {
    let mut game = started_game();
    game.hint(1, &request::Hint { hint: b"first".to_vec(), guesses: 2 }).expect("hint");
    assert_eq!(game.guess(2, &request::Guess { x: 0, y: 0 }), Ok(()));
    // A guess is still owed; blue passes back to hint phase instead.
    assert_eq!(game.pass(2), Ok(()));
    assert_eq!(game.state, State::Play(Team::Red));
    game.hint(3, &request::Hint { hint: b"zip".to_vec(), guesses: 1 }).expect("red hint");
    assert_eq!(game.pass(4), Ok(()));
    // Blue still holds one guess from "first", so the new hint stacks
    // it: two correct guesses stay with blue, the third flips.
    game.hint(1, &request::Hint { hint: b"second".to_vec(), guesses: 1 }).expect("hint");
    assert_eq!(game.blue.previous, Some(b"first".to_vec()));
    assert_eq!(game.guess(2, &request::Guess { x: 0, y: 1 }), Ok(()));
    assert_eq!(game.state, State::Play(Team::Blue));
    assert_eq!(game.guess(2, &request::Guess { x: 0, y: 2 }), Ok(()));
    assert_eq!(game.state, State::Play(Team::Red));
}

#[test]
fn death_tile_ends_the_game_for_the_opponent() {
    let mut game = started_game();
    game.hint(1, &request::Hint { hint: b"oops".to_vec(), guesses: 2 }).expect("hint");
    assert_eq!(game.guess(2, &request::Guess { x: 4, y: 4 }), Ok(()));
    assert_eq!(game.state, State::End(Team::Red));
    // No further move changes anything.
    assert_eq!(
        game.guess(2, &request::Guess { x: 0, y: 0 }),
        Err(GameError::Turn(TurnAction::Guess))
    );
    assert_eq!(
        game.hint(1, &request::Hint { hint: b"h".to_vec(), guesses: 1 }),
        Err(GameError::Turn(TurnAction::Hint))
    );
    assert_eq!(game.pass(2), Err(GameError::NotStarted));
    assert_eq!(game.state, State::End(Team::Red));
}

#[test]
fn completing_a_color_wins() {
    let mut game = started_game();
    // Reveal eight of the nine blue cells up front.
    for i in 0..8usize {
        game.board.put_card(i / 5, i % 5);
    }
    game.hint(1, &request::Hint { hint: b"last".to_vec(), guesses: 1 }).expect("hint");
    assert_eq!(game.guess(2, &request::Guess { x: 1, y: 3 }), Ok(()));
    assert_eq!(game.state, State::End(Team::Blue));
}

#[test]
fn re_revealing_a_cell_still_spends_a_guess() {
    // The safe reading of a repeated reveal: the bitmap does not
    // change, the winner does not change, but the budget is spent.
    let mut game = started_game();
    game.hint(1, &request::Hint { hint: b"again".to_vec(), guesses: 3 }).expect("hint");
    assert_eq!(game.guess(2, &request::Guess { x: 0, y: 0 }), Ok(()));
    assert_eq!(game.blue.guesses, 2);
    assert_eq!(game.guess(2, &request::Guess { x: 0, y: 0 }), Ok(()));
    assert_eq!(game.blue.guesses, 1);
    assert_eq!(game.state, State::Play(Team::Blue));
    assert_eq!(game.board.winner(), None);
}

#[test]
fn pass_needs_play_and_membership() {
    let mut game = full_game();
    assert_eq!(game.pass(2), Err(GameError::NotStarted));
    let mut game = started_game();
    assert_eq!(game.pass(99), Err(GameError::PlayerNotFound));
    assert_eq!(game.pass(2), Ok(()));
    assert_eq!(game.state, State::Play(Team::Red));
}

#[test]
fn removing_a_master_or_breaking_quorum_resets_the_game() {
    // Removing the blue master sends the game back to setup.
    let mut game = started_game();
    game.add_player(5, Team::Blue, b"Eve".to_vec());
    assert_eq!(game.remove_player(1), Some(b"Alice".to_vec()));
    assert_eq!(game.state, State::Start);

    // Removing an operative below quorum does too.
    let mut game = started_game();
    assert_eq!(game.remove_player(4), Some(b"Dave".to_vec()));
    assert_eq!(game.state, State::Start);

    // Removing a spare operative leaves play untouched.
    let mut game = started_game();
    game.add_player(5, Team::Blue, b"Eve".to_vec());
    assert_eq!(game.remove_player(5), Some(b"Eve".to_vec()));
    assert_eq!(game.state, State::Play(Team::Blue));

    // A token nobody holds changes nothing.
    let mut game = started_game();
    assert_eq!(game.remove_player(77), None);
    assert_eq!(game.state, State::Play(Team::Blue));
}

#[test]
fn team_rosters_track_membership() {
    let mut game = full_game();
    assert_eq!(game.nb_players(), 4);
    assert_eq!(game.tokens(), vec![3, 4, 1, 2]);
    assert_eq!(game.team(&Team::Blue).nb_players(), 2);
    assert!(!game.team(&Team::Blue).has_master());
}
