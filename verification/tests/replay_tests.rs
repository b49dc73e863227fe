use zikzakzoo_core::Board;
use zikzakzoo_core::Cell;
use zikzakzoo_core::Game;
use zikzakzoo_core::GameStatus;
use zikzakzoo_core::SimpleRNG;
use zikzakzoo_core::format_seed_and_moves;
use zikzakzoo_core::get_computer_move;
use zikzakzoo_core::verify_player_win;

#[test]
fn winning_transcript_verifies() {
    assert!(verify_player_win("42,0,1,2"));
}

#[test]
fn short_transcript_fails() {
    assert!(!verify_player_win("42,0"));
}

#[test]
fn malformed_seed_fails_quietly() {
    assert!(!verify_player_win("notaseed,0,1,2"));
}

#[test]
fn out_of_range_move_fails() {
    assert!(!verify_player_win("1,9"));
}

#[test]
fn occupied_cell_move_fails() {
    assert!(!verify_player_win("42,0,0"));
    assert!(!verify_player_win("42,0,4"));
}

#[test]
fn moves_after_the_win_are_ignored() {
    assert!(verify_player_win("42,0,1,2,3"));
}

#[test]
fn bad_token_after_the_win_still_fails() {
    // every token is validated before the replay starts
    assert!(!verify_player_win("42,0,1,2,banana"));
    assert!(!verify_player_win("42,0,1,2,9"));
}

#[test]
fn empty_and_seed_only_transcripts_fail() {
    assert!(!verify_player_win(""));
    assert!(!verify_player_win("42"));
}

#[test]
fn produced_win_round_trips_to_true() {
    let mut game = Game::new(42);
    assert!(game.play_human_turn(0));
    assert_eq!(game.status, GameStatus::InProgress);
    assert!(game.play_human_turn(1));
    assert_eq!(game.status, GameStatus::InProgress);
    assert!(game.play_human_turn(2));
    assert_eq!(game.status, GameStatus::HumanWon);
    let round = game.into_round();
    assert_eq!(round.seed, 42);
    assert_eq!(round.player_moves, vec![0, 1, 2]);
    let wire = format_seed_and_moves(round.seed, &round.player_moves);
    assert_eq!(wire, "42,0,1,2");
    assert!(verify_player_win(&wire));
}

#[test]
fn produced_loss_round_trips_to_false() {
    let mut game = Game::new(0);
    for m in [0usize, 1, 3] {
        assert!(game.play_human_turn(m));
        assert_eq!(game.status, GameStatus::InProgress);
    }
    assert!(game.play_human_turn(4));
    assert_eq!(game.status, GameStatus::ComputerWon);
    let round = game.into_round();
    let wire = format_seed_and_moves(round.seed, &round.player_moves);
    assert!(!verify_player_win(&wire));
}

#[test]
fn produced_draw_round_trips_to_false() {
    let mut game = Game::new(0);
    for m in [0usize, 1, 4, 5] {
        assert!(game.play_human_turn(m));
        assert_eq!(game.status, GameStatus::InProgress);
    }
    assert!(game.play_human_turn(6));
    assert_eq!(game.status, GameStatus::Draw);
    let round = game.into_round();
    let wire = format_seed_and_moves(round.seed, &round.player_moves);
    assert!(!verify_player_win(&wire));
}

#[test]
fn illegal_moves_are_rejected_and_not_recorded() {
    let mut game = Game::new(42);
    assert!(!game.play_human_turn(9));
    assert!(game.play_human_turn(0));
    assert!(!game.play_human_turn(0));
    assert!(!game.play_human_turn(4));
    let round = game.into_round();
    assert_eq!(round.player_moves, vec![0]);
}

#[test]
fn computer_move_is_seed_determined() {
    let mut board = Board::new();
    board.make_move(0, Cell::Z);
    let mut rng = SimpleRNG::new(42);
    assert_eq!(get_computer_move(&board, &mut rng), 4);

    let mut board2 = Board::new();
    board2.make_move(0, Cell::Z);
    let mut rng2 = SimpleRNG::new(42);
    assert_eq!(get_computer_move(&board2, &mut rng2), 4);
}
