use magpie::othello::{Board, Game, OthelloError, Position, Status, Stone};

#[test]
fn game_standard_opening() {
    let game = Game::new();
    assert_eq!(game.current_turn(), Stone::Black);
    assert_eq!(game.status(), Status::Progressing);
    assert_eq!(game.moves().count_set(), 4);
    assert_eq!(game.bits_for(Stone::Black).count_set(), 2);
    assert_eq!(game.bits_for(Stone::White).count_set(), 2);
    assert_eq!(game.empty_squares().count_set(), 60);
    assert!(!game.passed_last_turn());
    assert_eq!(game.board(), Board::standard());
}

#[test]
fn game_play_advances_turn() {
    let mut game = Game::new();
    let pos = game.moves().hot_bits().into_iter().next().unwrap();
    assert!(game.is_legal_move(pos));
    assert!(game.play(pos).is_ok());
    assert_eq!(game.current_turn(), Stone::White);
    assert!(!game.passed_last_turn());
    assert_eq!(game.status(), Status::Progressing);
}

#[test]
fn game_rejects_illegal_move() {
    let mut game = Game::new();
    let occupied = Position::try_from("d4").unwrap();
    let before = game.clone();
    assert_eq!(game.play(occupied), Err(OthelloError::IllegalMove));
    assert_eq!(game, before);
}

#[test]
fn game_rejects_overlapping_board() {
    let board = Board::empty();
    assert!(Game::from_state(board, Stone::Black, false).is_ok());

    let mut overlapping = Board::empty();
    overlapping.place_stone_unchecked(Stone::Black, magpie::othello::Bitboard::from(1u64));
    overlapping.place_stone_unchecked(Stone::White, magpie::othello::Bitboard::from(1u64));
    assert_eq!(
        Game::from_state(overlapping, Stone::Black, false),
        Err(OthelloError::PiecesOverlapping)
    );
}

#[test]
fn game_two_passes_draw() {
    // An empty board offers no move to either side; two passes in a row end
    // the game, and equal counts make it a draw.
    let board = Board::empty();
    let mut game = Game::from_state(board, Stone::Black, false).unwrap();
    assert_eq!(game.status(), Status::Progressing);
    game.pass_turn();
    assert_eq!(game.current_turn(), Stone::White);
    game.pass_turn();
    assert_eq!(game.status(), Status::Draw);
}

#[test]
fn game_two_passes_win() {
    // A lone black stone gives neither side a move; after two passes black
    // wins on stone count.
    let board = Board::try_from((1u64, 0u64)).unwrap();
    let mut game = Game::from_state(board, Stone::Black, false).unwrap();
    game.pass_turn();
    game.pass_turn();
    assert_eq!(game.status(), Status::Win(Stone::Black));

    let board = Board::try_from((0u64, 3u64)).unwrap();
    let mut game = Game::from_state(board, Stone::White, false).unwrap();
    game.pass_turn();
    game.pass_turn();
    assert_eq!(game.status(), Status::Win(Stone::White));
}

#[test]
fn game_listed_moves_play_and_others_fail() {
    // Every move the generator lists is accepted, every other square is
    // rejected.
    let game = Game::new();
    let legal = game.moves();

    for pos in legal.hot_bits() {
        assert!(game.is_legal_move(pos));
        let mut fresh = game.clone();
        assert!(fresh.play(pos).is_ok());
    }

    for bit in magpie::othello::Bitboard::filled().bits() {
        if let Ok(pos) = Position::try_from(bit) {
            if (legal & pos).raw() == 0 {
                assert!(!game.is_legal_move(pos));
                let mut fresh = game.clone();
                assert_eq!(fresh.play(pos), Err(OthelloError::IllegalMove));
            }
        }
    }
}
