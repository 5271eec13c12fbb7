use magpie::othello::{Bitboard, Board, BoardError, Position, Stone};

#[test]
fn legal_move_check_one_valid() {
    let board = board_one_legal_move();
    let pos: u64 = 0x00_00_00_00_08_00_00_00;
    assert!(board.is_legal_move(Stone::Black, pos.try_into().unwrap()));
}

#[test]
fn legal_move_check_none_valid() {
    let board = board_no_legal_moves();
    let pos: u64 = 0x00_00_00_00_08_00_00_00;
    assert!(!board.is_legal_move(Stone::Black, pos.try_into().unwrap()));
}

// Returns a board with only one legal move for black, that is, the following
// move represented as a bitboard: 0x00_00_00_00_08_00_00_00.
fn board_one_legal_move() -> Board {
    let black_pos: u64 = 0x88_01_00_00_81_00_00_49;
    let white_pos: u64 = 0x00_48_2a_1c_76_1c_2a_00;

    Board::try_from((black_pos, white_pos)).unwrap()
}

fn board_no_legal_moves() -> Board {
    let board = board_one_legal_move();

    let black_pos: u64 = 0;
    let white_pos: u64 = (board.bits_for(Stone::White) | board.bits_for(Stone::Black)).into();

    Board::try_from((black_pos, white_pos)).unwrap()
}

#[test]
fn black_single_move_generation() {
    // In the known position, black's one legal move is the square at this
    // mask, and the generator finds it and nothing else.
    let board = board_one_legal_move();
    let moves = board.moves_for(Stone::Black);
    assert_eq!(moves.raw(), 0x00_00_00_00_08_00_00_00);
}

#[test]
fn board_rejects_overlapping_stones() {
    assert_eq!(
        Board::try_from((123456789u64, 1u64)),
        Err(BoardError::OverlappingPieces)
    );
    assert!(Board::try_from((123456789u64, 2u64)).is_ok());
}

#[test]
fn bits_should_be_consistent() {
    // Black and white stones do not overlap with each other or the empty set
    for board in [Board::standard(), board_one_legal_move(), Board::empty()] {
        let black = board.bits_for(Stone::Black);
        let white = board.bits_for(Stone::White);
        let empty = board.empty_squares();

        assert_eq!((black & white).raw(), 0);
        assert_eq!(((black | white) & empty).raw(), 0);
    }
}

#[test]
fn stone_at_consistency() {
    // stone_at reports exactly the side whose mask holds the square
    let board = board_one_legal_move();

    let black = board.bits_for(Stone::Black);
    let white = board.bits_for(Stone::White);
    let empty = board.empty_squares();

    let success = Bitboard::filled()
        .bits()
        .into_iter()
        .filter_map(|pos| Position::try_from(pos).ok())
        .all(|pos| {
            board
                .stone_at(pos)
                .map(|stone| match stone {
                    Stone::Black => (black & pos).raw() != 0,
                    Stone::White => (white & pos).raw() != 0,
                })
                .unwrap_or_else(|| (empty & pos).raw() != 0)
        });

    assert!(success);
}

#[test]
fn queries_do_not_mutate() {
    // Querying a board twice gives the same answers and leaves it unchanged
    let board = board_one_legal_move();
    let copy = board.clone();
    let pos = Position::try_from(0x00_00_00_00_08_00_00_00u64).unwrap();

    assert_eq!(
        board.moves_for(Stone::Black).raw(),
        board.moves_for(Stone::Black).raw()
    );
    assert_eq!(
        board.is_legal_move(Stone::Black, pos),
        board.is_legal_move(Stone::Black, pos)
    );
    assert_eq!(board.stone_at(pos), board.stone_at(pos));
    assert_eq!(board.empty_squares().raw(), board.empty_squares().raw());
    assert_eq!(board, copy);
}

#[test]
fn play_flips_captured_stones() {
    // Black opens at d3: the white stone on d4 flips and nothing else moves.
    let mut board = Board::standard();
    let d3 = Position::try_from("d3").unwrap();
    board.play(Stone::Black, d3);
    assert_eq!(board.bits_for(Stone::Black).raw(), 0x00_00_10_18_10_00_00_00);
    assert_eq!(board.bits_for(Stone::White).raw(), 0x00_00_00_00_08_00_00_00);
    assert!(board.is_valid());
}

#[test]
fn place_and_remove_unchecked() {
    let mut board = Board::empty();
    board.place_stone_unchecked(Stone::Black, Bitboard::from(0xff00u64));
    assert_eq!(board.bits_for(Stone::Black).raw(), 0xff00);
    assert_eq!(board.bits_for(Stone::White).raw(), 0);
    board.remove_stone_unchecked(Stone::Black, Bitboard::from(0x0f00u64));
    assert_eq!(board.bits_for(Stone::Black).raw(), 0xf000);
}

#[test]
fn standard_opening_counts() {
    // The standard opening: two stones each and sixty empty squares, with
    // exactly four legal destinations for black.
    let board = Board::standard();
    assert_eq!(board.bits_for(Stone::Black).count_set(), 2);
    assert_eq!(board.bits_for(Stone::White).count_set(), 2);
    assert_eq!(board.empty_squares().count_set(), 60);
    assert_eq!(board.moves_for(Stone::Black).count_set(), 4);
    assert_eq!(board.moves_for(Stone::White).count_set(), 4);
}
