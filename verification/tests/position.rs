use magpie::othello::{Bitboard, Position, PositionError};

#[test]
fn position_rank_matches() {
    let expected_order = vec![
        0, 0, 0, 0, 0, 0, 0, 0,
        1, 1, 1, 1, 1, 1, 1, 1,
        2, 2, 2, 2, 2, 2, 2, 2,
        3, 3, 3, 3, 3, 3, 3, 3,
        4, 4, 4, 4, 4, 4, 4, 4,
        5, 5, 5, 5, 5, 5, 5, 5,
        6, 6, 6, 6, 6, 6, 6, 6,
        7, 7, 7, 7, 7, 7, 7, 7,
    ];
    let all_equal = Bitboard::filled()
        .hot_bits()
        .into_iter()
        .map(Position::rank)
        .zip(expected_order)
        .all(|(a, b)| a == b);
    assert!(all_equal);
}

#[test]
fn position_file_matches() {
    let expected_order = vec![
        0, 1, 2, 3, 4, 5, 6, 7,
        0, 1, 2, 3, 4, 5, 6, 7,
        0, 1, 2, 3, 4, 5, 6, 7,
        0, 1, 2, 3, 4, 5, 6, 7,
        0, 1, 2, 3, 4, 5, 6, 7,
        0, 1, 2, 3, 4, 5, 6, 7,
        0, 1, 2, 3, 4, 5, 6, 7,
        0, 1, 2, 3, 4, 5, 6, 7,
    ];
    let all_equal = Bitboard::filled()
        .hot_bits()
        .into_iter()
        .map(Position::file)
        .zip(expected_order)
        .all(|(a, b)| a == b);
    assert!(all_equal);
}

#[test]
fn position_notation_matches() {
    let expected_order = vec![
        "a1", "b1", "c1", "d1", "e1", "f1", "g1", "h1",
        "a2", "b2", "c2", "d2", "e2", "f2", "g2", "h2",
        "a3", "b3", "c3", "d3", "e3", "f3", "g3", "h3",
        "a4", "b4", "c4", "d4", "e4", "f4", "g4", "h4",
        "a5", "b5", "c5", "d5", "e5", "f5", "g5", "h5",
        "a6", "b6", "c6", "d6", "e6", "f6", "g6", "h6",
        "a7", "b7", "c7", "d7", "e7", "f7", "g7", "h7",
        "a8", "b8", "c8", "d8", "e8", "f8", "g8", "h8",
    ];
    let all_equal = Bitboard::filled()
        .hot_bits()
        .into_iter()
        .map(Position::to_notation)
        .zip(expected_order)
        .all(|(a, b)| a == b);
    assert!(all_equal);
}

#[test]
fn position_notation_identity() {
    let full_notation = vec![
        "a1", "b1", "c1", "d1", "e1", "f1", "g1", "h1",
        "a2", "b2", "c2", "d2", "e2", "f2", "g2", "h2",
        "a3", "b3", "c3", "d3", "e3", "f3", "g3", "h3",
        "a4", "b4", "c4", "d4", "e4", "f4", "g4", "h4",
        "a5", "b5", "c5", "d5", "e5", "f5", "g5", "h5",
        "a6", "b6", "c6", "d6", "e6", "f6", "g6", "h6",
        "a7", "b7", "c7", "d7", "e7", "f7", "g7", "h7",
        "a8", "b8", "c8", "d8", "e8", "f8", "g8", "h8",
    ];

    for n in &full_notation {
        let identity = Position::try_from(*n).map(Position::to_notation).unwrap();
        assert_eq!(*n, identity);
    }
}

#[test]
fn position_raw_round_trip() {
    for s in 0..64u32 {
        let raw = 1u64 << s;
        let pos = Position::try_from(raw).unwrap();
        assert_eq!(pos.raw(), raw);
        assert_eq!(Position::try_from(pos.raw()).unwrap(), pos);
    }
}

#[test]
fn position_notation_case_insensitive() {
    let lower = Position::try_from("c6").unwrap();
    let upper = Position::try_from("C6").unwrap();
    assert_eq!(lower, upper);
    assert_eq!(lower.to_notation(), "c6");
}

#[test]
fn position_rejects_bad_masks() {
    assert_eq!(
        Position::try_from(0u64),
        Err(PositionError::NotOneHotBitboard)
    );
    assert_eq!(
        Position::try_from(3u64),
        Err(PositionError::NotOneHotBitboard)
    );
    assert_eq!(
        Position::try_from(Bitboard::filled()),
        Err(PositionError::NotOneHotBitboard)
    );
}

#[test]
fn position_rejects_bad_notation() {
    assert_eq!(
        Position::try_from("z9"),
        Err(PositionError::InvalidPosition)
    );
    assert_eq!(
        Position::try_from("a"),
        Err(PositionError::InvalidPosition)
    );
    assert_eq!(
        Position::try_from("a12"),
        Err(PositionError::InvalidPosition)
    );
    assert_eq!(
        Position::try_from(String::from("i1")),
        Err(PositionError::InvalidPosition)
    );
}

#[test]
fn position_from_rank_and_file() {
    let pos = Position::try_from((3u8, 4u8)).unwrap();
    assert_eq!(pos.rank(), 3);
    assert_eq!(pos.file(), 4);
    assert_eq!(pos.to_notation(), "e4");
    assert_eq!(
        Position::try_from((8u8, 0u8)),
        Err(PositionError::InvalidPosition)
    );
    assert_eq!(
        Position::try_from((0u8, 8u8)),
        Err(PositionError::InvalidPosition)
    );
}

#[test]
fn position_shifts_give_bitboards() {
    let top_left = Position::try_from(1u64 << 63).unwrap();
    let shifted_out: Bitboard = top_left << 1u8;
    assert_eq!(shifted_out.raw(), 0);
    let shifted_down: Bitboard = top_left >> 8u8;
    assert_eq!(shifted_down.raw(), 1u64 << 55);
    let combined: Bitboard = top_left & Bitboard::filled();
    assert_eq!(combined.raw(), 1u64 << 63);
}
