use magpie::othello::{Bitboard, Position};

#[test]
fn bitboard_full_bitboard_bits_equal_hot_bits() {
    let v1 = Bitboard::filled().bits();
    let v2 = Bitboard::filled().hot_bits();

    let v1: Vec<u64> = v1.into_iter().map(Bitboard::raw).collect();
    let v2: Vec<u64> = v2.into_iter().map(Position::raw).collect();

    assert_eq!(v1, v2);
}

#[test]
fn bitboard_filled_constant() {
    assert_eq!(Bitboard::filled().raw(), u64::MAX);
    assert_eq!(Bitboard::filled().count_set(), 64);
    assert_eq!(Bitboard::filled().count_empty(), 0);
    assert!(!Bitboard::filled().is_empty());
}

#[test]
fn bitboard_empty_constant() {
    assert_eq!(Bitboard::empty().raw(), 0);
    assert_eq!(Bitboard::empty().count_set(), 0);
    assert_eq!(Bitboard::empty().count_empty(), 64);
    assert!(Bitboard::empty().is_empty());
}

#[test]
fn bitboard_raw_matches() {
    for num in [0u64, 1, 0x8000_0000_0000_0000, 0x00ff_4812_aa55_0301, u64::MAX] {
        assert_eq!(num, Bitboard::from(num).raw());
    }
}

#[test]
fn bitboard_handles_bitwise() {
    let num1: u64 = 0x1234_5678_9abc_def0;
    let num2: u64 = 0x0fed_cba9_8765_4321;
    let board1 = Bitboard::from(num1);
    let board2 = Bitboard::from(num2);

    assert_eq!(num1 & num2, (board1 & board2).raw());
    assert_eq!(num1 | num2, (board1 | board2).raw());
    assert_eq!(num1 ^ num2, (board1 ^ board2).raw());
    assert_eq!(!num1, (!board1).raw());
    assert_eq!(num1 & num2, (board1 & num2).raw());
    assert_eq!(num1 | num2, (board1 | num2).raw());
    assert_eq!(num1 ^ num2, (board1 ^ num2).raw());
}

#[test]
fn bitboard_bits_extracts_every_square() {
    let num: u64 = 0x8040_0000_0000_0001;
    let board = Bitboard::from(num);
    let bits = board.bits();
    assert_eq!(bits.len(), 64);
    for (index, bit) in bits.into_iter().enumerate() {
        let mask = 1u64 << (63 - index);
        assert_eq!(bit.raw(), num & mask);
    }
}

#[test]
fn bitboard_hot_bits_counts_set_squares() {
    let num: u64 = 0x8040_0000_0000_0001;
    let board = Bitboard::from(num);
    let hot = board.hot_bits();
    assert_eq!(hot.len(), 3);
    let raws: Vec<u64> = hot.into_iter().map(Position::raw).collect();
    assert_eq!(
        raws,
        vec![0x8000_0000_0000_0000, 0x0040_0000_0000_0000, 0x0000_0000_0000_0001]
    );
}
