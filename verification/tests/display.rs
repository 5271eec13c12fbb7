use magpie::othello::{Board, Format, Stone};

#[test]
fn display_opening_with_stone_format_standard() {
    let board = Board::standard();
    let result = board
        .display()
        .with_format(Format::Standard)
        .with_stone(Stone::Black)
        .to_text();
    let expected = vec![
        "    A   B   C   D   E   F   G   H\n",
        "  +---+---+---+---+---+---+---+---+\n",
        "1 |   |   |   |   |   |   |   |   |\n",
        "  +---+---+---+---+---+---+---+---+\n",
        "2 |   |   |   |   |   |   |   |   |\n",
        "  +---+---+---+---+---+---+---+---+\n",
        "3 |   |   |   | * |   |   |   |   |\n",
        "  +---+---+---+---+---+---+---+---+\n",
        "4 |   |   | * | W | B |   |   |   |\n",
        "  +---+---+---+---+---+---+---+---+\n",
        "5 |   |   |   | B | W | * |   |   |\n",
        "  +---+---+---+---+---+---+---+---+\n",
        "6 |   |   |   |   | * |   |   |   |\n",
        "  +---+---+---+---+---+---+---+---+\n",
        "7 |   |   |   |   |   |   |   |   |\n",
        "  +---+---+---+---+---+---+---+---+\n",
        "8 |   |   |   |   |   |   |   |   |\n",
        "  +---+---+---+---+---+---+---+---+\n",
    ]
    .join("");
    assert_eq!(expected, result);
}

#[test]
fn display_opening_with_stone_format_compact() {
    let board = Board::standard();
    let result = board
        .display()
        .with_format(Format::Compact)
        .with_stone(Stone::Black)
        .to_text();
    let expected = vec![
        "   ABCDEFGH\n",
        "  +--------+\n",
        "1 |........|\n",
        "2 |........|\n",
        "3 |...*....|\n",
        "4 |..*WB...|\n",
        "5 |...BW*..|\n",
        "6 |....*...|\n",
        "7 |........|\n",
        "8 |........|\n",
        "  +--------+\n",
    ]
    .join("");
    assert_eq!(expected, result);
}

#[test]
fn display_opening_format_standard() {
    let board = Board::standard();
    let result = board.display().with_format(Format::Standard).to_text();
    let expected = vec![
        "    A   B   C   D   E   F   G   H\n",
        "  +---+---+---+---+---+---+---+---+\n",
        "1 |   |   |   |   |   |   |   |   |\n",
        "  +---+---+---+---+---+---+---+---+\n",
        "2 |   |   |   |   |   |   |   |   |\n",
        "  +---+---+---+---+---+---+---+---+\n",
        "3 |   |   |   |   |   |   |   |   |\n",
        "  +---+---+---+---+---+---+---+---+\n",
        "4 |   |   |   | W | B |   |   |   |\n",
        "  +---+---+---+---+---+---+---+---+\n",
        "5 |   |   |   | B | W |   |   |   |\n",
        "  +---+---+---+---+---+---+---+---+\n",
        "6 |   |   |   |   |   |   |   |   |\n",
        "  +---+---+---+---+---+---+---+---+\n",
        "7 |   |   |   |   |   |   |   |   |\n",
        "  +---+---+---+---+---+---+---+---+\n",
        "8 |   |   |   |   |   |   |   |   |\n",
        "  +---+---+---+---+---+---+---+---+\n",
    ]
    .join("");
    assert_eq!(expected, result);
}

#[test]
fn display_opening_format_compact() {
    let board = Board::standard();
    let result = board.display().with_format(Format::Compact).to_text();
    let expected = vec![
        "   ABCDEFGH\n",
        "  +--------+\n",
        "1 |........|\n",
        "2 |........|\n",
        "3 |........|\n",
        "4 |...WB...|\n",
        "5 |...BW...|\n",
        "6 |........|\n",
        "7 |........|\n",
        "8 |........|\n",
        "  +--------+\n",
    ]
    .join("");
    assert_eq!(expected, result);
}

#[test]
fn display_defaults_to_standard_without_moves() {
    let board = Board::standard();
    let game_text = magpie::othello::Game::new().display().to_text();
    let board_text = board.display().to_text();
    assert_eq!(game_text, board_text);
    assert!(board_text.contains(" W "));
    assert!(!board_text.contains('*'));
}
