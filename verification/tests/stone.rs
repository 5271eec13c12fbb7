use magpie::othello::Stone;

#[test]
fn stone_flip_equality() -> Result<(), TestError> {
    let stone = Stone::Black;
    if stone.flip().flip() != stone {
        return Err(TestError::StoneNotEqual);
    }
    Ok(())
}

#[derive(Debug)]
enum TestError {
    StoneNotEqual,
}

#[test]
fn stone_flip_changes_side() {
    assert_eq!(Stone::Black.flip(), Stone::White);
    assert_eq!(Stone::White.flip(), Stone::Black);
}
