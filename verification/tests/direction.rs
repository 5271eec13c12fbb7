use magpie::direction::Direction;

use Direction::{E, N, NE, NW, S, SE, SW, W};

#[test]
fn direction_iter_size() {
    let correct_order = vec![N, NE, E, SE, S, SW, W, NW];
    let count = Direction::cardinals().into_iter().take(100).count();

    assert_eq!(correct_order.len(), count);
}

#[test]
fn direction_iter_order() {
    let correct_order = vec![N, NE, E, SE, S, SW, W, NW];
    let equal_count = Direction::cardinals()
        .into_iter()
        .zip(correct_order.iter())
        .filter(|(a, b)| a == *b)
        .count();

    assert_eq!(correct_order.len(), equal_count);
}

#[test]
fn direction_shift_moves_one_square() {
    // A stone in the middle of the board moves one square each way.
    let e4: u64 = 1 << 35;
    assert_eq!(Direction::N.shift(e4), 1 << 43);
    assert_eq!(Direction::S.shift(e4), 1 << 27);
    assert_eq!(Direction::E.shift(e4), 1 << 34);
    assert_eq!(Direction::W.shift(e4), 1 << 36);
    assert_eq!(Direction::NE.shift(e4), 1 << 42);
    assert_eq!(Direction::SW.shift(e4), 1 << 28);
}

#[test]
fn direction_shift_drops_stones_at_edges() {
    // Stones shifted off the board, or around its side edges, disappear.
    let a1: u64 = 1 << 63;
    let h8: u64 = 1;
    assert_eq!(Direction::N.shift(a1), 0);
    assert_eq!(Direction::W.shift(a1), 0);
    assert_eq!(Direction::NW.shift(a1), 0);
    assert_eq!(Direction::S.shift(h8), 0);
    assert_eq!(Direction::E.shift(h8), 0);
    assert_eq!(Direction::SE.shift(h8), 0);
}
