use magpie::othello::{Board, Stone};

// Node counts from the standard opening, a canonical correctness oracle for
// the whole move-generation and play machinery.
#[test]
fn perft_opening_node_counts() {
    let expected: [u64; 7] = [4, 12, 56, 244, 1396, 8200, 55092];
    for (depth, target) in expected.iter().enumerate() {
        let actual = perft(&Board::standard(), Stone::Black, false, depth as u8 + 1);
        assert_eq!(*target, actual);
    }
}

fn perft(board: &Board, stone: Stone, passed: bool, depth: u8) -> u64 {
    if depth == 0 {
        return 1;
    }

    let moves = board.moves_for(stone);
    if moves.is_empty() {
        if passed {
            1
        } else {
            perft(board, stone.flip(), true, depth - 1)
        }
    } else if depth == 1 {
        moves.count_set().into()
    } else {
        moves
            .hot_bits()
            .into_iter()
            .map(|pos| {
                let mut new_board = board.clone();
                new_board.play(stone, pos);
                perft(&new_board, stone.flip(), false, depth - 1)
            })
            .sum()
    }
}
