//! Structs and functions that format Othello boards.

use super::bits::lemma_sq_zero;
use super::bits::mask_of;
use super::bits::sq;
use super::board::Board;
use super::position::rank_char;
use super::position::rank_str;
use super::rules::is_legal;
use super::stone::Stone;
use vstd::prelude::*;
use vstd::string::StringExecFns;

verus! {

/// Helper struct to customize the printing of Othello boards.
///
/// The text can be customized by choosing a formatting option and whether
/// or not legal moves should be shown for a specific player.
#[derive(Clone, Copy, Debug)]
pub struct BoardDisplay {
    board: Board,
    display: Format,
    stone: Option<Stone>,
}

/// Represents the different formatting options available when displaying an
/// Othello board.
#[derive(Clone, Copy, Debug)]
pub enum Format {
    /// Formats the board compactly.
    Compact,
    /// Standard formatting.
    Standard,
}

/// A legal move of the chosen side is marked on the board.
pub open spec fn shows_move(board: Board, stone: Option<Stone>, s: int) -> bool {
    match stone {
        Some(st) => is_legal(board.side(st), board.side(st.flip_spec()), s),
        None => false,
    }
}

/// The character printed for the square at rank `r` and file `f`: the
/// occupying side's letter, a star for a shown legal move, or the format's
/// filler.
pub open spec fn cell_char(board: Board, stone: Option<Stone>, fmt: Format, r: int, f: int) -> char {
    let s = r * 8 + f;
    if sq(board.black(), s) {
        'B'
    } else if sq(board.white(), s) {
        'W'
    } else if shows_move(board, stone, s) {
        '*'
    } else {
        match fmt {
            Format::Compact => '.',
            Format::Standard => ' ',
        }
    }
}

/// The cells of one compact rank, from file A on.
pub open spec fn compact_cells(board: Board, stone: Option<Stone>, r: int, f: int) -> Seq<char>
    decreases 8 - f,
{
    if f < 0 || f >= 8 {
        Seq::empty()
    } else {
        seq![cell_char(board, stone, Format::Compact, r, f)] + compact_cells(board, stone, r, f + 1)
    }
}

/// The compact rank lines from rank `r` on.
pub open spec fn compact_rows(board: Board, stone: Option<Stone>, r: int) -> Seq<char>
    decreases 8 - r,
{
    if r < 0 || r >= 8 {
        Seq::empty()
    } else {
        seq![rank_char(r)] + " |"@ + compact_cells(board, stone, r, 0) + "|\n"@ + compact_rows(
            board,
            stone,
            r + 1,
        )
    }
}

/// The whole compact rendering.
pub open spec fn render_compact(board: Board, stone: Option<Stone>) -> Seq<char> {
    "   ABCDEFGH\n"@ + "  +--------+\n"@ + compact_rows(board, stone, 0) + "  +--------+\n"@
}

/// The cells of one standard rank, from file A on.
pub open spec fn standard_cells(board: Board, stone: Option<Stone>, r: int, f: int) -> Seq<char>
    decreases 8 - f,
{
    if f < 0 || f >= 8 {
        Seq::empty()
    } else {
        " "@ + seq![cell_char(board, stone, Format::Standard, r, f)] + " |"@ + standard_cells(
            board,
            stone,
            r,
            f + 1,
        )
    }
}

/// The standard rank lines from rank `r` on, each under its frame line.
pub open spec fn standard_rows(board: Board, stone: Option<Stone>, r: int) -> Seq<char>
    decreases 8 - r,
{
    if r < 0 || r >= 8 {
        Seq::empty()
    } else {
        "  +---+---+---+---+---+---+---+---+\n"@ + seq![rank_char(r)] + " |"@ + standard_cells(
            board,
            stone,
            r,
            0,
        ) + "\n"@ + standard_rows(board, stone, r + 1)
    }
}

/// The whole standard rendering.
pub open spec fn render_standard(board: Board, stone: Option<Stone>) -> Seq<char> {
    "    A   B   C   D   E   F   G   H\n"@ + standard_rows(board, stone, 0)
        + "  +---+---+---+---+---+---+---+---+\n"@
}

/// What the display renders: the chosen format's text, with the chosen
/// side's legal moves marked.
pub open spec fn render_spec(board: Board, stone: Option<Stone>, fmt: Format) -> Seq<char> {
    match fmt {
        Format::Compact => render_compact(board, stone),
        Format::Standard => render_standard(board, stone),
    }
}

impl BoardDisplay {
    /// The board being displayed.
    pub closed spec fn spec_board(self) -> Board {
        self.board
    }

    /// The chosen formatting.
    pub closed spec fn spec_format(self) -> Format {
        self.display
    }

    /// The side whose legal moves are marked, if any.
    pub closed spec fn spec_stone(self) -> Option<Stone> {
        self.stone
    }

    pub(crate) fn new(board: &Board) -> (r: Self)
        ensures
            r.spec_board() == *board,
            r.spec_format() is Standard,
            r.spec_stone() is None,
    {
        Self { board: *board, display: Format::Standard, stone: None }
    }

    /// Displays the board with the legal moves for the specified stone.
    pub fn with_stone(&self, stone: Stone) -> (r: Self)
        ensures
            r.spec_board() == self.spec_board(),
            r.spec_format() == self.spec_format(),
            r.spec_stone() == Some(stone),
    {
        Self { board: self.board, display: self.display, stone: Some(stone) }
    }

    /// Displays the board with the specified formatting.
    pub fn with_format(&self, display: Format) -> (r: Self)
        ensures
            r.spec_board() == self.spec_board(),
            r.spec_format() == display,
            r.spec_stone() == self.spec_stone(),
    {
        Self { board: self.board, display, stone: self.stone }
    }

    /// Renders the board as text.
    pub fn to_text(&self) -> (r: String)
        ensures
            r@ == render_spec(self.spec_board(), self.spec_stone(), self.spec_format()),
    {
        let legal: u64 = match self.stone {
            Some(st) => self.board.moves_for(st).raw(),
            None => 0,
        };
        proof {
            if self.stone is None {
                assert forall|s: int| sq(legal, s) == shows_move(self.board, self.stone, s) by {
                    lemma_sq_zero(s);
                }
            }
        }
        match self.display {
            Format::Compact => to_text_compact(&self.board, self.stone, legal),
            Format::Standard => to_text_standard(&self.board, self.stone, legal),
        }
    }
}

/// Builds the compact rendering line by line.
fn to_text_compact(board: &Board, stone: Option<Stone>, legal: u64) -> (r: String)
    requires
        forall|s: int| #[trigger] sq(legal, s) == shows_move(*board, stone, s),
    ensures
        r@ == render_compact(*board, stone),
{
    let ghost full = render_compact(*board, stone);
    let mut text = String::from_str("   ABCDEFGH\n");
    text.append("  +--------+\n");
    proof {
        assert(text@ + compact_rows(*board, stone, 0) + "  +--------+\n"@ =~= full);
    }
    for r in 0..8usize
        invariant
            forall|s: int| #[trigger] sq(legal, s) == shows_move(*board, stone, s),
            full == render_compact(*board, stone),
            text@ + compact_rows(*board, stone, r as int) + "  +--------+\n"@ == full,
    {
        let ghost entry = text@;
        text.append(rank_str(r as u8));
        text.append(" |");
        proof {
            assert(text@ + compact_cells(*board, stone, r as int, 0) + "|\n"@ + compact_rows(
                *board,
                stone,
                r + 1,
            ) + "  +--------+\n"@ =~= entry + compact_rows(*board, stone, r as int)
                + "  +--------+\n"@);
        }
        for f in 0..8usize
            invariant
                forall|s: int| #[trigger] sq(legal, s) == shows_move(*board, stone, s),
                full == render_compact(*board, stone),
                text@ + compact_cells(*board, stone, r as int, f as int) + "|\n"@ + compact_rows(
                    *board,
                    stone,
                    r + 1,
                ) + "  +--------+\n"@ == full,
                r < 8,
        {
            let ghost before = text@;
            text.append(cell_str(board, stone, legal, Format::Compact, r as u8, f as u8));
            proof {
                assert(text@ + compact_cells(*board, stone, r as int, f + 1) =~= before
                    + compact_cells(*board, stone, r as int, f as int));
                assert(text@ + compact_cells(*board, stone, r as int, f + 1) + "|\n"@
                    + compact_rows(*board, stone, r + 1) + "  +--------+\n"@ =~= before
                    + compact_cells(*board, stone, r as int, f as int) + "|\n"@ + compact_rows(
                    *board,
                    stone,
                    r + 1,
                ) + "  +--------+\n"@);
            }
        }
        let ghost row_done = text@;
        text.append("|\n");
        proof {
            assert(compact_cells(*board, stone, r as int, 8) =~= Seq::<char>::empty());
            assert(text@ + compact_rows(*board, stone, r + 1) + "  +--------+\n"@ =~= row_done
                + compact_cells(*board, stone, r as int, 8) + "|\n"@ + compact_rows(
                *board,
                stone,
                r + 1,
            ) + "  +--------+\n"@);
        }
    }
    let ghost body_done = text@;
    text.append("  +--------+\n");
    proof {
        assert(compact_rows(*board, stone, 8) =~= Seq::<char>::empty());
        assert(text@ =~= body_done + compact_rows(*board, stone, 8) + "  +--------+\n"@);
    }
    text
}

/// Builds the standard rendering line by line.
fn to_text_standard(board: &Board, stone: Option<Stone>, legal: u64) -> (r: String)
    requires
        forall|s: int| #[trigger] sq(legal, s) == shows_move(*board, stone, s),
    ensures
        r@ == render_standard(*board, stone),
{
    let ghost full = render_standard(*board, stone);
    let mut text = String::from_str("    A   B   C   D   E   F   G   H\n");
    proof {
        assert(text@ + standard_rows(*board, stone, 0) + "  +---+---+---+---+---+---+---+---+\n"@
            =~= full);
    }
    for r in 0..8usize
        invariant
            forall|s: int| #[trigger] sq(legal, s) == shows_move(*board, stone, s),
            full == render_standard(*board, stone),
            text@ + standard_rows(*board, stone, r as int)
                + "  +---+---+---+---+---+---+---+---+\n"@ == full,
    {
        let ghost entry = text@;
        text.append("  +---+---+---+---+---+---+---+---+\n");
        text.append(rank_str(r as u8));
        text.append(" |");
        proof {
            assert(text@ + standard_cells(*board, stone, r as int, 0) + "\n"@ + standard_rows(
                *board,
                stone,
                r + 1,
            ) + "  +---+---+---+---+---+---+---+---+\n"@ =~= entry + standard_rows(
                *board,
                stone,
                r as int,
            ) + "  +---+---+---+---+---+---+---+---+\n"@);
        }
        for f in 0..8usize
            invariant
                forall|s: int| #[trigger] sq(legal, s) == shows_move(*board, stone, s),
                full == render_standard(*board, stone),
                text@ + standard_cells(*board, stone, r as int, f as int) + "\n"@ + standard_rows(
                    *board,
                    stone,
                    r + 1,
                ) + "  +---+---+---+---+---+---+---+---+\n"@ == full,
                r < 8,
        {
            let ghost before = text@;
            text.append(" ");
            text.append(cell_str(board, stone, legal, Format::Standard, r as u8, f as u8));
            text.append(" |");
            proof {
                assert(text@ + standard_cells(*board, stone, r as int, f + 1) =~= before
                    + standard_cells(*board, stone, r as int, f as int));
                assert(text@ + standard_cells(*board, stone, r as int, f + 1) + "\n"@
                    + standard_rows(*board, stone, r + 1)
                    + "  +---+---+---+---+---+---+---+---+\n"@ =~= before + standard_cells(
                    *board,
                    stone,
                    r as int,
                    f as int,
                ) + "\n"@ + standard_rows(*board, stone, r + 1)
                    + "  +---+---+---+---+---+---+---+---+\n"@);
            }
        }
        let ghost row_done = text@;
        text.append("\n");
        proof {
            assert(standard_cells(*board, stone, r as int, 8) =~= Seq::<char>::empty());
            assert(text@ + standard_rows(*board, stone, r + 1)
                + "  +---+---+---+---+---+---+---+---+\n"@ =~= row_done + standard_cells(
                *board,
                stone,
                r as int,
                8,
            ) + "\n"@ + standard_rows(*board, stone, r + 1)
                + "  +---+---+---+---+---+---+---+---+\n"@);
        }
    }
    let ghost body_done = text@;
    text.append("  +---+---+---+---+---+---+---+---+\n");
    proof {
        assert(standard_rows(*board, stone, 8) =~= Seq::<char>::empty());
        assert(text@ =~= body_done + standard_rows(*board, stone, 8)
            + "  +---+---+---+---+---+---+---+---+\n"@);
    }
    text
}

/// The one-character text of the square at rank `rank` and file `file`.
fn cell_str(board: &Board, stone: Option<Stone>, legal: u64, fmt: Format, rank: u8, file: u8) -> (r:
    &'static str)
    requires
        rank < 8,
        file < 8,
        forall|s: int| #[trigger] sq(legal, s) == shows_move(*board, stone, s),
    ensures
        r@ =~= seq![cell_char(*board, stone, fmt, rank as int, file as int)],
{
    let s: u64 = rank as u64 * 8 + file as u64;
    let m: u64 = 1u64 << ((63 - s) as u64);
    proof {
        let si = rank as int * 8 + file as int;
        assert(m == mask_of(si));
        assert(sq(legal, si) == shows_move(*board, stone, si));
        assert(sq(legal, si) == (legal & m != 0));
        assert(sq(board.black(), si) == (board.black() & m != 0));
        assert(sq(board.white(), si) == (board.white() & m != 0));
        reveal_strlit("B");
        reveal_strlit("W");
        reveal_strlit("*");
        reveal_strlit(".");
        reveal_strlit(" ");
    }
    if board.bits_for(Stone::Black).raw() & m != 0 {
        "B"
    } else if board.bits_for(Stone::White).raw() & m != 0 {
        "W"
    } else if legal & m != 0 {
        "*"
    } else {
        match fmt {
            Format::Compact => ".",
            Format::Standard => " ",
        }
    }
}

} // verus!
