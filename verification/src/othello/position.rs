//! A single position on a 8x8 board.

use super::bitboard::Bitboard;
use super::bits::lemma_one_hot_index;
use super::bits::mask_of;
use super::bits::one_hot;
use super::bits::sq;
use vstd::std_specs::ops::BitAndSpecImpl;
use vstd::std_specs::ops::BitOrSpecImpl;
use vstd::std_specs::ops::BitXorSpecImpl;
use vstd::prelude::*;
use vstd::std_specs::bits::u64_leading_zeros;
use vstd::string::StrSliceExecFns;
use vstd::string::StringExecFns;

verus! {

/// Represents a single position on a 8x8 board as a `u64`.
///
/// Unlike the similar [`Bitboard`] which places no restrictions on the bits it
/// represents, this struct represents exactly a single set bit, and every
/// constructor checks that before a value comes to be.  Operations that could
/// break the invariant are typed to return [`Bitboard`] instead.
///
/// Squares are numbered row by row with `0` for A1 through `63` for H8, and
/// square `s` lives in bit `63 - s`: A1 is the most significant bit and H8
/// the least significant one.
#[derive(Clone, Copy, Debug, PartialEq, Eq, PartialOrd, Ord, Hash)]
pub struct Position(pub(crate) u64);

impl View for Position {
    type V = u64;

    closed spec fn view(&self) -> u64 {
        self.0
    }
}

impl Position {
    /// Exactly one bit is set.
    #[verifier::type_invariant]
    pub closed spec fn wf(self) -> bool {
        one_hot(self@)
    }

    /// The number of the square this position names, between 0 (A1) and
    /// 63 (H8).
    pub open spec fn idx(self) -> int {
        u64_leading_zeros(self@)
    }

    /// A position holds the mask of its square and no other square.
    pub proof fn lemma_one_bit(self)
        requires
            self.wf(),
        ensures
            0 <= self.idx() < 64,
            self@ == mask_of(self.idx()),
            forall|s: int| sq(self@, s) == (s == self.idx()),
            one_hot(self@),
    {
        lemma_one_hot_index(self@);
    }

    /// Constructs a new Position from a mask already known to hold exactly
    /// one bit.
    pub(crate) fn new_unchecked(bitboard: u64) -> (r: Self)
        requires
            one_hot(bitboard),
        ensures
            r@ == bitboard,
    {
        Self(bitboard)
    }

    /// Retrieves the underlying u64.
    pub fn raw(self) -> (r: u64)
        ensures
            r == self@,
    {
        self.0
    }

    /// Calculates the zero-indexed rank the position is referring to.
    pub fn rank(self) -> (r: u8)
        ensures
            r == self.idx() / 8,
    {
        proof {
            use_type_invariant(self);
            self.lemma_one_bit();
        }
        (self.0.leading_zeros() / 8) as u8
    }

    /// Calculates the zero-indexed file the position is referring to.
    pub fn file(self) -> (r: u8)
        ensures
            r == self.idx() % 8,
    {
        proof {
            use_type_invariant(self);
            self.lemma_one_bit();
        }
        (self.0.leading_zeros() % 8) as u8
    }

    /// Calculates a human-readable board position, a file letter `a` through
    /// `h` followed by a rank digit `1` through `8`.
    pub fn to_notation(self) -> (r: String)
        ensures
            r@ == notation_spec(self.idx()),
    {
        proof {
            use_type_invariant(self);
            self.lemma_one_bit();
        }
        let rank = (self.0.leading_zeros() / 8) as u8;
        let file = (self.0.leading_zeros() % 8) as u8;
        let file_text = file_str(file);
        let rank_text = rank_str(rank);
        String::from_str(file_text).concat(rank_text)
    }
}

/// The two-character name of square `s`: its file letter and rank digit.
pub open spec fn notation_spec(s: int) -> Seq<char> {
    seq![file_char(s % 8), rank_char(s / 8)]
}

/// The lower-case letter naming file `f`.
pub open spec fn file_char(f: int) -> char {
    if f == 0 {
        'a'
    } else if f == 1 {
        'b'
    } else if f == 2 {
        'c'
    } else if f == 3 {
        'd'
    } else if f == 4 {
        'e'
    } else if f == 5 {
        'f'
    } else if f == 6 {
        'g'
    } else {
        'h'
    }
}

/// The digit naming rank `r`, counting from one.
pub open spec fn rank_char(r: int) -> char {
    if r == 0 {
        '1'
    } else if r == 1 {
        '2'
    } else if r == 2 {
        '3'
    } else if r == 3 {
        '4'
    } else if r == 4 {
        '5'
    } else if r == 5 {
        '6'
    } else if r == 6 {
        '7'
    } else {
        '8'
    }
}

/// The file named by a letter, upper or lower case, or nothing.
pub open spec fn file_of_char(c: char) -> Option<int> {
    if c == 'a' || c == 'A' {
        Some(0int)
    } else if c == 'b' || c == 'B' {
        Some(1int)
    } else if c == 'c' || c == 'C' {
        Some(2int)
    } else if c == 'd' || c == 'D' {
        Some(3int)
    } else if c == 'e' || c == 'E' {
        Some(4int)
    } else if c == 'f' || c == 'F' {
        Some(5int)
    } else if c == 'g' || c == 'G' {
        Some(6int)
    } else if c == 'h' || c == 'H' {
        Some(7int)
    } else {
        None
    }
}

/// The rank named by a digit, counting from one, or nothing.
pub open spec fn rank_of_char(c: char) -> Option<int> {
    if c == '1' {
        Some(0int)
    } else if c == '2' {
        Some(1int)
    } else if c == '3' {
        Some(2int)
    } else if c == '4' {
        Some(3int)
    } else if c == '5' {
        Some(4int)
    } else if c == '6' {
        Some(5int)
    } else if c == '7' {
        Some(6int)
    } else if c == '8' {
        Some(7int)
    } else {
        None
    }
}

/// The square a two-character name refers to, if the text is one of the 64
/// square names, in either case.
pub open spec fn square_of_notation(t: Seq<char>) -> Option<int> {
    if t.len() == 2 {
        match (file_of_char(t[0]), rank_of_char(t[1])) {
            (Some(f), Some(r)) => Some(r * 8 + f),
            _ => None,
        }
    } else {
        None
    }
}

/// The file letter of square `s`, as a one-character piece of text.
fn file_str(f: u8) -> (r: &'static str)
    requires
        f < 8,
    ensures
        r@ =~= seq![file_char(f as int)],
{
    let r: &'static str = match f {
        0 => "a",
        1 => "b",
        2 => "c",
        3 => "d",
        4 => "e",
        5 => "f",
        6 => "g",
        _ => "h",
    };
    proof {
        reveal_strlit("a");
        reveal_strlit("b");
        reveal_strlit("c");
        reveal_strlit("d");
        reveal_strlit("e");
        reveal_strlit("f");
        reveal_strlit("g");
        reveal_strlit("h");
    }
    r
}

/// The rank digit of square `s`, as a one-character piece of text.
pub(crate) fn rank_str(rk: u8) -> (r: &'static str)
    requires
        rk < 8,
    ensures
        r@ =~= seq![rank_char(rk as int)],
{
    let r: &'static str = match rk {
        0 => "1",
        1 => "2",
        2 => "3",
        3 => "4",
        4 => "5",
        5 => "6",
        6 => "7",
        _ => "8",
    };
    proof {
        reveal_strlit("1");
        reveal_strlit("2");
        reveal_strlit("3");
        reveal_strlit("4");
        reveal_strlit("5");
        reveal_strlit("6");
        reveal_strlit("7");
        reveal_strlit("8");
    }
    r
}

/// This enum represents errors that may occur when handling Positions.
#[derive(Clone, Copy, Debug, Eq, PartialEq, Hash, Structural)]
pub enum PositionError {
    /// Indicates that the bitboard did not contain exactly one set bit.
    NotOneHotBitboard,
    /// Indicates that the position could not be parsed.
    InvalidPosition,
}

impl TryFrom<u64> for Position {
    type Error = PositionError;

    /// Constructs a position from a `u64`, which must have exactly one bit
    /// set.
    fn try_from(bitboard: u64) -> (r: Result<Self, PositionError>) {
        if bitboard != 0 && bitboard & (bitboard - 1) == 0 {
            proof {
                lemma_power_of_two_one_hot(bitboard);
            }
            Ok(Position::new_unchecked(bitboard))
        } else {
            proof {
                lemma_power_of_two_one_hot(bitboard);
            }
            Err(PositionError::NotOneHotBitboard)
        }
    }
}

impl vstd::std_specs::convert::TryFromSpecImpl<u64> for Position {
    open spec fn obeys_try_from_spec() -> bool {
        true
    }

    closed spec fn try_from_spec(v: u64) -> Result<Self, PositionError> {
        if one_hot(v) {
            Ok(Position(v))
        } else {
            Err(PositionError::NotOneHotBitboard)
        }
    }
}

impl TryFrom<Bitboard> for Position {
    type Error = PositionError;

    /// Constructs a position from a [`Bitboard`], which must have exactly
    /// one bit set.
    fn try_from(bitboard: Bitboard) -> (r: Result<Self, PositionError>) {
        Position::try_from(bitboard.raw())
    }
}

impl vstd::std_specs::convert::TryFromSpecImpl<Bitboard> for Position {
    open spec fn obeys_try_from_spec() -> bool {
        true
    }

    closed spec fn try_from_spec(v: Bitboard) -> Result<Self, PositionError> {
        if one_hot(v@) {
            Ok(Position(v@))
        } else {
            Err(PositionError::NotOneHotBitboard)
        }
    }
}

impl TryFrom<(u8, u8)> for Position {
    type Error = PositionError;

    /// Constructs a position from a zero-indexed rank and file pair, each of
    /// which must be less than eight.
    fn try_from(pair: (u8, u8)) -> (r: Result<Self, PositionError>) {
        let (rank, file) = pair;
        if rank > 7 || file > 7 {
            Err(PositionError::InvalidPosition)
        } else {
            let s: u64 = rank as u64 * 8 + file as u64;
            let m: u64 = 1u64 << ((63 - s) as u64);
            proof {
                assert(m == mask_of(rank as int * 8 + file as int));
            }
            Ok(Position::new_unchecked(m))
        }
    }
}

impl vstd::std_specs::convert::TryFromSpecImpl<(u8, u8)> for Position {
    open spec fn obeys_try_from_spec() -> bool {
        true
    }

    closed spec fn try_from_spec(v: (u8, u8)) -> Result<Self, PositionError> {
        if v.0 > 7 || v.1 > 7 {
            Err(PositionError::InvalidPosition)
        } else {
            Ok(Position(mask_of(v.0 as int * 8 + v.1 as int)))
        }
    }
}

impl<'a> TryFrom<&'a str> for Position {
    type Error = PositionError;

    /// Constructs a position from human-readable notation such as `"a1"`,
    /// in either case.
    fn try_from(text: &'a str) -> (r: Result<Self, PositionError>) {
        parse_notation(text)
    }
}

impl<'a> vstd::std_specs::convert::TryFromSpecImpl<&'a str> for Position {
    open spec fn obeys_try_from_spec() -> bool {
        true
    }

    closed spec fn try_from_spec(v: &'a str) -> Result<Self, PositionError> {
        match square_of_notation(v@) {
            Some(s) => Ok(Position(mask_of(s))),
            None => Err(PositionError::InvalidPosition),
        }
    }
}

impl TryFrom<String> for Position {
    type Error = PositionError;

    /// Constructs a position from human-readable notation such as `"a1"`,
    /// in either case.
    fn try_from(text: String) -> (r: Result<Self, PositionError>) {
        parse_notation(text.as_str())
    }
}

impl vstd::std_specs::convert::TryFromSpecImpl<String> for Position {
    open spec fn obeys_try_from_spec() -> bool {
        true
    }

    closed spec fn try_from_spec(v: String) -> Result<Self, PositionError> {
        match square_of_notation(v@) {
            Some(s) => Ok(Position(mask_of(s))),
            None => Err(PositionError::InvalidPosition),
        }
    }
}

/// Reads a two-character square name, in either case.
fn parse_notation(text: &str) -> (r: Result<Position, PositionError>)
    ensures
        r == match square_of_notation(text@) {
            Some(s) => Ok::<Position, PositionError>(Position(mask_of(s))),
            None => Err::<Position, PositionError>(PositionError::InvalidPosition),
        },
{
    if text.unicode_len() != 2 {
        return Err(PositionError::InvalidPosition);
    }
    let c0 = text.get_char(0);
    let c1 = text.get_char(1);
    let file: u64 = match c0 {
        'a' | 'A' => 0,
        'b' | 'B' => 1,
        'c' | 'C' => 2,
        'd' | 'D' => 3,
        'e' | 'E' => 4,
        'f' | 'F' => 5,
        'g' | 'G' => 6,
        'h' | 'H' => 7,
        _ => { return Err(PositionError::InvalidPosition) },
    };
    let rank: u64 = match c1 {
        '1' => 0,
        '2' => 1,
        '3' => 2,
        '4' => 3,
        '5' => 4,
        '6' => 5,
        '7' => 6,
        '8' => 7,
        _ => { return Err(PositionError::InvalidPosition) },
    };
    let s: u64 = rank * 8 + file;
    let m: u64 = 1u64 << ((63 - s) as u64);
    proof {
        assert(file == file_of_char(text@[0]).unwrap());
        assert(rank == rank_of_char(text@[1]).unwrap());
        assert(m == mask_of(square_of_notation(text@).unwrap()));
    }
    Ok(Position::new_unchecked(m))
}

/// Converting a position to its raw mask and back recovers the position.
pub proof fn lemma_position_raw_round_trip(pos: Position)
    requires
        pos.wf(),
    ensures
        <Position as vstd::std_specs::convert::TryFromSpec<u64>>::try_from_spec(pos@) == Ok::<
            Position,
            PositionError,
        >(pos),
{
    pos.lemma_one_bit();
}

/// Writing a position in notation and reading the text back recovers the
/// position.
pub proof fn lemma_position_notation_round_trip(pos: Position, text: String)
    requires
        pos.wf(),
        text@ == notation_spec(pos.idx()),
    ensures
        <Position as vstd::std_specs::convert::TryFromSpec<String>>::try_from_spec(text) == Ok::<
            Position,
            PositionError,
        >(pos),
{
    pos.lemma_one_bit();
    lemma_square_of_notation_inverse(pos.idx());
}

/// The square named by a square's own name is the square itself.
pub proof fn lemma_square_of_notation_inverse(s: int)
    requires
        0 <= s < 64,
    ensures
        square_of_notation(notation_spec(s)) == Some(s),
{
    let t = notation_spec(s);
    assert(t[0] == file_char(s % 8));
    assert(t[1] == rank_char(s / 8));
    assert(file_of_char(file_char(s % 8)) == Some(s % 8));
    assert(rank_of_char(rank_char(s / 8)) == Some(s / 8));
    assert((s / 8) * 8 + s % 8 == s);
}

/// The power-of-two test reads exactly the masks that hold one square.
proof fn lemma_power_of_two_one_hot(b: u64)
    ensures
        (b != 0 && b & ((b - 1) as u64) == 0) == one_hot(b),
{
    if b != 0 && b & ((b - 1) as u64) == 0 {
        super::bits::lemma_nonzero_has_sq(b);
        let s = u64_leading_zeros(b);
        let i = (63 - s) as u64;
        assert(b == 1u64 << i) by (bit_vector)
            requires
                b != 0,
                b & ((b - 1) as u64) == 0,
                i < 64,
                b & (1u64 << i) != 0,
        ;
    } else {
        if one_hot(b) {
            let s = choose|s: int| 0 <= s < 64 && b == mask_of(s);
            let i = (63 - s) as u64;
            let c = b;
            assert(c != 0 && c & ((c - 1) as u64) == 0) by (bit_vector)
                requires
                    i < 64,
                    c == 1u64 << i,
            ;
        }
    }
}

// =====[ Bitboard OP Position ]=====
impl core::ops::BitAnd<Position> for Bitboard {
    type Output = Bitboard;

    fn bitand(self, rhs: Position) -> (r: Bitboard) {
        Bitboard(self.0 & rhs.0)
    }
}

impl BitAndSpecImpl<Position> for Bitboard {
    open spec fn obeys_bitand_spec() -> bool {
        true
    }

    open spec fn bitand_req(self, rhs: Position) -> bool {
        true
    }

    open spec fn bitand_spec(self, rhs: Position) -> Bitboard {
        Bitboard(self@ & rhs@)
    }
}

impl core::ops::BitOr<Position> for Bitboard {
    type Output = Bitboard;

    fn bitor(self, rhs: Position) -> (r: Bitboard) {
        Bitboard(self.0 | rhs.0)
    }
}

impl BitOrSpecImpl<Position> for Bitboard {
    open spec fn obeys_bitor_spec() -> bool {
        true
    }

    open spec fn bitor_req(self, rhs: Position) -> bool {
        true
    }

    open spec fn bitor_spec(self, rhs: Position) -> Bitboard {
        Bitboard(self@ | rhs@)
    }
}

impl core::ops::BitXor<Position> for Bitboard {
    type Output = Bitboard;

    fn bitxor(self, rhs: Position) -> (r: Bitboard) {
        Bitboard(self.0 ^ rhs.0)
    }
}

impl BitXorSpecImpl<Position> for Bitboard {
    open spec fn obeys_bitxor_spec() -> bool {
        true
    }

    open spec fn bitxor_req(self, rhs: Position) -> bool {
        true
    }

    open spec fn bitxor_spec(self, rhs: Position) -> Bitboard {
        Bitboard(self@ ^ rhs@)
    }
}

// =====[ Position OP Position => Bitboard ]=====
impl core::ops::BitAnd for Position {
    type Output = Bitboard;

    fn bitand(self, rhs: Position) -> (r: Bitboard) {
        Bitboard(self.0 & rhs.0)
    }
}

impl BitAndSpecImpl for Position {
    open spec fn obeys_bitand_spec() -> bool {
        true
    }

    open spec fn bitand_req(self, rhs: Position) -> bool {
        true
    }

    open spec fn bitand_spec(self, rhs: Position) -> Bitboard {
        Bitboard(self@ & rhs@)
    }
}

impl core::ops::BitOr for Position {
    type Output = Bitboard;

    fn bitor(self, rhs: Position) -> (r: Bitboard) {
        Bitboard(self.0 | rhs.0)
    }
}

impl BitOrSpecImpl for Position {
    open spec fn obeys_bitor_spec() -> bool {
        true
    }

    open spec fn bitor_req(self, rhs: Position) -> bool {
        true
    }

    open spec fn bitor_spec(self, rhs: Position) -> Bitboard {
        Bitboard(self@ | rhs@)
    }
}

impl core::ops::BitXor for Position {
    type Output = Bitboard;

    fn bitxor(self, rhs: Position) -> (r: Bitboard) {
        Bitboard(self.0 ^ rhs.0)
    }
}

impl BitXorSpecImpl for Position {
    open spec fn obeys_bitxor_spec() -> bool {
        true
    }

    open spec fn bitxor_req(self, rhs: Position) -> bool {
        true
    }

    open spec fn bitxor_spec(self, rhs: Position) -> Bitboard {
        Bitboard(self@ ^ rhs@)
    }
}

// =====[ Position OP Bitboard => Bitboard ]=====
impl core::ops::BitAnd<Bitboard> for Position {
    type Output = Bitboard;

    fn bitand(self, rhs: Bitboard) -> (r: Bitboard) {
        Bitboard(self.0 & rhs.0)
    }
}

impl BitAndSpecImpl<Bitboard> for Position {
    open spec fn obeys_bitand_spec() -> bool {
        true
    }

    open spec fn bitand_req(self, rhs: Bitboard) -> bool {
        true
    }

    open spec fn bitand_spec(self, rhs: Bitboard) -> Bitboard {
        Bitboard(self@ & rhs@)
    }
}

impl core::ops::BitOr<Bitboard> for Position {
    type Output = Bitboard;

    fn bitor(self, rhs: Bitboard) -> (r: Bitboard) {
        Bitboard(self.0 | rhs.0)
    }
}

impl BitOrSpecImpl<Bitboard> for Position {
    open spec fn obeys_bitor_spec() -> bool {
        true
    }

    open spec fn bitor_req(self, rhs: Bitboard) -> bool {
        true
    }

    open spec fn bitor_spec(self, rhs: Bitboard) -> Bitboard {
        Bitboard(self@ | rhs@)
    }
}

impl core::ops::BitXor<Bitboard> for Position {
    type Output = Bitboard;

    fn bitxor(self, rhs: Bitboard) -> (r: Bitboard) {
        Bitboard(self.0 ^ rhs.0)
    }
}

impl BitXorSpecImpl<Bitboard> for Position {
    open spec fn obeys_bitxor_spec() -> bool {
        true
    }

    open spec fn bitxor_req(self, rhs: Bitboard) -> bool {
        true
    }

    open spec fn bitxor_spec(self, rhs: Bitboard) -> Bitboard {
        Bitboard(self@ ^ rhs@)
    }
}

// =====[ Position shifts: the result may not be a single bit, so it is a
// plain Bitboard ]=====
impl core::ops::Shl<u8> for Position {
    type Output = Bitboard;

    fn shl(self, rhs: u8) -> (r: Bitboard) {
        Bitboard(self.0 << rhs)
    }
}

impl vstd::std_specs::ops::ShlSpecImpl<u8> for Position {
    open spec fn obeys_shl_spec() -> bool {
        true
    }

    open spec fn shl_req(self, rhs: u8) -> bool {
        rhs < 64
    }

    open spec fn shl_spec(self, rhs: u8) -> Bitboard {
        Bitboard(self@ << rhs)
    }
}

impl core::ops::Shr<u8> for Position {
    type Output = Bitboard;

    fn shr(self, rhs: u8) -> (r: Bitboard) {
        Bitboard(self.0 >> rhs)
    }
}

impl vstd::std_specs::ops::ShrSpecImpl<u8> for Position {
    open spec fn obeys_shr_spec() -> bool {
        true
    }

    open spec fn shr_req(self, rhs: u8) -> bool {
        rhs < 64
    }

    open spec fn shr_spec(self, rhs: u8) -> Bitboard {
        Bitboard(self@ >> rhs)
    }
}

} // verus!
