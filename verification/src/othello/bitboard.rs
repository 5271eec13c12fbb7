//! An 8x8 board of squares as a 64-bit mask.

use super::bits::count_spec;
use super::bits::hot_seq;
use super::bits::lemma_hot_seq_len;
use super::bits::lemma_pop_complement;
use super::bits::mask_of;
use super::bits::one_hot;
use super::bits::pop_below;
use super::bits::sq;
use super::position::Position;
use vstd::std_specs::ops::BitAndSpecImpl;
use vstd::std_specs::ops::BitOrSpecImpl;
use vstd::std_specs::ops::BitXorSpecImpl;
use vstd::std_specs::ops::NotSpecImpl;
use vstd::prelude::*;

verus! {

/// Represents a 8x8 board as a `u64`.
///
/// There are no restrictions placed on the bits represented, unlike the
/// similar [`Position`] where only a single bit may be set.
///
/// Squares are numbered row by row with `0` for A1 through `63` for H8, and
/// square `s` lives in bit `63 - s`: A1 is the most significant bit and H8
/// the least significant one.
#[derive(Clone, Copy, Debug, Default, PartialEq, Eq, Hash, Structural)]
pub struct Bitboard(pub u64);

impl View for Bitboard {
    type V = u64;

    open spec fn view(&self) -> u64 {
        self.0
    }
}

impl Bitboard {
    /// The board with no square set.
    pub fn empty() -> (r: Bitboard)
        ensures
            r@ == 0u64,
    {
        Bitboard(0)
    }

    /// The board with every square set.
    pub fn filled() -> (r: Bitboard)
        ensures
            r@ == 0xffff_ffff_ffff_ffffu64,
    {
        Bitboard(0xffff_ffff_ffff_ffff)
    }

    /// Retrieves the underlying u64.
    pub fn raw(self) -> (r: u64)
        ensures
            r == self@,
    {
        self.0
    }

    /// Returns true if and only if no bits are set.
    pub fn is_empty(self) -> (r: bool)
        ensures
            r == (self@ == 0),
    {
        self.0 == 0
    }

    /// Counts the number of set bits.
    pub fn count_set(self) -> (r: u8)
        ensures
            r == count_spec(self@),
    {
        count_squares(self.0)
    }

    /// Counts the number of bits that are set to zero.
    pub fn count_empty(self) -> (r: u8)
        ensures
            r == count_spec(!self@),
            r == 64 - count_spec(self@),
    {
        proof {
            lemma_pop_complement(self.0, 64);
        }
        count_squares(!self.0)
    }

    /// Extracts each bit as its own bitboard.
    ///
    /// The result always has 64 entries, in board order: entry `s` holds the
    /// part of this board that lies on square `s`, which is zero whenever the
    /// square is not set.
    pub fn bits(self) -> (r: Vec<Bitboard>)
        ensures
            r@.len() == 64,
            forall|s: int| 0 <= s < 64 ==> r@[s]@ == self@ & mask_of(s),
    {
        let mut r: Vec<Bitboard> = Vec::new();
        for i in 0..64usize
            invariant
                r@.len() == i,
                forall|s: int| 0 <= s < i ==> r@[s]@ == self@ & mask_of(s),
        {
            let m: u64 = 1u64 << ((63 - i) as u64);
            assert(m == mask_of(i as int));
            r.push(Bitboard(self.0 & m));
        }
        r
    }

    /// Extracts each bit set to one as its own position.
    ///
    /// The result lists the set squares in board order, from A1 toward H8,
    /// so it has exactly [`count_set`] entries.
    ///
    /// [`count_set`]: Bitboard::count_set
    pub fn hot_bits(self) -> (r: Vec<Position>)
        ensures
            r@.map_values(|p: Position| p@) == hot_seq(self@, 0),
            r@.len() == count_spec(self@),
    {
        let mut r: Vec<Position> = Vec::new();
        for i in 0..64usize
            invariant
                r@.map_values(|p: Position| p@) + hot_seq(self@, i as int) == hot_seq(self@, 0),
        {
            let m: u64 = 1u64 << ((63 - i) as u64);
            assert(m == mask_of(i as int));
            if self.0 & m != 0 {
                let ghost prev = r@.map_values(|p: Position| p@);
                proof {
                    assert(one_hot(m)) by {
                        assert(0 <= i < 64 && m == mask_of(i as int));
                    }
                }
                r.push(Position::new_unchecked(m));
                proof {
                    assert(r@.map_values(|p: Position| p@) =~= prev + seq![m]);
                    assert(prev + seq![m] + hot_seq(self@, i + 1) =~= prev + hot_seq(
                        self@,
                        i as int,
                    ));
                }
            } else {
                proof {
                    assert(!sq(self@, i as int));
                }
            }
        }
        proof {
            assert(hot_seq(self@, 64) =~= Seq::<u64>::empty());
            assert(r@.map_values(|p: Position| p@) + hot_seq(self@, 64) =~= r@.map_values(
                |p: Position| p@,
            ));
            lemma_hot_seq_len(self@, 0);
        }
        r
    }
}

/// Counts the set squares of a raw mask, one square at a time.
fn count_squares(b: u64) -> (r: u8)
    ensures
        r == count_spec(b),
{
    let mut count: u8 = 0;
    for i in 0..64usize
        invariant
            count == pop_below(b, i as int),
            count <= i,
    {
        let m: u64 = 1u64 << ((63 - i) as u64);
        assert(m == mask_of(i as int));
        if b & m != 0 {
            count += 1;
        }
    }
    count
}

impl From<u64> for Bitboard {
    fn from(bitboard: u64) -> (r: Self) {
        Bitboard(bitboard)
    }
}

impl vstd::std_specs::convert::FromSpecImpl<u64> for Bitboard {
    open spec fn obeys_from_spec() -> bool {
        true
    }

    open spec fn from_spec(v: u64) -> Bitboard {
        Bitboard(v)
    }
}

impl From<Bitboard> for u64 {
    fn from(bitboard: Bitboard) -> (r: u64) {
        bitboard.0
    }
}

impl vstd::std_specs::convert::FromSpecImpl<Bitboard> for u64 {
    open spec fn obeys_from_spec() -> bool {
        true
    }

    open spec fn from_spec(v: Bitboard) -> u64 {
        v@
    }
}



// =====[ Bitboard OP Bitboard ]=====
impl core::ops::BitAnd for Bitboard {
    type Output = Bitboard;

    fn bitand(self, rhs: Bitboard) -> (r: Bitboard) {
        Bitboard(self.0 & rhs.0)
    }
}

impl BitAndSpecImpl for Bitboard {
    open spec fn obeys_bitand_spec() -> bool {
        true
    }

    open spec fn bitand_req(self, rhs: Bitboard) -> bool {
        true
    }

    open spec fn bitand_spec(self, rhs: Bitboard) -> Bitboard {
        Bitboard(self@ & rhs@)
    }
}

impl core::ops::BitOr for Bitboard {
    type Output = Bitboard;

    fn bitor(self, rhs: Bitboard) -> (r: Bitboard) {
        Bitboard(self.0 | rhs.0)
    }
}

impl BitOrSpecImpl for Bitboard {
    open spec fn obeys_bitor_spec() -> bool {
        true
    }

    open spec fn bitor_req(self, rhs: Bitboard) -> bool {
        true
    }

    open spec fn bitor_spec(self, rhs: Bitboard) -> Bitboard {
        Bitboard(self@ | rhs@)
    }
}

impl core::ops::BitXor for Bitboard {
    type Output = Bitboard;

    fn bitxor(self, rhs: Bitboard) -> (r: Bitboard) {
        Bitboard(self.0 ^ rhs.0)
    }
}

impl BitXorSpecImpl for Bitboard {
    open spec fn obeys_bitxor_spec() -> bool {
        true
    }

    open spec fn bitxor_req(self, rhs: Bitboard) -> bool {
        true
    }

    open spec fn bitxor_spec(self, rhs: Bitboard) -> Bitboard {
        Bitboard(self@ ^ rhs@)
    }
}

impl core::ops::Not for Bitboard {
    type Output = Bitboard;

    fn not(self) -> (r: Bitboard) {
        Bitboard(!self.0)
    }
}

impl NotSpecImpl for Bitboard {
    open spec fn obeys_not_spec() -> bool {
        true
    }

    open spec fn not_req(self) -> bool {
        true
    }

    open spec fn not_spec(self) -> Bitboard {
        Bitboard(!self@)
    }
}

// =====[ Bitboard OP u64 ]=====
impl core::ops::BitAnd<u64> for Bitboard {
    type Output = Bitboard;

    fn bitand(self, rhs: u64) -> (r: Bitboard) {
        Bitboard(self.0 & rhs)
    }
}

impl BitAndSpecImpl<u64> for Bitboard {
    open spec fn obeys_bitand_spec() -> bool {
        true
    }

    open spec fn bitand_req(self, rhs: u64) -> bool {
        true
    }

    open spec fn bitand_spec(self, rhs: u64) -> Bitboard {
        Bitboard(self@ & rhs)
    }
}

impl core::ops::BitOr<u64> for Bitboard {
    type Output = Bitboard;

    fn bitor(self, rhs: u64) -> (r: Bitboard) {
        Bitboard(self.0 | rhs)
    }
}

impl BitOrSpecImpl<u64> for Bitboard {
    open spec fn obeys_bitor_spec() -> bool {
        true
    }

    open spec fn bitor_req(self, rhs: u64) -> bool {
        true
    }

    open spec fn bitor_spec(self, rhs: u64) -> Bitboard {
        Bitboard(self@ | rhs)
    }
}

impl core::ops::BitXor<u64> for Bitboard {
    type Output = Bitboard;

    fn bitxor(self, rhs: u64) -> (r: Bitboard) {
        Bitboard(self.0 ^ rhs)
    }
}

impl BitXorSpecImpl<u64> for Bitboard {
    open spec fn obeys_bitxor_spec() -> bool {
        true
    }

    open spec fn bitxor_req(self, rhs: u64) -> bool {
        true
    }

    open spec fn bitxor_spec(self, rhs: u64) -> Bitboard {
        Bitboard(self@ ^ rhs)
    }
}

// =====[ Bitboard shifts ]=====
impl core::ops::Shl<u8> for Bitboard {
    type Output = Bitboard;

    fn shl(self, rhs: u8) -> (r: Bitboard) {
        Bitboard(self.0 << rhs)
    }
}

impl vstd::std_specs::ops::ShlSpecImpl<u8> for Bitboard {
    open spec fn obeys_shl_spec() -> bool {
        true
    }

    open spec fn shl_req(self, rhs: u8) -> bool {
        rhs < 64
    }

    open spec fn shl_spec(self, rhs: u8) -> Bitboard {
        Bitboard(self@ << rhs)
    }
}

impl core::ops::Shr<u8> for Bitboard {
    type Output = Bitboard;

    fn shr(self, rhs: u8) -> (r: Bitboard) {
        Bitboard(self.0 >> rhs)
    }
}

impl vstd::std_specs::ops::ShrSpecImpl<u8> for Bitboard {
    open spec fn obeys_shr_spec() -> bool {
        true
    }

    open spec fn shr_req(self, rhs: u8) -> bool {
        rhs < 64
    }

    open spec fn shr_spec(self, rhs: u8) -> Bitboard {
        Bitboard(self@ >> rhs)
    }
}

} // verus!
