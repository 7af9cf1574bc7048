//! Bit patterns of a fixed width.

use crate::bytesize::ByteSize;
use vstd::prelude::*;

verus! {

/// A bit pattern whose width is a whole number of bytes.
///
/// The pattern is held as its bytes, the least significant byte first. Its
/// view is that sequence of bytes, so the width of a bitvector is the length
/// of its view.
#[derive(Debug, PartialEq, Eq, Hash)]
pub struct Bitvector {
    bytes: Vec<u8>,
}

impl View for Bitvector {
    type V = Seq<u8>;

    closed spec fn view(&self) -> Seq<u8> {
        self.bytes@
    }
}

/// The number that a sequence of bytes stands for, the least significant
/// byte first.
pub open spec fn unsigned_value(bytes: Seq<u8>) -> nat
    decreases bytes.len(),
{
    if bytes.len() == 0 {
        0
    } else {
        bytes[0] as nat + 256 * unsigned_value(bytes.drop_first())
    }
}

/// The pattern of `width` bytes in which no bit is set.
pub open spec fn zero_pattern(width: nat) -> Seq<u8> {
    Seq::new(width, |i: int| 0u8)
}

/// The pattern of `width` bytes in which only the lowest bit is set.
pub open spec fn one_pattern(width: nat) -> Seq<u8> {
    Seq::new(
        width,
        |i: int|
            if i == 0 {
                1u8
            } else {
                0u8
            },
    )
}

/// The all-zero pattern stands for the number zero, whatever its width.
pub proof fn lemma_zero_pattern_value(width: nat)
    ensures
        unsigned_value(zero_pattern(width)) == 0,
    decreases width,
{
    if width > 0 {
        assert(zero_pattern(width).drop_first() =~= zero_pattern((width - 1) as nat));
        lemma_zero_pattern_value((width - 1) as nat);
    }
}

/// The one pattern stands for the number one, unless its width is zero.
pub proof fn lemma_one_pattern_value(width: nat)
    ensures
        width > 0 ==> unsigned_value(one_pattern(width)) == 1,
        width == 0 ==> unsigned_value(one_pattern(width)) == 0,
{
    if width > 0 {
        assert(one_pattern(width).drop_first() =~= zero_pattern((width - 1) as nat));
        lemma_zero_pattern_value((width - 1) as nat);
    }
}

impl Clone for Bitvector {
    fn clone(&self) -> (copy: Self)
        ensures
            copy@ == self@,
    {
        Bitvector { bytes: self.bytes.clone() }
    }
}

impl Bitvector {
    /// The width of a bitvector fits a machine integer.
    pub proof fn lemma_width_fits(&self)
        ensures
            self@.len() <= usize::MAX,
    {
        assert(self.bytes@.len() == self.bytes.len());
    }

    /// The bitvector with the given bytes, the least significant byte first.
    pub fn from_le_bytes(bytes: Vec<u8>) -> (bitvector: Bitvector)
        ensures
            bitvector@ == bytes@,
    {
        Bitvector { bytes }
    }

    /// The bytes of the bitvector, the least significant byte first.
    pub fn to_le_bytes(&self) -> (bytes: Vec<u8>)
        ensures
            bytes@ == self@,
    {
        self.bytes.clone()
    }

    /// The zero of the given width.
    pub fn zero(width: ByteSize) -> (bitvector: Bitvector)
        ensures
            bitvector@ == zero_pattern(width@),
            unsigned_value(bitvector@) == 0,
    {
        proof {
            lemma_zero_pattern_value(width@);
        }
        let mut bytes: Vec<u8> = Vec::new();
        let mut filled: u64 = 0;
        while filled < width.0
            invariant
                filled <= width.0,
                bytes@ == zero_pattern(filled as nat),
            decreases width.0 - filled,
        {
            bytes.push(0u8);
            filled = filled + 1;
            assert(bytes@ =~= zero_pattern(filled as nat));
        }
        Bitvector { bytes }
    }

    /// The number one in the given width. In a width of zero bytes no bit
    /// can be set, and the result is the empty pattern.
    pub fn one(width: ByteSize) -> (bitvector: Bitvector)
        ensures
            bitvector@ == one_pattern(width@),
            width@ > 0 ==> unsigned_value(bitvector@) == 1,
    {
        proof {
            lemma_one_pattern_value(width@);
        }
        let mut bytes: Vec<u8> = Vec::new();
        let mut filled: u64 = 0;
        while filled < width.0
            invariant
                filled <= width.0,
                bytes@ == one_pattern(filled as nat),
            decreases width.0 - filled,
        {
            let byte: u8 = if filled == 0 {
                1u8
            } else {
                0u8
            };
            bytes.push(byte);
            filled = filled + 1;
            assert(bytes@ =~= one_pattern(filled as nat));
        }
        Bitvector { bytes }
    }

    /// The bitvector of one byte that holds `value`.
    pub fn from_u8(value: u8) -> (bitvector: Bitvector)
        ensures
            bitvector@ == seq![value],
            unsigned_value(bitvector@) == value,
    {
        let mut bytes: Vec<u8> = Vec::new();
        bytes.push(value);
        assert(bytes@ =~= seq![value]);
        assert(unsigned_value(seq![value]) == value) by {
            assert(seq![value].drop_first() =~= Seq::<u8>::empty());
            reveal_with_fuel(unsigned_value, 2);
        }
        Bitvector { bytes }
    }

    /// The width of the bitvector in bytes.
    pub fn width(&self) -> (width: ByteSize)
        ensures
            width@ == self@.len(),
    {
        ByteSize(self.bytes.len() as u64)
    }

    /// Whether two bitvectors have the same width and the same bits.
    pub fn same_bits(&self, other: &Bitvector) -> (same: bool)
        ensures
            same == (self@ == other@),
    {
        if self.bytes.len() != other.bytes.len() {
            return false;
        }
        let mut index: usize = 0;
        while index < self.bytes.len()
            invariant
                index <= self.bytes.len(),
                self.bytes.len() == other.bytes.len(),
                forall|i: int| 0 <= i < index ==> self.bytes@[i] == other.bytes@[i],
            decreases self.bytes.len() - index,
        {
            if self.bytes[index] != other.bytes[index] {
                return false;
            }
            index = index + 1;
        }
        assert(self.bytes@ =~= other.bytes@);
        true
    }
}

} // verus!
