//! Colours of the panel and their encoding on the wire.

use vstd::prelude::*;

verus! {

/// A colour that the panel can show.
///
/// The wire code of a colour is given by [`Color::code`]; it is not the
/// position of the variant in this list.
#[derive(Clone, Copy, Debug, PartialEq, Eq)]
pub enum Color {
    Black,
    White,
    Yellow,
    Red,
    Blue,
    Green,
    /// Not a visible colour: forces the panel to clear a pixel.
    Clean,
}

impl Color {
    /// The three-bit code that stands for the colour on the wire.
    pub open spec fn wire_code(self) -> u8 {
        match self {
            Color::Black => 0b000,
            Color::White => 0b001,
            Color::Yellow => 0b010,
            Color::Red => 0b011,
            Color::Blue => 0b101,
            Color::Green => 0b110,
            Color::Clean => 0b111,
        }
    }

    /// The byte that holds `left` in its high nibble and `right` in its low
    /// nibble.
    pub open spec fn packed(left: Color, right: Color) -> u8 {
        (16 * left.wire_code() + right.wire_code()) as u8
    }

    /// The byte that paints two adjacent pixels in this colour.
    pub open spec fn fill(self) -> u8 {
        Color::packed(self, self)
    }

    /// A packed byte is the left code shifted into the high nibble, joined
    /// with the right code, and its two nibbles give back the two codes.
    pub proof fn lemma_packed_nibbles(left: Color, right: Color)
        ensures
            Color::packed(left, right) == (left.wire_code() << 4) | right.wire_code(),
            Color::packed(left, right) >> 4 == left.wire_code(),
            Color::packed(left, right) & 0x0F == right.wire_code(),
    {
        let high = left.wire_code();
        let low = right.wire_code();
        let byte = Color::packed(left, right);
        assert(byte == (high << 4) | low && byte >> 4 == high && byte & 0x0F == low)
            by (bit_vector)
            requires
                high < 8,
                low < 8,
                byte == 16 * high + low,
        ;
    }

    /// Returns the colour's wire code.
    pub fn code(self) -> (code: u8)
        ensures
            code == self.wire_code(),
            code < 8,
    {
        match self {
            Color::Black => 0b000,
            Color::White => 0b001,
            Color::Yellow => 0b010,
            Color::Red => 0b011,
            Color::Blue => 0b101,
            Color::Green => 0b110,
            Color::Clean => 0b111,
        }
    }

    /// Packs two adjacent pixels into one byte, the left one in the high
    /// nibble.
    pub fn pack(left: Color, right: Color) -> (byte: u8)
        ensures
            byte == Color::packed(left, right),
            byte == (left.wire_code() << 4) | right.wire_code(),
    {
        proof {
            Color::lemma_packed_nibbles(left, right);
        }
        (left.code() << 4) | right.code()
    }

    /// Returns the byte that paints two adjacent pixels in this colour.
    pub fn fill_byte(self) -> (byte: u8)
        ensures
            byte == self.fill(),
            byte == (self.wire_code() << 4) | self.wire_code(),
    {
        Color::pack(self, self)
    }
}

} // verus!
