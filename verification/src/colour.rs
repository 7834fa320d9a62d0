//! Colours of the text renderer: four channels of eight bits in one word.

use vstd::prelude::*;
use bit_field::BitField;

verus! {

/// The bits of `value` from bit `start` up to but without bit `end`, moved
/// down to bit 0.
pub open spec fn bit_range(value: u32, start: u32, end: u32) -> u32 {
    (value << ((32 - end) as u32)) >> ((32 - end) as u32) >> start
}

/// `value` with the bits from bit `start` up to but without bit `end` replaced
/// by the low bits of `bits`.
pub open spec fn with_bit_range(value: u32, start: u32, end: u32, bits: u32) -> u32 {
    (value & !(!0u32 << ((32 - end) as u32) >> ((32 - end) as u32) >> start << start)) | (bits
        << start)
}

/// Whether `bits` has no bit set at or above bit `width`.
pub open spec fn fits_in(bits: u32, width: u32) -> bool {
    bits << ((32 - width) as u32) >> ((32 - width) as u32) == bits
}

/// `BitField::get_bits` of the crate bit_field, on a `u32` and a range from
/// `start` up to but without `end`. For a range that is not empty and lies
/// within the 32 bits, it shifts the bits above the range out at the top and
/// the bits below it out at the bottom, which is what the contract states.
#[verifier::external_body]
fn get_bits(value: u32, start: usize, end: usize) -> (bits: u32)
    requires
        start < end <= 32,
    ensures
        bits == bit_range(value, start as u32, end as u32),
{
    value.get_bits(start..end)
}

/// `BitField::set_bits` of the crate bit_field, on a `u32` and a range from
/// `start` up to but without `end`. It asserts that the range lies within the
/// word and that `bits` has no bit set beyond the width of the range, so the
/// contract asks for both; then it clears the range and puts `bits` there.
#[verifier::external_body]
fn set_bits(value: u32, start: usize, end: usize, bits: u32) -> (updated: u32)
    requires
        start < end <= 32,
        fits_in(bits, (end - start) as u32),
    ensures
        updated == with_bit_range(value, start as u32, end as u32, bits),
{
    let mut updated = value;
    updated.set_bits(start..end, bits);
    updated
}

/// A colour: red in the lowest eight bits, then green, blue and alpha.
#[derive(Debug, Clone, Copy, PartialEq, Eq, Structural)]
pub struct Colour(u32);

impl Colour {
    /// The word of the colour.
    pub closed spec fn value(&self) -> u32 {
        self.0
    }

    /// The colour with the given word.
    pub closed spec fn of(value: u32) -> Colour {
        Colour(value)
    }

    /// Black: every channel 0.
    pub fn black() -> (colour: Self)
        ensures
            colour == Colour::of(0x000000),
            colour.value() == 0x000000,
    {
        Self::from_hex(0x000000)
    }

    /// White: red, green and blue 255, alpha 0.
    pub fn white() -> (colour: Self)
        ensures
            colour == Colour::of(0xFFFFFF),
            colour.value() == 0xFFFFFF,
    {
        Self::from_hex(0xFFFFFF)
    }

    /// The colour with the given word.
    pub fn from_hex(value: u32) -> (colour: Self)
        ensures
            colour == Colour::of(value),
            colour.value() == value,
    {
        Self(value)
    }

    /// The colour with the given channels.
    pub fn from_rgba(r: u8, g: u8, b: u8, a: u8) -> (colour: Self)
        ensures
            colour.value() == r + g * 0x100 + b * 0x1_0000 + a * 0x100_0000,
    {
        let red: u32 = r as u32;
        let green: u32 = g as u32;
        let blue: u32 = b as u32;
        let alpha: u32 = a as u32;
        assert(fits_in(red, 8) && fits_in(green, 8) && fits_in(blue, 8) && fits_in(alpha, 8))
            by (bit_vector)
            requires
                red < 256 && green < 256 && blue < 256 && alpha < 256,
        ;
        let mut hex_value: u32 = 0u32;
        hex_value = set_bits(hex_value, 0, 8, red);
        hex_value = set_bits(hex_value, 8, 16, green);
        hex_value = set_bits(hex_value, 16, 24, blue);
        hex_value = set_bits(hex_value, 24, 32, alpha);
        assert(with_bit_range(
            with_bit_range(with_bit_range(with_bit_range(0, 0, 8, red), 8, 16, green), 16, 24, blue),
            24,
            32,
            alpha,
        ) == red + green * 0x100 + blue * 0x1_0000 + alpha * 0x100_0000) by (bit_vector)
            requires
                red < 256 && green < 256 && blue < 256 && alpha < 256,
        ;
        Self::from_hex(hex_value)
    }

    /// The word of the colour.
    pub fn inner(&self) -> (value: u32)
        ensures
            value == self.value(),
    {
        self.0
    }

    /// The red channel: bits 0 to 7.
    pub fn get_r_bit(&self) -> (channel: u8)
        ensures
            channel == self.value() % 0x100,
    {
        let bits: u32 = get_bits(self.0, 0, 8) & 255;
        let value: u32 = self.0;
        assert(bit_range(value, 0, 8) & 255 == value % 0x100) by (bit_vector);
        bits as u8
    }

    /// The green channel: bits 8 to 15.
    pub fn get_g_bit(&self) -> (channel: u8)
        ensures
            channel == (self.value() / 0x100) % 0x100,
    {
        let bits: u32 = get_bits(self.0, 8, 16) & 255;
        let value: u32 = self.0;
        assert(bit_range(value, 8, 16) & 255 == (value / 0x100) % 0x100) by (bit_vector);
        bits as u8
    }

    /// The blue channel: bits 16 to 23.
    pub fn get_b_bit(&self) -> (channel: u8)
        ensures
            channel == (self.value() / 0x1_0000) % 0x100,
    {
        let bits: u32 = get_bits(self.0, 16, 24) & 255;
        let value: u32 = self.0;
        assert(bit_range(value, 16, 24) & 255 == (value / 0x1_0000) % 0x100) by (bit_vector);
        bits as u8
    }

    /// The alpha channel: bits 24 to 31.
    pub fn get_a_bit(&self) -> (channel: u8)
        ensures
            channel == self.value() / 0x100_0000,
    {
        let bits: u32 = get_bits(self.0, 24, 32) & 255;
        let value: u32 = self.0;
        assert(bit_range(value, 24, 32) & 255 == value / 0x100_0000) by (bit_vector);
        bits as u8
    }

    /// The four channels in the order of the bytes of a pixel.
    pub open spec fn channels(&self) -> Seq<u8> {
        seq![
            (self.value() % 0x100) as u8,
            ((self.value() / 0x100) % 0x100) as u8,
            ((self.value() / 0x1_0000) % 0x100) as u8,
            (self.value() / 0x100_0000) as u8,
        ]
    }
}

/// The channels that a colour is made of are the channels that it gives back.
pub proof fn lemma_channels_round_trip(r: u8, g: u8, b: u8, a: u8, value: u32)
    requires
        value == r + g * 0x100 + b * 0x1_0000 + a * 0x100_0000,
    ensures
        value % 0x100 == r,
        (value / 0x100) % 0x100 == g,
        (value / 0x1_0000) % 0x100 == b,
        value / 0x100_0000 == a,
{
}

/// A colour is the colour of its word.
pub proof fn lemma_colour_of_value(colour: Colour)
    ensures
        colour == Colour::of(colour.value()),
        forall|value: u32| #[trigger] Colour::of(value).value() == value,
{
}

/// A colour code is the code of its two colours.
pub proof fn lemma_colour_code_of(code: ColourCode)
    ensures
        code == ColourCode::of(code.foreground_colour(), code.background_colour()),
        forall|foreground: Colour, background: Colour|
            (#[trigger] ColourCode::of(foreground, background)).foreground_colour() == foreground
                && ColourCode::of(foreground, background).background_colour() == background,
{
}

/// The colours of text: that of the glyphs and that behind them.
#[derive(Debug, Clone, Copy, PartialEq, Eq, Structural)]
pub struct ColourCode(Colour, Colour);

impl ColourCode {
    /// The colour of the glyphs.
    pub closed spec fn foreground_colour(&self) -> Colour {
        self.0
    }

    /// The colour behind the glyphs.
    pub closed spec fn background_colour(&self) -> Colour {
        self.1
    }

    /// The colour code with the given colours.
    pub closed spec fn of(foreground: Colour, background: Colour) -> ColourCode {
        ColourCode(foreground, background)
    }

    /// The colour code with the given colours.
    pub fn new(foreground: Colour, background: Colour) -> (code: Self)
        ensures
            code == ColourCode::of(foreground, background),
            code.foreground_colour() == foreground,
            code.background_colour() == background,
    {
        Self(foreground, background)
    }

    /// The colour of the glyphs.
    pub fn foreground(&self) -> (colour: Colour)
        ensures
            colour == self.foreground_colour(),
    {
        self.0
    }

    /// The colour behind the glyphs.
    pub fn background(&self) -> (colour: Colour)
        ensures
            colour == self.background_colour(),
    {
        self.1
    }
}

} // verus!
