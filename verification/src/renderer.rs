//! A text renderer for a linear framebuffer, with glyphs of eight by eight pixels.

use vstd::prelude::*;
use vstd::string::StrSliceExecFns;
use font8x8::UnicodeFonts;
use crate::colour::{Colour, ColourCode};
use crate::framebuffer::FramebufferInformation;

verus! {

/// The glyph that the basic font of the crate font8x8 has for a character:
/// eight rows of eight pixels, the leftmost pixel of a row in its lowest bit.
pub uninterp spec fn basic_font(key: char) -> Option<Seq<u8>>;

/// `UnicodeFonts::get` of the crate font8x8, on its constant `BASIC_FONTS`. It
/// searches a constant table for the character and returns the eight rows
/// that the table holds for it, or `None` where the table has no such
/// character. The contract names what comes back and states nothing of it.
#[verifier::external_body]
fn basic_font_glyph(key: char) -> (glyph: Option<[u8; 8]>)
    ensures
        glyph.is_some() == basic_font(key).is_some(),
        glyph matches Some(rows) ==> basic_font(key) == Some(rows@),
{
    font8x8::BASIC_FONTS.get(key)
}

/// Whether the renderer can write the character: a line feed, a carriage
/// return, or a character that the basic font has a glyph for.
pub open spec fn supported(character: char) -> bool {
    character == '\n' || character == '\r' || basic_font(character) is Some
}

/// What a renderer holds.
pub struct RendererState {
    /// The bytes of the framebuffer.
    pub pixels: Seq<u8>,
    pub information: FramebufferInformation,
    /// The column of the next glyph, in pixels.
    pub x_position: int,
    /// The row of the next glyph, in pixels.
    pub y_position: int,
    pub colour: ColourCode,
}

impl RendererState {
    /// The geometry fits the framebuffer: a pixel has one to four bytes, a
    /// line is no shorter than the screen is wide, the screen has room for a
    /// line of text, and the framebuffer holds every line.
    pub open spec fn wf(self) -> bool {
        &&& 1 <= self.information.bytes_per_pixel <= 4
        &&& 1 <= self.information.stride
        &&& self.information.horiz_resolution <= self.information.stride
        &&& 16 <= self.information.vert_resolution
        &&& self.information.stride * self.information.vert_resolution
            * self.information.bytes_per_pixel <= self.pixels.len()
        &&& self.pixels.len() <= u64::MAX
        &&& 0 <= self.x_position <= u64::MAX
        &&& 0 <= self.y_position <= u64::MAX
    }

    /// The index of the first byte of the pixel in column `x` of row `y`.
    pub open spec fn byte_offset(self, x: int, y: int) -> int {
        (y * self.information.stride + x) * self.information.bytes_per_pixel
    }

    /// Whether the bytes of the pixel lie in the framebuffer.
    pub open spec fn pixel_in_bounds(self, x: int, y: int) -> bool {
        &&& self.information.bytes_per_pixel <= 4
        &&& 0 <= y * self.information.stride + x <= u64::MAX
        &&& 0 <= self.byte_offset(x, y)
        &&& self.byte_offset(x, y) + self.information.bytes_per_pixel <= self.pixels.len()
        &&& self.pixels.len() <= u64::MAX
    }

    /// The pixel in column `x` of row `y` set to the colour: its bytes are the
    /// first channels of the colour, as many as a pixel has bytes.
    pub open spec fn put_pixel(self, x: int, y: int, colour: Colour) -> RendererState {
        let offset = self.byte_offset(x, y);
        RendererState {
            pixels: Seq::new(
                self.pixels.len(),
                |i: int|
                    if offset <= i < offset + self.information.bytes_per_pixel {
                        colour.channels()[i - offset]
                    } else {
                        self.pixels[i]
                    },
            ),
            ..self
        }
    }

    /// The colour of a pixel of a glyph: that of the text where the bit of the
    /// pixel is set in its row, and that behind the text where it is not.
    pub open spec fn glyph_colour(self, row: u8, bit: int) -> Colour {
        if row & (1u8 << (bit as u8)) == 0 {
            self.colour.background_colour()
        } else {
            self.colour.foreground_colour()
        }
    }

    /// The first `count` pixels of a glyph painted at the position of the
    /// renderer, row by row and in each row from the left.
    pub open spec fn paint(self, glyph: Seq<u8>, count: nat) -> RendererState
        decreases count,
    {
        if count == 0 {
            self
        } else {
            let done = (count - 1) as nat;
            self.paint(glyph, done).put_pixel(
                self.x_position + done % 8,
                self.y_position + done / 8,
                self.glyph_colour(glyph[done as int / 8], done as int % 8),
            )
        }
    }

    /// Whether every pixel of a glyph of `rows` rows at the position of the
    /// renderer lies in the framebuffer.
    pub open spec fn cell_in_bounds(self, rows: int) -> bool {
        &&& self.x_position + 8 <= u64::MAX
        &&& self.y_position + rows <= u64::MAX
        &&& forall|column: int, row: int|
            0 <= column < 8 && 0 <= row < rows ==> #[trigger] self.pixel_in_bounds(
                self.x_position + column,
                self.y_position + row,
            )
    }

    /// The glyph painted at the position of the renderer, which then moves on
    /// by the width of a glyph.
    pub open spec fn put_bytes(self, glyph: Seq<u8>) -> RendererState {
        RendererState {
            x_position: self.x_position + 8,
            ..self.paint(glyph, 8 * glyph.len())
        }
    }

    /// Every byte of the framebuffer set to the lowest byte of the colour
    /// behind the text, and the position back at the upper left corner.
    pub open spec fn clear_screen(self) -> RendererState {
        RendererState {
            pixels: Seq::new(
                self.pixels.len(),
                |i: int| (self.colour.background_colour().value() % 0x100) as u8,
            ),
            x_position: 0,
            y_position: 0,
            ..self
        }
    }

    /// The position at the start of the line.
    pub open spec fn carriage_return(self) -> RendererState {
        RendererState { x_position: 0, ..self }
    }

    /// The position at the start of the next line of text, sixteen rows down.
    pub open spec fn newline(self) -> RendererState {
        RendererState { x_position: 0, y_position: self.y_position + 16, ..self }
    }

    /// A glyph written: first to the next line if the position is beyond the
    /// width of the screen, then on a cleared screen if the line is not above
    /// the last sixteen rows, and then the glyph is painted.
    pub open spec fn write_glyph(self, glyph: Seq<u8>) -> RendererState {
        let wrapped = if self.x_position >= self.information.horiz_resolution {
            self.newline()
        } else {
            self
        };
        let cleared = if wrapped.y_position >= self.information.vert_resolution - 16 {
            wrapped.clear_screen()
        } else {
            wrapped
        };
        cleared.put_bytes(glyph)
    }

    /// A character written: a line feed moves to the next line, a carriage
    /// return to the start of the line, and any other character is written
    /// with its glyph of the basic font.
    pub open spec fn write_char(self, character: char) -> RendererState {
        if character == '\n' {
            self.newline()
        } else if character == '\r' {
            self.carriage_return()
        } else {
            self.write_glyph(basic_font(character).unwrap())
        }
    }

    /// The characters written one after the other.
    pub open spec fn write_chars(self, characters: Seq<char>) -> RendererState
        decreases characters.len(),
    {
        if characters.len() == 0 {
            self
        } else {
            self.write_chars(characters.drop_last()).write_char(characters.last())
        }
    }
}

/// Painting keeps everything but the bytes of the framebuffer, and their number.
proof fn lemma_paint_keeps(state: RendererState, glyph: Seq<u8>, count: nat)
    ensures
        state.paint(glyph, count).information == state.information,
        state.paint(glyph, count).x_position == state.x_position,
        state.paint(glyph, count).y_position == state.y_position,
        state.paint(glyph, count).colour == state.colour,
        state.paint(glyph, count).pixels.len() == state.pixels.len(),
    decreases count,
{
    if count > 0 {
        lemma_paint_keeps(state, glyph, (count - 1) as nat);
    }
}

/// On a screen whose geometry fits the framebuffer, a glyph at a position
/// left of the right edge and above the last sixteen rows lies in the framebuffer.
proof fn lemma_cell_fits(state: RendererState)
    requires
        state.wf(),
        state.x_position < state.information.horiz_resolution || state.x_position == 0,
        state.y_position < state.information.vert_resolution - 16 || state.y_position == 0,
    ensures
        state.cell_in_bounds(8),
{
    let stride = state.information.stride as int;
    let height = state.information.vert_resolution as int;
    let bytes = state.information.bytes_per_pixel as int;
    let len = state.pixels.len() as int;
    assert(16 * stride <= stride * height && height <= stride * height && stride * height
        <= stride * height * bytes) by (nonlinear_arith)
        requires
            1 <= stride,
            16 <= height,
            1 <= bytes,
    ;
    assert forall|column: int, row: int| 0 <= column < 8 && 0 <= row < 8 implies #[trigger] state.pixel_in_bounds(
        state.x_position + column,
        state.y_position + row,
    ) by {
        let x = state.x_position + column;
        let y = state.y_position + row;
        assert(x <= stride + 6);
        assert(y <= height - 9);
        assert(0 <= y * stride + x && y * stride + x + 1 <= stride * height) by (nonlinear_arith)
            requires
                0 <= x <= stride + 6,
                0 <= y <= height - 9,
                1 <= stride,
                16 <= height,
        ;
        assert(0 <= (y * stride + x) * bytes && (y * stride + x) * bytes + bytes <= stride
            * height * bytes) by (nonlinear_arith)
            requires
                0 <= y * stride + x,
                y * stride + x + 1 <= stride * height,
                1 <= bytes,
        ;
    }
}

/// A screen with more pixels than a `u64` counts has more bytes as well.
proof fn lemma_screen_too_large(stride: int, height: int, bytes: int)
    by (nonlinear_arith)
    requires
        stride * height > u64::MAX,
        1 <= bytes,
    ensures
        stride * height * bytes > u64::MAX,
{
}

/// Renders text into a framebuffer.
pub struct DebugRenderer<'buffer> {
    buffer: &'buffer mut [u8],
    information: FramebufferInformation,
    x_position: u64,
    y_position: u64,
    colour: ColourCode,
}

impl<'buffer> View for DebugRenderer<'buffer> {
    type V = RendererState;

    closed spec fn view(&self) -> RendererState {
        RendererState {
            pixels: self.buffer@,
            information: self.information,
            x_position: self.x_position as int,
            y_position: self.y_position as int,
            colour: self.colour,
        }
    }
}

impl<'buffer> DebugRenderer<'buffer> {
    /// A renderer at the upper left corner of the framebuffer that writes
    /// white on black.
    pub fn new(buffer: &'buffer mut [u8], information: FramebufferInformation) -> (renderer: Self)
        ensures
            renderer@.pixels == old(buffer)@,
            renderer@.information == information,
            renderer@.x_position == 0,
            renderer@.y_position == 0,
            renderer@.colour == ColourCode::of(Colour::of(0xFFFFFF), Colour::of(0x000000)),
    {
        Self {
            buffer,
            information,
            x_position: 0,
            y_position: 0,
            colour: ColourCode::new(Colour::white(), Colour::black()),
        }
    }

    /// Whether the geometry of the screen fits the framebuffer, and the
    /// renderer can go down `lines` lines of text from where it is. Each
    /// character moves the renderer down by one line at most.
    pub fn can_write(&self, lines: usize) -> (ok: bool)
        ensures
            ok == (self@.wf() && self@.y_position + 16 * lines <= u64::MAX),
    {
        let information = self.information;
        let length: usize = self.buffer.len();
        if information.bytes_per_pixel < 1 || information.bytes_per_pixel > 4
            || information.stride < 1 || information.horiz_resolution > information.stride
            || information.vert_resolution < 16 {
            return false;
        }
        let pixels: u64 = match information.stride.checked_mul(information.vert_resolution) {
            Some(pixels) => pixels,
            None => {
                proof {
                    lemma_screen_too_large(
                        information.stride as int,
                        information.vert_resolution as int,
                        information.bytes_per_pixel as int,
                    );
                }
                return false;
            },
        };
        let bytes: u64 = match pixels.checked_mul(information.bytes_per_pixel) {
            Some(bytes) => bytes,
            None => {
                return false;
            },
        };
        if bytes > length as u64 {
            return false;
        }
        (u64::MAX - self.y_position) / 16 >= lines as u64
    }

    /// Fills the framebuffer with the lowest byte of the colour behind the
    /// text and moves to the upper left corner.
    pub fn clear_screen(&mut self)
        ensures
            final(self)@ == old(self)@.clear_screen(),
    {
        self.x_position = 0;
        self.y_position = 0;
        let value: u32 = self.colour.background().inner();
        let byte: u8 = (value % 0x100) as u8;
        let mut index: usize = 0;
        while index < self.buffer.len()
            invariant
                index <= self.buffer@.len(),
                self.buffer@.len() == old(self)@.pixels.len(),
                self.information == old(self).information,
                self.colour == old(self).colour,
                self.x_position == 0,
                self.y_position == 0,
                byte == (old(self)@.colour.background_colour().value() % 0x100) as u8,
                forall|i: int| 0 <= i < index ==> self.buffer@[i] == byte,
            decreases self.buffer@.len() - index,
        {
            self.buffer[index] = byte;
            index = index + 1;
        }
        assert(self@.pixels =~= old(self)@.clear_screen().pixels);
    }

    /// The height of the screen in pixels.
    pub fn height(&self) -> (height: u64)
        ensures
            height == self@.information.vert_resolution,
    {
        self.information.vert_resolution
    }

    /// Paints a glyph, one byte for each row, at the position of the
    /// renderer, which then moves on by the width of a glyph.
    pub fn put_bytes(&mut self, bytes: &[u8])
        requires
            old(self)@.cell_in_bounds(bytes@.len() as int),
        ensures
            final(self)@ == old(self)@.put_bytes(bytes@),
    {
        let ghost start = self@;
        let mut y: usize = 0;
        while y < bytes.len()
            invariant
                y <= bytes@.len(),
                start == old(self)@,
                start.cell_in_bounds(bytes@.len() as int),
                self@ == start.paint(bytes@, (8 * y) as nat),
            decreases bytes@.len() - y,
        {
            let byte: u8 = bytes[y];
            let mut bit: u8 = 0;
            while bit < 8
                invariant
                    y < bytes@.len(),
                    bit <= 8,
                    byte == bytes@[y as int],
                    start.cell_in_bounds(bytes@.len() as int),
                    self@ == start.paint(bytes@, (8 * y + bit) as nat),
                decreases 8 - bit,
            {
                proof {
                    lemma_paint_keeps(start, bytes@, (8 * y + bit) as nat);
                    assert(start.pixel_in_bounds(start.x_position + bit, start.y_position + y));
                    assert((8 * y + bit) / 8 == y && (8 * y + bit) % 8 == bit);
                }
                let colour = if byte & (1u8 << bit) == 0 {
                    self.colour.background()
                } else {
                    self.colour.foreground()
                };
                self.put_pixel(self.x_position + bit as u64, self.y_position + y as u64, colour);
                bit = bit + 1;
            }
            y = y + 1;
        }
        proof {
            lemma_paint_keeps(start, bytes@, (8 * y) as nat);
        }
        self.x_position = self.x_position + 8;
    }

    /// Sets the colours of the text that follows.
    pub fn set_colour_code(&mut self, colour: ColourCode)
        ensures
            final(self)@ == (RendererState { colour, ..old(self)@ }),
    {
        if colour != self.colour {
            self.colour = colour;
        }
    }

    /// The width of the screen in pixels.
    pub fn width(&self) -> (width: u64)
        ensures
            width == self@.information.horiz_resolution,
    {
        self.information.horiz_resolution
    }

    /// Sets the pixel in column `x` of row `y` to the colour.
    pub fn put_pixel(&mut self, x: u64, y: u64, colour: Colour)
        requires
            old(self)@.pixel_in_bounds(x as int, y as int),
        ensures
            final(self)@ == old(self)@.put_pixel(x as int, y as int, colour),
    {
        let stride: u64 = self.information.stride;
        let bytes_per_pixel: u64 = self.information.bytes_per_pixel;
        let pixel_offset: u64 = y * stride + x;
        let channels: [u8; 4] = [
            colour.get_r_bit(),
            colour.get_g_bit(),
            colour.get_b_bit(),
            colour.get_a_bit(),
        ];
        let byte_offset: u64 = pixel_offset * bytes_per_pixel;
        let length: usize = self.buffer.len();
        let mut index: u64 = 0;
        while index < bytes_per_pixel
            invariant
                index <= bytes_per_pixel <= 4,
                self.buffer@.len() == length,
                byte_offset + bytes_per_pixel <= self.buffer@.len(),
                self.buffer@.len() == old(self)@.pixels.len(),
                byte_offset == old(self)@.byte_offset(x as int, y as int),
                bytes_per_pixel == old(self)@.information.bytes_per_pixel,
                channels@ == colour.channels(),
                self.information == old(self).information,
                self.colour == old(self).colour,
                self.x_position == old(self).x_position,
                self.y_position == old(self).y_position,
                forall|i: int|
                    0 <= i < self.buffer@.len() ==> self.buffer@[i] == if byte_offset <= i
                        < byte_offset + index {
                        colour.channels()[i - byte_offset]
                    } else {
                        old(self)@.pixels[i]
                    },
            decreases bytes_per_pixel - index,
        {
            self.buffer[(byte_offset + index) as usize] = channels[index as usize];
            index = index + 1;
        }
        assert(self@.pixels =~= old(self)@.put_pixel(x as int, y as int, colour).pixels);
    }

    /// Writes a glyph of eight rows: on the next line if the position is
    /// beyond the width of the screen, and on a cleared screen if the line
    /// is not above the last sixteen rows.
    pub fn write_glyph(&mut self, glyph: &[u8; 8])
        requires
            old(self)@.wf(),
            old(self)@.y_position + 16 <= u64::MAX,
        ensures
            final(self)@ == old(self)@.write_glyph(glyph@),
            final(self)@.wf(),
            final(self)@.y_position <= old(self)@.y_position + 16,
    {
        if self.x_position >= self.width() {
            self.newline();
        }
        if self.y_position >= self.height() - 16 {
            self.clear_screen();
        }
        proof {
            lemma_cell_fits(self@);
            lemma_paint_keeps(self@, glyph@, 64);
        }
        self.put_bytes(glyph);
    }

    /// Writes a character that the basic font has a glyph for, or a line feed
    /// or a carriage return.
    pub fn write_char(&mut self, character: char)
        requires
            old(self)@.wf(),
            old(self)@.y_position + 16 <= u64::MAX,
            supported(character),
        ensures
            final(self)@ == old(self)@.write_char(character),
            final(self)@.wf(),
            final(self)@.y_position <= old(self)@.y_position + 16,
    {
        if character == '\n' {
            self.newline();
        } else if character == '\r' {
            self.carriage_return();
        } else {
            match basic_font_glyph(character) {
                Some(char_from_basic_font) => {
                    self.write_glyph(&char_from_basic_font);
                },
                None => {},
            }
        }
    }

    /// Writes the characters of the string up to the first that the renderer
    /// cannot write, and returns how many it wrote: the length of the string
    /// where it wrote them all.
    pub fn write_str(&mut self, string: &str) -> (written: usize)
        requires
            old(self)@.wf(),
            old(self)@.y_position + 16 * string@.len() <= u64::MAX,
        ensures
            written <= string@.len(),
            forall|i: int| 0 <= i < written ==> supported(#[trigger] string@[i]),
            written < string@.len() ==> !supported(string@[written as int]),
            final(self)@ == old(self)@.write_chars(string@.take(written as int)),
            final(self)@.wf(),
            final(self)@.y_position <= old(self)@.y_position + 16 * written,
    {
        let length: usize = string.unicode_len();
        let mut index: usize = 0;
        while index < length
            invariant
                index <= length == string@.len(),
                self@.wf(),
                self@.y_position <= old(self)@.y_position + 16 * index,
                old(self)@.y_position + 16 * string@.len() <= u64::MAX,
                forall|i: int| 0 <= i < index ==> supported(#[trigger] string@[i]),
                self@ == old(self)@.write_chars(string@.take(index as int)),
            decreases length - index,
        {
            let character: char = string.get_char(index);
            if character != '\n' && character != '\r' && basic_font_glyph(character).is_none() {
                return index;
            }
            assert(string@.take(index + 1).drop_last() == string@.take(index as int));
            self.write_char(character);
            index = index + 1;
        }
        index
    }

    /// Moves to the start of the line.
    pub fn carriage_return(&mut self)
        ensures
            final(self)@ == old(self)@.carriage_return(),
    {
        self.x_position = 0;
    }

    /// Moves to the start of the next line of text.
    pub fn newline(&mut self)
        requires
            old(self)@.y_position + 16 <= u64::MAX,
        ensures
            final(self)@ == old(self)@.newline(),
    {
        self.y_position = self.y_position + 16;
        self.carriage_return();
    }
}

} // verus!
