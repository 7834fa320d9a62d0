use font8x8::UnicodeFonts;
use lightsaber::colour::{Colour, ColourCode};
use lightsaber::firmware::{
    lightsaber_file_pages, lightsaber_find_rsdp, ConfigurationEntry, ConfigurationTable,
};
use lightsaber::framebuffer::{FramebufferInformation, PixelColourFormat};
use lightsaber::gdt::{
    lightsaber_kernel_initialize_global_descriptor_table,
    lightsaber_kernel_describe_global_descriptor_table, GdtDescriptor, GdtEntry, TssEntry,
};
use lightsaber::logger::{level_colour, level_label, lightsaber_log, Level};
use lightsaber::renderer::DebugRenderer;

#[test]
fn colour_channels() {
    let colour = Colour::from_rgba(0x12, 0x34, 0x56, 0x78);
    assert_eq!(colour.inner(), 0x7856_3412);
    assert_eq!(colour.get_r_bit(), 0x12);
    assert_eq!(colour.get_g_bit(), 0x34);
    assert_eq!(colour.get_b_bit(), 0x56);
    assert_eq!(colour.get_a_bit(), 0x78);
    assert_eq!(Colour::from_rgba(0, 0, 0, 0), Colour::black());
    assert_eq!(Colour::from_rgba(255, 255, 255, 0), Colour::white());
    assert_eq!(Colour::from_hex(0xDEDB18).get_g_bit(), 0xDB);
    assert_eq!(Colour::white().inner(), 0xFFFFFF);
}

#[test]
fn colour_code_keeps_both_colours() {
    let code = ColourCode::new(Colour::from_hex(0xFF0000), Colour::black());
    assert_eq!(code.foreground(), Colour::from_hex(0xFF0000));
    assert_eq!(code.background(), Colour::black());
}

fn information(width: u64, height: u64, bytes_per_pixel: u64) -> FramebufferInformation {
    FramebufferInformation {
        len_bytes: width * height * bytes_per_pixel,
        horiz_resolution: width,
        vert_resolution: height,
        pixel_colour_format: PixelColourFormat::Rgb,
        bytes_per_pixel,
        stride: width,
    }
}

#[test]
fn put_pixel_writes_the_channels() {
    let mut buffer = vec![0xAAu8; 32 * 32 * 3];
    let mut renderer = DebugRenderer::new(&mut buffer, information(32, 32, 3));
    assert_eq!(renderer.width(), 32);
    assert_eq!(renderer.height(), 32);
    renderer.put_pixel(2, 1, Colour::from_rgba(1, 2, 3, 4));
    drop(renderer);
    let offset = (32 + 2) * 3;
    assert_eq!(&buffer[offset..offset + 3], &[1, 2, 3]);
    assert!(buffer[..offset].iter().all(|byte| *byte == 0xAA));
    assert!(buffer[offset + 3..].iter().all(|byte| *byte == 0xAA));
}

#[test]
fn clear_screen_fills_with_the_background() {
    let mut buffer = vec![0xAAu8; 32 * 32 * 4];
    let mut renderer = DebugRenderer::new(&mut buffer, information(32, 32, 4));
    renderer.set_colour_code(ColourCode::new(Colour::white(), Colour::from_hex(0x123456)));
    renderer.clear_screen();
    drop(renderer);
    assert!(buffer.iter().all(|byte| *byte == 0x56));
}

fn pixel(buffer: &[u8], width: usize, x: usize, y: usize) -> [u8; 4] {
    let offset = (y * width + x) * 4;
    [buffer[offset], buffer[offset + 1], buffer[offset + 2], buffer[offset + 3]]
}

#[test]
fn write_char_paints_the_glyph_of_the_font() {
    let mut buffer = vec![0u8; 64 * 32 * 4];
    let mut renderer = DebugRenderer::new(&mut buffer, information(64, 32, 4));
    renderer.set_colour_code(ColourCode::new(Colour::from_hex(0x0000FF), Colour::from_hex(0x00FF00)));
    renderer.write_char('A');
    renderer.write_char('b');
    drop(renderer);
    for (index, character) in ['A', 'b'].into_iter().enumerate() {
        let glyph = font8x8::BASIC_FONTS.get(character).unwrap();
        assert!(glyph.iter().any(|row| *row != 0));
        for (y, row) in glyph.iter().enumerate() {
            for x in 0..8 {
                let expected =
                    if row & (1 << x) == 0 { [0x00, 0xFF, 0x00, 0x00] } else { [0xFF, 0, 0, 0] };
                assert_eq!(pixel(&buffer, 64, index * 8 + x, y), expected);
            }
        }
    }
    assert_eq!(pixel(&buffer, 64, 16, 0), [0, 0, 0, 0]);
}

#[test]
fn write_str_moves_to_the_next_line() {
    let mut buffer = vec![0u8; 16 * 64 * 4];
    let mut renderer = DebugRenderer::new(&mut buffer, information(16, 64, 4));
    assert_eq!(renderer.write_str("ab\rc\nde"), 7);
    // A third glyph in a line of two goes to the next line.
    assert_eq!(renderer.write_str("f"), 1);
    drop(renderer);
    let glyph = |character| font8x8::BASIC_FONTS.get(character).unwrap();
    let row_of = |x: usize, y: usize| -> u8 {
        let mut row = 0u8;
        for bit in 0..8 {
            if pixel(&buffer, 16, x + bit, y) == [0xFF, 0xFF, 0xFF, 0] {
                row |= 1 << bit;
            }
        }
        row
    };
    for y in 0..8 {
        // `c` was written over `a` after the carriage return.
        assert_eq!(row_of(0, y), glyph('c')[y]);
        assert_eq!(row_of(8, y), glyph('b')[y]);
        assert_eq!(row_of(0, 16 + y), glyph('d')[y]);
        assert_eq!(row_of(8, 16 + y), glyph('e')[y]);
        assert_eq!(row_of(0, 32 + y), glyph('f')[y]);
    }
}

#[test]
fn write_str_stops_at_a_character_without_glyph() {
    let mut buffer = vec![0u8; 64 * 32 * 4];
    let mut renderer = DebugRenderer::new(&mut buffer, information(64, 32, 4));
    assert_eq!(renderer.write_str("ok\u{e9}no"), 2);
    drop(renderer);
    assert!((0..8).any(|y| (0..16).any(|x| pixel(&buffer, 64, x, y) != [0, 0, 0, 0])));
    assert!((0..32).all(|y| (16..64).all(|x| pixel(&buffer, 64, x, y) == [0, 0, 0, 0])));
}

#[test]
fn screen_is_cleared_when_the_last_line_is_reached() {
    let mut buffer = vec![0x11u8; 16 * 32 * 4];
    let mut renderer = DebugRenderer::new(&mut buffer, information(16, 32, 4));
    assert_eq!(renderer.write_str("a\nb"), 3);
    drop(renderer);
    // The second line starts at row 16, which is not above the last sixteen
    // rows: the screen is cleared and `b` is written at the top.
    let glyph = font8x8::BASIC_FONTS.get('b').unwrap();
    for (y, row) in glyph.iter().enumerate() {
        for x in 0..8 {
            let expected = if row & (1 << x) == 0 { [0, 0, 0, 0] } else { [0xFF, 0xFF, 0xFF, 0] };
            assert_eq!(pixel(&buffer, 16, x, y), expected);
        }
    }
    assert_eq!(pixel(&buffer, 16, 8, 0), [0, 0, 0, 0]);
    assert_eq!(pixel(&buffer, 16, 0, 16), [0, 0, 0, 0]);
}

#[test]
fn put_bytes_paints_rows_from_the_lowest_bit() {
    let mut buffer = vec![0u8; 16 * 16];
    let mut renderer = DebugRenderer::new(&mut buffer, information(16, 16, 1));
    renderer.put_bytes(&[0b0000_0001, 0b1000_0000]);
    renderer.put_bytes(&[0b0000_0011]);
    drop(renderer);
    assert_eq!(&buffer[0..16], &[0xFF, 0, 0, 0, 0, 0, 0, 0, 0xFF, 0xFF, 0, 0, 0, 0, 0, 0]);
    assert_eq!(&buffer[16..24], &[0, 0, 0, 0, 0, 0, 0, 0xFF]);
}

#[test]
fn descriptor_table_entries() {
    assert_eq!(
        GdtEntry::new(1, 2, 3, 4, 5, 6),
        GdtEntry {
            limit_low: 1,
            base_low: 2,
            base_middle: 3,
            access_byte: 4,
            limit_high_flags: 5,
            base_high: 6,
        }
    );
    assert_eq!(GdtEntry::null(), GdtEntry::new(0, 0, 0, 0, 0, 0));
    assert_eq!(GdtDescriptor::new(47, 0x1000), GdtDescriptor { size: 47, offset: 0x1000 });
    let tss = TssEntry::null();
    assert_eq!(tss.iomap_base, 208);
    assert_eq!(tss.esp0, 0);
    assert_eq!(tss.trap, 0);
    assert_eq!(TssEntry::new(0x1234), GdtEntry::new(0, 0, 0x34, 0x04, 0xE9, 0));
    assert_eq!(TssEntry::new(u64::MAX), GdtEntry::new(0, 0, 0xFF, 0xCF, 0xE9, 0));
    let table = lightsaber_kernel_initialize_global_descriptor_table(0x1234);
    assert_eq!(table[0], GdtEntry::null());
    assert_eq!(table[1], GdtEntry::new(0, 0, 0, 0x9A, 0xA0, 0));
    assert_eq!(table[2], GdtEntry::new(0, 0, 0, 0x92, 0xA0, 0));
    assert_eq!(table[3], GdtEntry::new(0, 0, 0, 0xFA, 0xA0, 0));
    assert_eq!(table[4], GdtEntry::new(0, 0, 0, 0xF2, 0xA0, 0));
    assert_eq!(table[5], TssEntry::new(0x1234));
    assert_eq!(
        lightsaber_kernel_describe_global_descriptor_table(0x8000),
        GdtDescriptor { size: 47, offset: 0x8000 }
    );
}

#[test]
fn log_record_is_written_in_the_colours_of_its_level() {
    assert_eq!(level_colour(Level::Error), Colour::from_hex(0xFF0000));
    assert_eq!(level_colour(Level::Warn), Colour::from_hex(0xDEDB18));
    assert_eq!(level_colour(Level::Info), Colour::from_hex(0x21AD11));
    assert_eq!(level_colour(Level::Debug), Colour::from_hex(0x116AAD));
    assert_eq!(level_colour(Level::Trace), Colour::from_hex(0x4F524E));
    assert_eq!(level_label(Level::Error), "ERROR");
    assert_eq!(level_label(Level::Warn), "WARN");
    assert_eq!(level_label(Level::Info), "INFO");
    assert_eq!(level_label(Level::Debug), "DEBUG");
    assert_eq!(level_label(Level::Trace), "TRACE");

    let mut buffer = vec![0u8; 256 * 64 * 4];
    let mut renderer = DebugRenderer::new(&mut buffer, information(256, 64, 4));
    assert!(lightsaber_log(&mut renderer, Level::Info, "up"));
    assert!(!lightsaber_log(&mut renderer, Level::Info, "caf\u{e9}"));
    drop(renderer);
    let glyph = |character| font8x8::BASIC_FONTS.get(character).unwrap();
    let text: Vec<char> = "[ INFO ]    - up".chars().collect();
    for (index, character) in text.iter().enumerate() {
        let ink = if (2..6).contains(&index) { [0x11, 0xAD, 0x21, 0] } else { [0xFF, 0xFF, 0xFF, 0] };
        for (y, row) in glyph(*character).iter().enumerate() {
            for x in 0..8 {
                let expected = if row & (1 << x) == 0 { [0, 0, 0, 0] } else { ink };
                assert_eq!(pixel(&buffer, 256, index * 8 + x, y), expected);
            }
        }
    }
}

#[test]
fn rsdp_is_the_first_acpi_table() {
    let entry = |table, address| ConfigurationEntry { table, address };
    let entries = vec![
        entry(ConfigurationTable::Other, 0x100),
        entry(ConfigurationTable::Acpi2, 0x200),
        entry(ConfigurationTable::Acpi, 0x300),
    ];
    assert_eq!(lightsaber_find_rsdp(&entries), Some(0x200));
    assert_eq!(lightsaber_find_rsdp(&vec![entry(ConfigurationTable::Acpi, 0x300)]), Some(0x300));
    assert_eq!(lightsaber_find_rsdp(&vec![entry(ConfigurationTable::Other, 0x100)]), None);
    assert_eq!(lightsaber_find_rsdp(&Vec::new()), None);
    assert_eq!(lightsaber_file_pages(0), 1);
    assert_eq!(lightsaber_file_pages(0xFFF), 1);
    assert_eq!(lightsaber_file_pages(0x1000), 2);
    assert_eq!(lightsaber_file_pages(0x12345), 0x13);
}

#[test]
fn renderer_checks_its_geometry() {
    let mut buffer = vec![0u8; 32 * 32 * 4];
    let renderer = DebugRenderer::new(&mut buffer, information(32, 32, 4));
    assert!(renderer.can_write(0));
    assert!(renderer.can_write(1000));
    assert!(!renderer.can_write(usize::MAX));
    drop(renderer);
    // The framebuffer is too small for the screen.
    let renderer = DebugRenderer::new(&mut buffer[..100], information(32, 32, 4));
    assert!(!renderer.can_write(0));
    drop(renderer);
    // The screen has no room for a line of text.
    let renderer = DebugRenderer::new(&mut buffer, information(32, 8, 4));
    assert!(!renderer.can_write(0));
    drop(renderer);
    // A pixel cannot have five bytes.
    let renderer = DebugRenderer::new(&mut buffer, information(8, 16, 5));
    assert!(!renderer.can_write(0));
}

#[test]
fn line_feed_and_carriage_return_move_the_position() {
    let mut buffer = vec![0u8; 16 * 64];
    let mut renderer = DebugRenderer::new(&mut buffer, information(16, 64, 1));
    renderer.put_bytes(&[0xFF]);
    renderer.newline();
    renderer.put_bytes(&[0xFF]);
    renderer.carriage_return();
    renderer.put_bytes(&[0x0F]);
    drop(renderer);
    assert_eq!(&buffer[0..16], &[0xFF, 0xFF, 0xFF, 0xFF, 0xFF, 0xFF, 0xFF, 0xFF, 0, 0, 0, 0, 0, 0, 0, 0]);
    assert_eq!(&buffer[16 * 16..16 * 16 + 8], &[0xFF, 0xFF, 0xFF, 0xFF, 0, 0, 0, 0]);
}

#[test]
fn write_glyph_wraps_and_paints() {
    let mut buffer = vec![0u8; 16 * 64];
    let mut renderer = DebugRenderer::new(&mut buffer, information(16, 64, 1));
    let glyph = [0x01, 0x02, 0x04, 0x08, 0x10, 0x20, 0x40, 0x80];
    renderer.write_glyph(&glyph);
    renderer.write_glyph(&glyph);
    // The line is full: the third glyph goes to the next line of text.
    renderer.write_glyph(&glyph);
    drop(renderer);
    for row in 0..8 {
        for column in 0..16 {
            let expected = if column % 8 == row { 0xFF } else { 0 };
            assert_eq!(buffer[row * 16 + column], expected);
        }
        for column in 0..16 {
            let expected = if column == row { 0xFF } else { 0 };
            assert_eq!(buffer[(16 + row) * 16 + column], expected);
        }
    }
}
