use noto_sans_mono_bitmap::{get_raster, get_raster_width, FontWeight, RasterHeight};
use sol_os::font::{glyph_for, GLYPH_HEIGHT, GLYPH_WIDTH};
use sol_os::framebuffer::{
    blend, clear, panic_print, print, show_cursor, FrameBufferInfo, FramebufferWriter, PixelFormat,
    BACKGROUND, FOREGROUND,
};
use sol_os::keyboard::KeyEvent;
use sol_os::shell::editor::LineEditor;

fn layout(width: usize, height: usize, format: PixelFormat, bytes: usize) -> FrameBufferInfo {
    let stride = width + 3;
    FrameBufferInfo {
        byte_len: stride * height * bytes,
        width,
        height,
        pixel_format: format,
        bytes_per_pixel: bytes,
        stride,
    }
}

fn rgb() -> FrameBufferInfo {
    layout(64, 64, PixelFormat::Rgb, 4)
}

fn blank(info: FrameBufferInfo) -> Vec<u8> {
    vec![0xcc; info.byte_len]
}

fn pixel(info: FrameBufferInfo, bytes: &[u8], x: usize, y: usize) -> Vec<u8> {
    let at = (y * info.stride + x) * info.bytes_per_pixel;
    bytes[at..at + info.bytes_per_pixel].to_vec()
}

fn console(buffer: &mut [u8], info: FrameBufferInfo) -> Option<FramebufferWriter<'_>> {
    assert!(info.lies_within(buffer.len()));
    assert!(info.scrolls_within(buffer.len()));
    Some(FramebufferWriter::new(buffer, info))
}

/// What the console shows after a text on a cleared screen.
fn shown(info: FrameBufferInfo, text: &str) -> Vec<u8> {
    let mut buffer = blank(info);
    let mut writer = console(&mut buffer, info);
    clear(&mut writer);
    print(&mut writer, text);
    let bytes = writer.unwrap().bytes().to_vec();
    bytes
}

/// Whether the letter at a place of the screen is the glyph of a character.
fn has_glyph(info: FrameBufferInfo, bytes: &[u8], column: usize, row: usize, c: char) -> bool {
    let glyph = get_raster(c, FontWeight::Regular, RasterHeight::Size16).unwrap();
    for (y, line) in glyph.raster().iter().enumerate() {
        for (x, &intensity) in line.iter().enumerate() {
            let colour = blend(BACKGROUND, FOREGROUND, intensity);
            let expected = vec![colour[0], colour[1], colour[2], 0];
            if pixel(info, bytes, column + x, row + y) != expected {
                return false;
            }
        }
    }
    true
}

#[test]
fn glyphs_have_the_size_of_the_font() {
    assert_eq!(
        get_raster_width(FontWeight::Regular, RasterHeight::Size16),
        GLYPH_WIDTH
    );
    for code in 0u32..0x300 {
        let c = char::from_u32(code).unwrap();
        let glyph = glyph_for(c);
        assert_eq!(glyph.len(), GLYPH_HEIGHT);
        assert!(glyph.iter().all(|row| row.len() == GLYPH_WIDTH));
    }
}

#[test]
fn printable_characters_have_their_own_glyphs() {
    for code in 0x20u8..0x7f {
        let c = code as char;
        let raster = get_raster(c, FontWeight::Regular, RasterHeight::Size16).unwrap();
        assert_eq!(glyph_for(c), raster.raster());
    }
    assert_ne!(glyph_for('a'), glyph_for('b'));
    assert_eq!(glyph_for('\u{1b}'), glyph_for('?'));
}

#[test]
fn colours_mix_by_intensity() {
    assert_eq!(blend(BACKGROUND, FOREGROUND, 0), BACKGROUND);
    assert_eq!(blend(BACKGROUND, FOREGROUND, 255), FOREGROUND);
    assert_eq!(blend([0, 100, 255], [255, 200, 0], 51), [51, 120, 204]);
}

#[test]
fn clearing_fills_the_screen_and_nothing_else() {
    let info = rgb();
    let mut buffer = blank(info);
    let mut writer = console(&mut buffer, info);
    clear(&mut writer);
    let bytes = writer.unwrap().bytes().to_vec();
    assert_eq!(pixel(info, &bytes, 0, 0), vec![0x0a, 0x10, 0x20, 0]);
    assert_eq!(pixel(info, &bytes, 63, 63), vec![0x0a, 0x10, 0x20, 0]);
    assert_eq!(pixel(info, &bytes, 64, 0), vec![0xcc; 4]);
    clear(&mut None);
}

#[test]
fn pixel_formats_order_their_bytes() {
    let cases: [(PixelFormat, usize, Vec<u8>); 6] = [
        (PixelFormat::Rgb, 3, vec![0x0a, 0x10, 0x20]),
        (PixelFormat::Bgr, 4, vec![0x20, 0x10, 0x0a, 0]),
        (PixelFormat::U8, 1, vec![0x13]),
        (PixelFormat::U8, 2, vec![0x13, 0x13]),
        (
            PixelFormat::Unknown {
                red_position: 0,
                green_position: 8,
                blue_position: 16,
            },
            3,
            vec![0x20, 0x10, 0x0a],
        ),
        (PixelFormat::Bgr, 6, vec![0x20, 0x10, 0x0a, 0, 0xcc, 0xcc]),
    ];
    for (format, bytes, expected) in cases {
        let info = layout(40, 48, format, bytes);
        let mut buffer = blank(info);
        let mut writer = console(&mut buffer, info);
        clear(&mut writer);
        assert_eq!(pixel(info, writer.unwrap().bytes(), 5, 7), expected);
    }
}

#[test]
fn letters_stand_in_a_row() {
    let info = rgb();
    let bytes = shown(info, "Sol");
    assert!(has_glyph(info, &bytes, 8, 8, 'S'));
    assert!(has_glyph(info, &bytes, 16, 8, 'o'));
    assert!(has_glyph(info, &bytes, 24, 8, 'l'));
    assert_eq!(pixel(info, &bytes, 15, 12), vec![0x0a, 0x10, 0x20, 0]);
}

#[test]
fn line_breaks_and_tabs_move_the_letters() {
    let info = rgb();
    let bytes = shown(info, "a\nb");
    assert!(has_glyph(info, &bytes, 8, 26, 'b'));
    let bytes = shown(info, "ab\rc");
    assert!(has_glyph(info, &bytes, 8, 8, 'c'));
    assert!(has_glyph(info, &bytes, 16, 8, 'b'));
    let bytes = shown(info, "\tx");
    assert!(has_glyph(info, &bytes, 40, 8, 'x'));
    let bytes = shown(info, "é\u{7f}");
    assert!(has_glyph(info, &bytes, 8, 8, '?'));
    assert!(has_glyph(info, &bytes, 16, 8, '?'));
}

#[test]
fn full_lines_wrap() {
    let info = rgb();
    let bytes = shown(info, "1234567");
    assert!(has_glyph(info, &bytes, 48, 8, '6'));
    assert!(has_glyph(info, &bytes, 8, 26, '7'));
}

#[test]
fn full_screens_scroll() {
    let info = rgb();
    let bytes = shown(info, "a\nb\nc");
    assert!(has_glyph(info, &bytes, 8, 8, 'b'));
    assert!(has_glyph(info, &bytes, 8, 26, 'c'));
    assert_eq!(pixel(info, &bytes, 8, 63), vec![0x0a, 0x10, 0x20, 0]);
}

#[test]
fn texts_print_one_after_the_other() {
    let info = rgb();
    let mut buffer = blank(info);
    let mut writer = console(&mut buffer, info);
    clear(&mut writer);
    print(&mut writer, "ab");
    print(&mut writer, "c\nd");
    assert_eq!(writer.unwrap().bytes(), &shown(info, "abc\nd")[..]);
}

#[test]
fn cursor_is_solid_and_leaves_no_trace() {
    let info = rgb();
    let before = shown(info, "ab");
    let mut buffer = blank(info);
    let mut writer = console(&mut buffer, info);
    clear(&mut writer);
    print(&mut writer, "ab");
    show_cursor(&mut writer);
    show_cursor(&mut writer);
    {
        let bytes = writer.as_ref().unwrap().bytes();
        assert_eq!(pixel(info, bytes, 24, 24), vec![0xe6, 0xed, 0xf3, 0]);
        assert_eq!(pixel(info, bytes, 30, 25), vec![0xe6, 0xed, 0xf3, 0]);
        assert_eq!(pixel(info, bytes, 31, 25), vec![0x0a, 0x10, 0x20, 0]);
        assert_eq!(pixel(info, bytes, 24, 23), vec![0x0a, 0x10, 0x20, 0]);
    }
    print(&mut writer, "");
    assert_eq!(writer.unwrap().bytes(), &before[..]);
    show_cursor(&mut None);
}

#[test]
fn panic_text_needs_a_free_console() {
    let info = rgb();
    let mut buffer = blank(info);
    let mut writer = console(&mut buffer, info);
    clear(&mut writer);
    panic_print(None, "x");
    panic_print(Some(&mut writer), "y");
    assert_eq!(writer.unwrap().bytes(), &shown(info, "y")[..]);
    print(&mut None, "z");
}

#[test]
fn layouts_are_checked_against_the_buffer() {
    let info = rgb();
    let needed = (63 * 67 + 64) * 4;
    assert!(info.lies_within(needed));
    assert!(!info.lies_within(needed - 1));
    assert!(info.scrolls_within(18 * 67 * 4));
    assert!(!info.scrolls_within(18 * 67 * 4 - 1));
    let mut wide = info;
    wide.stride = 63;
    assert!(!wide.lies_within(usize::MAX));
    let mut huge = info;
    huge.stride = usize::MAX;
    assert!(!huge.lies_within(usize::MAX));
    assert!(!huge.scrolls_within(usize::MAX));
    let mut flat = info;
    flat.bytes_per_pixel = 0;
    assert!(!flat.lies_within(usize::MAX));
    let mut none = info;
    none.height = 0;
    assert!(none.lies_within(0));
}

#[test]
fn redrawn_line_stays_on_its_row() {
    let info = layout(696, 64, PixelFormat::Rgb, 4);
    let mut buffer = blank(info);
    let mut writer = console(&mut buffer, info);
    clear(&mut writer);
    print(&mut writer, "sol> ");
    let mut editor = LineEditor::new();
    for _ in 0..80 {
        let mut drawn = String::new();
        assert!(editor.edit(KeyEvent::Character(b'x'), &mut drawn));
        print(&mut writer, &drawn);
        show_cursor(&mut writer);
    }
    let full = format!("sol> {}", "x".repeat(80));
    print(&mut writer, "");
    assert_eq!(writer.as_ref().unwrap().bytes(), &shown(info, &full)[..]);
    for _ in 0..80 {
        let mut drawn = String::new();
        assert!(editor.edit(KeyEvent::Backspace, &mut drawn));
        print(&mut writer, &drawn);
        show_cursor(&mut writer);
    }
    print(&mut writer, "");
    assert_eq!(writer.unwrap().bytes(), &shown(info, "sol> ")[..]);
}

#[test]
fn letters_leave_the_border_alone() {
    let info = rgb();
    let bytes = shown(info, "MMMMMMMMMMMM");
    for at in 0..64 {
        for edge in [0, 3, 7, 56, 60, 63] {
            assert_eq!(pixel(info, &bytes, edge, at), vec![0x0a, 0x10, 0x20, 0]);
            assert_eq!(pixel(info, &bytes, at, edge), vec![0x0a, 0x10, 0x20, 0]);
        }
    }
}

#[test]
fn low_screens_take_text_that_does_not_scroll() {
    let info = layout(64, 17, PixelFormat::Rgb, 4);
    let mut buffer = blank(info);
    assert!(info.lies_within(buffer.len()));
    assert!(!info.scrolls_within(buffer.len()));
    let mut writer = Some(FramebufferWriter::new(&mut buffer, info));
    clear(&mut writer);
    print(&mut writer, "ab\rc");
    panic_print(Some(&mut writer), "d");
    let bytes = writer.unwrap().bytes().to_vec();
    for (column, character) in [(8, 'c'), (16, 'd')] {
        let glyph = get_raster(character, FontWeight::Regular, RasterHeight::Size16).unwrap();
        for (y, line) in glyph.raster().iter().enumerate().take(9) {
            for (x, &intensity) in line.iter().enumerate() {
                let colour = blend(BACKGROUND, FOREGROUND, intensity);
                assert_eq!(
                    pixel(info, &bytes, column + x, 8 + y),
                    vec![colour[0], colour[1], colour[2], 0]
                );
            }
        }
    }
}

#[test]
fn tabs_are_four_spaces_across_lines() {
    for text in ["\t", "abc\t", "abcde\t!", "\n\nabc\t\t\t"] {
        assert_eq!(shown(rgb(), text), shown(rgb(), &text.replace('\t', "    ")));
    }
}
