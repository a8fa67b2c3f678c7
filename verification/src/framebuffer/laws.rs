//! What holds of the console as a whole.

use vstd::prelude::*;

use crate::font;
use crate::font::GLYPH_HEIGHT;
use crate::framebuffer;
use crate::framebuffer::{
    FrameBufferInfo, PixelFormat, ScreenModel, ADVANCE, BACKGROUND, BORDER, FOREGROUND, LINE_HEIGHT,
};

verus! {

/// The bytes of a pixel.
pub open spec fn pixel_at(info: FrameBufferInfo, bytes: Seq<u8>, x: int, y: int) -> Seq<u8> {
    let offset = (y * info.stride + x) * info.bytes_per_pixel;
    bytes.subrange(offset, offset + info.bytes_per_pixel)
}

/// The bytes of a pixel that got a colour.
pub open spec fn coloured(info: FrameBufferInfo, before: Seq<u8>, rgb: Seq<u8>) -> Seq<u8> {
    Seq::new(before.len(), |k: int| framebuffer::pixel_byte(info, rgb, k, before[k]))
}

/// Painting gives exactly the pixels of the picture their colours.
pub proof fn law_painting_is_by_pixel(
    info: FrameBufferInfo,
    bytes: Seq<u8>,
    picture: spec_fn(int, int) -> Option<Seq<u8>>,
    x: int,
    y: int,
)
    requires
        info.fits(bytes.len() as int),
        0 <= x < info.width,
        0 <= y < info.height,
    ensures
        pixel_at(info, framebuffer::painted(info, bytes, picture), x, y) == match picture(x, y) {
            Some(rgb) => coloured(info, pixel_at(info, bytes, x, y), rgb),
            None => pixel_at(info, bytes, x, y),
        },
{
    framebuffer::lemma_pixel_offset(info, bytes.len() as int, x, y);
    let offset = (y * info.stride + x) * info.bytes_per_pixel;
    let after = framebuffer::painted(info, bytes, picture);
    let target = match picture(x, y) {
        Some(rgb) => coloured(info, pixel_at(info, bytes, x, y), rgb),
        None => pixel_at(info, bytes, x, y),
    };
    assert forall|k: int| 0 <= k < info.bytes_per_pixel implies (#[trigger] pixel_at(
        info,
        after,
        x,
        y,
    )[k]) == target[k] by {
        let i = offset + k;
        let pixel = i / (info.bytes_per_pixel as int);
        assert(pixel % (info.stride as int) == x && pixel / (info.stride as int) == y);
        assert(i % (info.bytes_per_pixel as int) == k);
    }
    assert(pixel_at(info, after, x, y) =~= target);
}

/// Scrolling moves every pixel up by the height of a line, and leaves an empty line at
/// the bottom of the screen.
pub proof fn law_scrolling_moves_lines_up(
    info: FrameBufferInfo,
    screen: ScreenModel,
    x: int,
    y: int,
)
    requires
        info.fits(screen.bytes.len() as int),
        info.scrolls(screen.bytes.len() as int),
        0 <= x < info.width,
        0 <= y < info.height,
    ensures
        y + LINE_HEIGHT < info.height ==> pixel_at(info, screen.scrolled(info).bytes, x, y)
            == pixel_at(info, screen.bytes, x, y + LINE_HEIGHT),
        y + LINE_HEIGHT >= info.height ==> pixel_at(info, screen.scrolled(info).bytes, x, y)
            == coloured(
            info,
            pixel_at(info, screen.scrolled(info).bytes, x, y),
            BACKGROUND@,
        ),
{
    let count = LINE_HEIGHT * info.stride * info.bytes_per_pixel;
    assert(0 <= count) by (nonlinear_arith)
        requires
            count == LINE_HEIGHT * info.stride * info.bytes_per_pixel,
    ;
    let moved = framebuffer::moved_up(screen.bytes, count);
    assert(moved.len() == screen.bytes.len());
    let picture = framebuffer::blank_below(info.height - LINE_HEIGHT);
    law_painting_is_by_pixel(info, moved, picture, x, y);
    if y + LINE_HEIGHT < info.height {
        framebuffer::lemma_pixel_offset(info, screen.bytes.len() as int, x, y);
        framebuffer::lemma_pixel_offset(info, screen.bytes.len() as int, x, y + LINE_HEIGHT);
        let stride = info.stride as int;
        let size = info.bytes_per_pixel as int;
        assert(((y + LINE_HEIGHT) * stride + x) * size == (y * stride + x) * size + LINE_HEIGHT
            * stride * size) by (nonlinear_arith);
        assert(pixel_at(info, moved, x, y) =~= pixel_at(info, screen.bytes, x, y + LINE_HEIGHT));
    } else {
        let before = pixel_at(info, moved, x, y);
        assert(coloured(info, coloured(info, before, BACKGROUND@), BACKGROUND@) =~= coloured(
            info,
            before,
            BACKGROUND@,
        ));
    }
}

/// After clearing, every pixel of the screen has the background colour.
pub proof fn law_clearing_blanks_every_pixel(
    info: FrameBufferInfo,
    screen: ScreenModel,
    x: int,
    y: int,
)
    requires
        info.fits(screen.bytes.len() as int),
        0 <= x < info.width,
        0 <= y < info.height,
    ensures
        pixel_at(info, screen.cleared(info).bytes, x, y) == coloured(
            info,
            pixel_at(info, screen.bytes, x, y),
            BACKGROUND@,
        ),
{
    law_painting_is_by_pixel(info, screen.bytes, framebuffer::blank(), x, y);
}

/// Writing keeps the place of the next letter within its bounds and the framebuffer at
/// its length.
pub proof fn law_writing_stays_within(info: FrameBufferInfo, screen: ScreenModel, text: Seq<char>)
    requires
        screen.within(info),
        screen.text_scrolls(info, text) ==> info.scrolls(screen.bytes.len() as int),
    ensures
        screen.with_text(info, text).within(info),
        screen.with_text(info, text).bytes.len() == screen.bytes.len(),
    decreases text.len(),
{
    if text.len() > 0 {
        let front = text.drop_last();
        let before = screen.with_text(info, front);
        let character = text.last();
        if screen.text_scrolls(info, front) {
            let i = choose|i: int|
                0 <= i < front.len() && (#[trigger] screen.with_text(
                    info,
                    front.take(i),
                )).text_character_scrolls(info, front[i]);
            assert(front.take(i) =~= text.take(i));
            assert(screen.with_text(info, text.take(i)).text_character_scrolls(info, text[i]));
        }
        law_writing_stays_within(info, screen, front);
        assert(text.take(text.len() - 1) =~= front);
        assert(before.text_character_scrolls(info, character) ==> screen.text_scrolls(info, text));
        if character == '\t' {
            lemma_spaces_stay_within(info, before, 4);
        } else if character != '\r' {
            if (character as int) < 128 {
                lemma_character_stays_within(info, before, character);
            } else {
                lemma_character_stays_within(info, before, '?');
            }
        }
    }
}

proof fn lemma_spaces_stay_within(info: FrameBufferInfo, screen: ScreenModel, count: nat)
    requires
        screen.within(info),
        forall|i: nat|
            i < count && (#[trigger] screen.with_spaces(info, i)).character_scrolls(info, ' ')
                ==> info.scrolls(screen.bytes.len() as int),
    ensures
        screen.with_spaces(info, count).within(info),
        screen.with_spaces(info, count).bytes.len() == screen.bytes.len(),
    decreases count,
{
    if count > 0 {
        lemma_spaces_stay_within(info, screen, (count - 1) as nat);
        lemma_character_stays_within(info, screen.with_spaces(info, (count - 1) as nat), ' ');
    }
}

proof fn lemma_character_stays_within(
    info: FrameBufferInfo,
    screen: ScreenModel,
    character: char,
)
    requires
        screen.within(info),
        screen.character_scrolls(info, character) ==> info.scrolls(screen.bytes.len() as int),
    ensures
        screen.with_character(info, character).within(info),
        screen.with_character(info, character).bytes.len() == screen.bytes.len(),
{
    let count = LINE_HEIGHT * info.stride * info.bytes_per_pixel;
    assert(0 <= count) by (nonlinear_arith)
        requires
            count == LINE_HEIGHT * info.stride * info.bytes_per_pixel,
    ;
}

/// On a screen with room for one letter, letters touch nothing but the pixels inside the
/// border: all others stay as they were, or come from a scrolled screen.
pub proof fn law_letters_stay_inside_border(
    info: FrameBufferInfo,
    screen: ScreenModel,
    rows: Seq<Seq<u8>>,
    x: int,
    y: int,
)
    requires
        screen.within(info),
        info.width >= 2 * BORDER + ADVANCE,
        info.height >= 2 * BORDER + GLYPH_HEIGHT,
    ensures
        ({
            let at = if screen.column + ADVANCE + BORDER > info.width {
                screen.on_new_line(info)
            } else {
                screen
            };
            &&& BORDER <= at.column && at.column + ADVANCE + BORDER <= info.width
            &&& BORDER <= at.row && at.row + GLYPH_HEIGHT + BORDER <= info.height
            &&& framebuffer::glyph_at(rows, at.column, at.row)(x, y) is Some ==> BORDER <= x
                < info.width - BORDER && BORDER <= y < info.height - BORDER
        }),
{
}

/// Printing two texts is printing them as one.
pub proof fn law_texts_are_printed_in_order(
    info: FrameBufferInfo,
    screen: ScreenModel,
    first: Seq<char>,
    second: Seq<char>,
)
    ensures
        screen.with_text(info, first + second) == screen.with_text(info, first).with_text(
            info,
            second,
        ),
    decreases second.len(),
{
    if second.len() == 0 {
        assert(first + second =~= first);
    } else {
        law_texts_are_printed_in_order(info, screen, first, second.drop_last());
        assert((first + second).drop_last() =~= first + second.drop_last());
    }
}

/// A cursor that was shown over background leaves no trace once it is taken off.
pub proof fn law_cursor_leaves_no_trace(info: FrameBufferInfo, screen: ScreenModel)
    requires
        !screen.cursor,
        framebuffer::painted(
            info,
            screen.bytes,
            framebuffer::strip(screen.column, screen.row, BACKGROUND@),
        ) == screen.bytes,
    ensures
        screen.with_cursor(info).without_cursor(info) == screen,
{
    let lit = framebuffer::painted(
        info,
        screen.bytes,
        framebuffer::strip(screen.column, screen.row, FOREGROUND@),
    );
    let dark = framebuffer::strip(screen.column, screen.row, BACKGROUND@);
    assert(framebuffer::painted(info, lit, dark) =~= framebuffer::painted(
        info,
        screen.bytes,
        dark,
    ));
}

/// Letters and the cursor never share a pixel: the cursor lies between two lines.
pub proof fn law_cursor_covers_no_letter(
    rows: Seq<Seq<u8>>,
    column: int,
    row: int,
    lines: int,
    place: int,
    x: int,
    y: int,
)
    ensures
        !(framebuffer::strip(column, row, FOREGROUND@)(x, y) is Some && framebuffer::glyph_at(
            rows,
            place,
            row + lines * LINE_HEIGHT,
        )(x, y) is Some),
{
    assert(lines >= 1 ==> row + LINE_HEIGHT <= row + lines * LINE_HEIGHT) by (nonlinear_arith);
    assert(lines <= 0 ==> row + lines * LINE_HEIGHT <= row) by (nonlinear_arith);
}

/// Mixing goes from the background to the foreground: no intensity is the one, full
/// intensity the other, and every mix lies between them.
pub proof fn law_blend_lies_between(background: u8, foreground: u8, intensity: u8)
    ensures
        framebuffer::blended(background, foreground, 0) == background,
        framebuffer::blended(background, foreground, 255) == foreground,
        background <= foreground ==> background <= framebuffer::blended(
            background,
            foreground,
            intensity,
        ) <= foreground,
        foreground <= background ==> foreground <= framebuffer::blended(
            background,
            foreground,
            intensity,
        ) <= background,
{
    let b = background as int;
    let f = foreground as int;
    let a = intensity as int;
    assert(background * (255 - 255u8) + foreground * 255u8 == 255 * f) by (nonlinear_arith)
        requires
            f == foreground,
    ;
    assert(b <= f ==> 255 * b <= b * (255 - a) + f * a <= 255 * f) by (nonlinear_arith)
        requires
            0 <= a <= 255,
    ;
    assert(f <= b ==> 255 * f <= b * (255 - a) + f * a <= 255 * b) by (nonlinear_arith)
        requires
            0 <= a <= 255,
    ;
}

/// The measures of the console in pixels: letters are eight apart, lines eighteen, and
/// eight stay free at each edge.
pub proof fn law_measures()
    ensures
        ADVANCE == 8,
        LINE_HEIGHT == 18,
        BORDER == 8,
        BACKGROUND@ == seq![0x0au8, 0x10, 0x20],
        FOREGROUND@ == seq![0xe6u8, 0xed, 0xf3],
{
    assert(BACKGROUND@ =~= seq![0x0au8, 0x10, 0x20]);
    assert(FOREGROUND@ =~= seq![0xe6u8, 0xed, 0xf3]);
}

/// The bytes of a pixel: red, green and blue in that order, or in the opposite one where
/// the format does not say red first; the mean of the three, rounded down, for grey. A
/// fourth byte is zero, and bytes beyond it are not touched.
pub proof fn law_pixel_bytes(info: FrameBufferInfo, rgb: Seq<u8>, index: int, before: u8)
    requires
        rgb.len() == 3,
        0 <= index,
    ensures
        ({
            let byte = framebuffer::pixel_byte(info, rgb, index, before);
            &&& index > 3 ==> byte == before
            &&& index == 3 ==> byte == 0
            &&& index < 3 ==> match info.pixel_format {
                PixelFormat::Rgb => byte == rgb[index],
                PixelFormat::U8 => 3 * byte <= rgb[0] + rgb[1] + rgb[2] < 3 * byte + 3,
                PixelFormat::Bgr => byte == rgb[2 - index],
                PixelFormat::Unknown { .. } => byte == rgb[2 - index],
            }
        }),
{
}

/// A mix is the weighted mean of the two, rounded down.
pub proof fn law_blend_is_weighted_mean(background: u8, foreground: u8, intensity: u8)
    ensures
        ({
            let sum = background * (255 - intensity) + foreground * intensity;
            let mixed = framebuffer::blended(background, foreground, intensity);
            255 * mixed <= sum < 255 * mixed + 255
        }),
{
    let b = background as int;
    let f = foreground as int;
    let a = intensity as int;
    assert(0 <= b * (255 - a) + f * a <= 255 * 255) by (nonlinear_arith)
        requires
            0 <= a <= 255,
            0 <= b <= 255,
            0 <= f <= 255,
    ;
}

/// A glyph covers seven columns and sixteen rows from its place on, with the shade of the
/// intensity at each; the cursor covers the two rows below them. Both leave every other
/// pixel alone.
pub proof fn law_glyph_and_cursor_places(
    rows: Seq<Seq<u8>>,
    column: int,
    row: int,
    rgb: Seq<u8>,
    x: int,
    y: int,
)
    ensures
        framebuffer::glyph_at(rows, column, row)(x, y) == if 0 <= x - column < 7 && 0 <= y - row
            < 16 {
            Some(framebuffer::shade(rows[y - row][x - column]))
        } else {
            None
        },
        framebuffer::strip(column, row, rgb)(x, y) == if 0 <= x - column < 7 && 16 <= y - row
            < 18 {
            Some(rgb)
        } else {
            None
        },
{
}

/// A shade is the mix of the two colours, channel by channel.
pub proof fn law_shades(intensity: u8, channel: int)
    requires
        0 <= channel < 3,
    ensures
        framebuffer::shade(intensity).len() == 3,
        framebuffer::shade(intensity)[channel] == framebuffer::blended(
            BACKGROUND@[channel],
            FOREGROUND@[channel],
            intensity,
        ),
        framebuffer::shade(0) == BACKGROUND@,
        framebuffer::shade(255) == FOREGROUND@,
{
    law_measures();
    assert(framebuffer::shade(0) =~= BACKGROUND@);
    assert(framebuffer::shade(255) =~= FOREGROUND@);
}

/// A new line starts at the left border, eighteen pixels further down. Where a letter there
/// would reach into the lower border, the screen moves up by one line instead, and the row
/// stays.
pub proof fn law_new_line(info: FrameBufferInfo, screen: ScreenModel)
    requires
        0 <= screen.row,
    ensures
        ({
            let next = screen.on_new_line(info);
            &&& next.column == 8 && next.cursor == screen.cursor
            &&& if screen.row + 18 + 16 + 8 <= info.height {
                next.row == screen.row + 18 && next.bytes == screen.bytes
            } else {
                next.row == screen.row && next.bytes == screen.scrolled(info).bytes
            }
        }),
{
}

/// A letter is drawn at its place and the next one belongs eight pixels to the right. A
/// letter that would reach into the right border starts a new line first.
pub proof fn law_letters_step(info: FrameBufferInfo, screen: ScreenModel, rows: Seq<Seq<u8>>)
    ensures
        ({
            let next = screen.with_glyph(info, rows);
            let at = if screen.column + 8 + 8 <= info.width {
                screen
            } else {
                screen.on_new_line(info)
            };
            &&& next.column == at.column + 8 && next.row == at.row && next.cursor == at.cursor
            &&& next.bytes == framebuffer::painted(
                info,
                at.bytes,
                framebuffer::glyph_at(rows, at.column, at.row),
            )
        }),
{
}

/// The characters of a text: a line feed starts a new line, a carriage return goes back to
/// the left border on the same row, a tab is four spaces, any other ASCII character is its
/// glyph, and what is not ASCII is a question mark.
pub proof fn law_text_characters(info: FrameBufferInfo, screen: ScreenModel, character: char)
    ensures
        screen.with_text_character(info, '\n') == screen.on_new_line(info),
        screen.with_text_character(info, '\r') == (ScreenModel { column: 8, ..screen }),
        screen.with_text_character(info, '\t') == screen.with_text(info, "    "@),
        character != '\n' && character != '\r' && character != '\t' ==> screen.with_text_character(
            info,
            character,
        ) == screen.with_glyph(
            info,
            font::shown_glyph(
                if (character as int) < 128 {
                    character
                } else {
                    '?'
                },
            ),
        ),
{
    reveal_strlit("    ");
    let spaces = "    "@;
    assert(spaces.drop_last() =~= seq![' ', ' ', ' ']);
    assert(seq![' ', ' ', ' '].drop_last() =~= seq![' ', ' ']);
    assert(seq![' ', ' '].drop_last() =~= seq![' ']);
    assert(seq![' '].drop_last() =~= Seq::<char>::empty());
    reveal_with_fuel(ScreenModel::with_text, 6);
    reveal_with_fuel(ScreenModel::with_spaces, 6);
}

/// A text is written character by character, from the first to the last.
pub proof fn law_text_is_written_in_order(
    info: FrameBufferInfo,
    screen: ScreenModel,
    text: Seq<char>,
    character: char,
)
    ensures
        screen.with_text(info, Seq::empty()) == screen,
        screen.with_text(info, text.push(character)) == screen.with_text(
            info,
            text,
        ).with_text_character(info, character),
{
    assert(text.push(character).drop_last() =~= text);
}

/// The cursor is shown by lighting its strip and taken off by darkening it, pixel by pixel;
/// neither moves the place of the next letter.
pub proof fn law_cursor_lights_its_strip(info: FrameBufferInfo, screen: ScreenModel, x: int, y: int)
    requires
        info.fits(screen.bytes.len() as int),
        0 <= x < info.width,
        0 <= y < info.height,
    ensures
        ({
            let lit = screen.with_cursor(info);
            let dark = screen.without_cursor(info);
            let under = screen.column <= x < screen.column + 7 && screen.row + 16 <= y
                < screen.row + 18;
            let before = pixel_at(info, screen.bytes, x, y);
            &&& lit.cursor && !dark.cursor
            &&& lit.column == screen.column && lit.row == screen.row
            &&& dark.column == screen.column && dark.row == screen.row
            &&& pixel_at(info, lit.bytes, x, y) == if !screen.cursor && under {
                coloured(info, before, FOREGROUND@)
            } else {
                before
            }
            &&& pixel_at(info, dark.bytes, x, y) == if screen.cursor && under {
                coloured(info, before, BACKGROUND@)
            } else {
                before
            }
        }),
{
    law_painting_is_by_pixel(
        info,
        screen.bytes,
        framebuffer::strip(screen.column, screen.row, FOREGROUND@),
        x,
        y,
    );
    law_painting_is_by_pixel(
        info,
        screen.bytes,
        framebuffer::strip(screen.column, screen.row, BACKGROUND@),
        x,
        y,
    );
}

/// Clearing and scrolling: a cleared screen starts at the upper left border without a
/// cursor, and a scrolled one has its next letter one line higher.
pub proof fn law_places_after_clearing_and_scrolling(info: FrameBufferInfo, screen: ScreenModel)
    ensures
        screen.cleared(info).column == 8,
        screen.cleared(info).row == 8,
        !screen.cleared(info).cursor,
        screen.row >= 18 ==> screen.scrolled(info).row == screen.row - 18,
        screen.scrolled(info).column == screen.column,
        screen.scrolled(info).cursor == screen.cursor,
{
}

/// A scrolled screen shows at each place what was eighteen rows below, and background in
/// the last eighteen rows.
pub proof fn law_scrolling_moves_eighteen_rows(
    info: FrameBufferInfo,
    screen: ScreenModel,
    x: int,
    y: int,
)
    requires
        info.fits(screen.bytes.len() as int),
        info.scrolls(screen.bytes.len() as int),
        0 <= x < info.width,
        0 <= y < info.height,
    ensures
        ({
            let after = pixel_at(info, screen.scrolled(info).bytes, x, y);
            if y + 18 < info.height {
                after == pixel_at(info, screen.bytes, x, y + 18)
            } else {
                after == coloured(info, after, BACKGROUND@)
            }
        }),
{
    law_scrolling_moves_lines_up(info, screen, x, y);
}

/// A sound layout fits exactly where the bytes of every pixel of the screen lie within the
/// length.
pub proof fn law_layout_fits_its_pixels(info: FrameBufferInfo, length: int)
    requires
        1 <= info.bytes_per_pixel,
        info.width <= info.stride,
        info.width + 64 <= usize::MAX,
        info.height + 64 <= usize::MAX,
    ensures
        info.fits(length) <==> forall|x: int, y: int|
            #![trigger lies_on_screen(info, x, y)]
            lies_on_screen(info, x, y) ==> (y * info.stride + x) * info.bytes_per_pixel
                + info.bytes_per_pixel <= length,
        info.scrolls(length) <==> (18 * info.stride) * info.bytes_per_pixel <= length,
{
    let size = info.bytes_per_pixel as int;
    let stride = info.stride as int;
    if info.fits(length) {
        assert forall|x: int, y: int|
            #![trigger lies_on_screen(info, x, y)]
            lies_on_screen(info, x, y) implies (y * info.stride + x) * info.bytes_per_pixel
            + info.bytes_per_pixel <= length by {
            framebuffer::lemma_pixel_offset(info, length, x, y);
        }
    }
    if info.width > 0 && info.height > 0 {
        let x = info.width - 1;
        let y = info.height - 1;
        assert(lies_on_screen(info, x, y));
        assert((y * stride + x) * size + size == (y * stride + info.width) * size) by (
            nonlinear_arith)
            requires
                x == info.width - 1,
        ;
    }
}

/// A place on the screen.
pub open spec fn lies_on_screen(info: FrameBufferInfo, x: int, y: int) -> bool {
    0 <= x < info.width && 0 <= y < info.height
}

/// When the screen scrolls: where a letter on the next line would reach into the lower
/// border, and for a letter only where it has no room in its line.
pub proof fn law_when_the_screen_scrolls(info: FrameBufferInfo, screen: ScreenModel, character: char)
    ensures
        screen.new_line_scrolls(info) <==> screen.row + 18 + 16 + 8 > info.height,
        screen.character_scrolls(info, '\n') == screen.new_line_scrolls(info),
        character != '\n' ==> (screen.character_scrolls(info, character) <==> screen.column + 8 + 8
            > info.width && screen.new_line_scrolls(info)),
        !screen.text_character_scrolls(info, '\r'),
{
}

/// Painting keeps the length of the framebuffer and every byte that belongs to no pixel of
/// the screen: those right of the screen, and those below it.
pub proof fn law_painting_leaves_the_rest(
    info: FrameBufferInfo,
    bytes: Seq<u8>,
    picture: spec_fn(int, int) -> Option<Seq<u8>>,
    i: int,
)
    requires
        info.fits(bytes.len() as int),
        0 <= i < bytes.len(),
        forall|x: int, y: int|
            #![trigger lies_on_screen(info, x, y)]
            lies_on_screen(info, x, y) ==> !((y * info.stride + x) * info.bytes_per_pixel <= i < (y
                * info.stride + x) * info.bytes_per_pixel + info.bytes_per_pixel),
    ensures
        framebuffer::painted(info, bytes, picture).len() == bytes.len(),
        framebuffer::painted(info, bytes, picture)[i] == bytes[i],
{
    let pixel = i / (info.bytes_per_pixel as int);
    let x = pixel % (info.stride as int);
    let y = pixel / (info.stride as int);
    if 0 <= x < info.width && 0 <= y < info.height {
        assert(lies_on_screen(info, x, y));
        framebuffer::lemma_pixel_offset(info, bytes.len() as int, x, y);
    }
}

/// Setting a pixel colours that pixel and no other one of the screen.
pub proof fn law_one_pixel_is_set(
    info: FrameBufferInfo,
    bytes: Seq<u8>,
    rgb: Seq<u8>,
    x: int,
    y: int,
    other_x: int,
    other_y: int,
)
    requires
        info.fits(bytes.len() as int),
        lies_on_screen(info, x, y),
        lies_on_screen(info, other_x, other_y),
        x != other_x || y != other_y,
    ensures
        ({
            let after = framebuffer::painted(info, bytes, framebuffer::single_pixel(x, y, rgb));
            &&& pixel_at(info, after, x, y) == coloured(info, pixel_at(info, bytes, x, y), rgb)
            &&& pixel_at(info, after, other_x, other_y) == pixel_at(info, bytes, other_x, other_y)
        }),
{
    let picture = framebuffer::single_pixel(x, y, rgb);
    law_painting_is_by_pixel(info, bytes, picture, x, y);
    law_painting_is_by_pixel(info, bytes, picture, other_x, other_y);
}

} // verus!
