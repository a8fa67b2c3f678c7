//! The framebuffer console: text as pixels, line by line, with scrolling and a cursor.

pub mod laws;

use vstd::prelude::*;

use crate::font;
use crate::font::{GLYPH_HEIGHT, GLYPH_WIDTH};

verus! {

/// Pixels between two letters.
pub const LETTER_SPACING: usize = 1;

/// Pixels between two lines.
pub const LINE_SPACING: usize = 2;

/// Pixels between the text and the edge of the screen.
pub const BORDER: usize = 8;

pub const FOREGROUND: [u8; 3] = [0xe6, 0xed, 0xf3];

pub const BACKGROUND: [u8; 3] = [0x0a, 0x10, 0x20];

/// Pixels from one letter to the next.
pub const ADVANCE: usize = GLYPH_WIDTH + LETTER_SPACING;

/// Pixels from one line to the next.
pub const LINE_HEIGHT: usize = GLYPH_HEIGHT + LINE_SPACING;

/// How the bytes of a pixel give its colour.
#[derive(Debug, Clone, Copy, PartialEq, Eq, Structural)]
pub enum PixelFormat {
    Rgb,
    Bgr,
    U8,
    Unknown { red_position: u8, green_position: u8, blue_position: u8 },
}

/// The layout of a framebuffer. A row of pixels starts `stride` pixels after the one
/// above it.
#[derive(Debug, Clone, Copy, PartialEq, Eq, Structural)]
pub struct FrameBufferInfo {
    pub byte_len: usize,
    pub width: usize,
    pub height: usize,
    pub pixel_format: PixelFormat,
    pub bytes_per_pixel: usize,
    pub stride: usize,
}

impl FrameBufferInfo {
    /// The layout is sound and its pixels lie within `length` bytes: a pixel has a byte,
    /// and rows do not overlap, so that a pixel has bytes of its own. All pixels must lie
    /// there, because clearing paints all of them. The room above the width and the height
    /// keeps the place of the next letter, up to a line beyond the edge, a machine word.
    pub open spec fn fits(self, length: int) -> bool {
        &&& 1 <= self.bytes_per_pixel
        &&& self.width <= self.stride
        &&& self.width + 64 <= usize::MAX
        &&& self.height + 64 <= usize::MAX
        &&& self.width > 0 && self.height > 0 ==> ((self.height - 1) * self.stride + self.width)
            * self.bytes_per_pixel <= length
    }

    /// The bytes that scrolling moves the screen by lie within `length` bytes.
    pub open spec fn scrolls(self, length: int) -> bool {
        LINE_HEIGHT * self.stride * self.bytes_per_pixel <= length
    }

    /// Whether the pixels of the layout lie within `length` bytes.
    pub fn lies_within(&self, length: usize) -> (within: bool)
        ensures
            within == self.fits(length as int),
    {
        if self.bytes_per_pixel < 1 || self.width > self.stride || self.width > usize::MAX - 64
            || self.height > usize::MAX - 64 {
            return false;
        }
        if self.width == 0 || self.height == 0 {
            return true;
        }
        let rows: usize = match (self.height - 1).checked_mul(self.stride) {
            Some(rows) => rows,
            None => {
                proof {
                    lemma_product_grows(
                        (self.height - 1) * self.stride + self.width,
                        self.bytes_per_pixel as int,
                    );
                }
                return false;
            },
        };
        let pixels: usize = match rows.checked_add(self.width) {
            Some(pixels) => pixels,
            None => {
                proof {
                    lemma_product_grows(
                        (self.height - 1) * self.stride + self.width,
                        self.bytes_per_pixel as int,
                    );
                }
                return false;
            },
        };
        match pixels.checked_mul(self.bytes_per_pixel) {
            Some(bytes) => bytes <= length,
            None => false,
        }
    }

    /// Whether scrolling stays within `length` bytes.
    pub fn scrolls_within(&self, length: usize) -> (within: bool)
        requires
            self.bytes_per_pixel >= 1,
        ensures
            within == self.scrolls(length as int),
    {
        let pixels: usize = match LINE_HEIGHT.checked_mul(self.stride) {
            Some(pixels) => pixels,
            None => {
                proof {
                    lemma_product_grows(LINE_HEIGHT * self.stride, self.bytes_per_pixel as int);
                }
                return false;
            },
        };
        match pixels.checked_mul(self.bytes_per_pixel) {
            Some(bytes) => bytes <= length,
            None => false,
        }
    }
}

proof fn lemma_product_grows(a: int, b: int)
    requires
        0 <= a,
        1 <= b,
    ensures
        a <= a * b,
{
    assert(a <= a * b) by (nonlinear_arith)
        requires
            0 <= a,
            1 <= b,
    ;
}

/// The three bytes that a colour takes in a pixel.
pub open spec fn encoded(format: PixelFormat, rgb: Seq<u8>) -> Seq<u8> {
    match format {
        PixelFormat::Rgb => seq![rgb[0], rgb[1], rgb[2]],
        PixelFormat::U8 => {
            let gray = ((rgb[0] + rgb[1] + rgb[2]) / 3) as u8;
            seq![gray, gray, gray]
        },
        _ => seq![rgb[2], rgb[1], rgb[0]],
    }
}

/// Byte `index` of a pixel of the given colour. A fourth byte is cleared; bytes beyond it
/// stay as they are.
pub open spec fn pixel_byte(info: FrameBufferInfo, rgb: Seq<u8>, index: int, before: u8) -> u8 {
    if index < 3 {
        encoded(info.pixel_format, rgb)[index]
    } else if index == 3 {
        0
    } else {
        before
    }
}

/// The bytes after some pixels were given new colours. `colour` says which, by column and
/// row; pixels that are not on the screen are left alone.
pub open spec fn painted(
    info: FrameBufferInfo,
    bytes: Seq<u8>,
    colour: spec_fn(int, int) -> Option<Seq<u8>>,
) -> Seq<u8> {
    Seq::new(
        bytes.len(),
        |i: int|
            {
                let pixel = i / (info.bytes_per_pixel as int);
                let x = pixel % (info.stride as int);
                let y = pixel / (info.stride as int);
                if 0 <= x < info.width && 0 <= y < info.height {
                    match colour(x, y) {
                        Some(rgb) => pixel_byte(
                            info,
                            rgb,
                            i % (info.bytes_per_pixel as int),
                            bytes[i],
                        ),
                        None => bytes[i],
                    }
                } else {
                    bytes[i]
                }
            },
    )
}

/// One pixel of a colour.
pub open spec fn single_pixel(x: int, y: int, rgb: Seq<u8>) -> spec_fn(int, int) -> Option<
    Seq<u8>,
> {
    |a: int, b: int|
        if a == x && b == y {
            Some(rgb)
        } else {
            None
        }
}

/// One channel of a colour between two others.
pub open spec fn blended(background: u8, foreground: u8, intensity: u8) -> u8 {
    ((background * (255 - intensity) + foreground * intensity) / 255) as u8
}

/// Mixes two colours: no intensity gives the background, full intensity the foreground.
pub fn blend(background: [u8; 3], foreground: [u8; 3], intensity: u8) -> (mixed: [u8; 3])
    ensures
        forall|i: int|
            0 <= i < 3 ==> mixed@[i] == blended(background@[i], foreground@[i], intensity),
{
    [
        blend_channel(background[0], foreground[0], intensity),
        blend_channel(background[1], foreground[1], intensity),
        blend_channel(background[2], foreground[2], intensity),
    ]
}

fn blend_channel(background: u8, foreground: u8, intensity: u8) -> (mixed: u8)
    ensures
        mixed == blended(background, foreground, intensity),
{
    let alpha: u16 = intensity as u16;
    let inverse: u16 = 255 - alpha;
    assert(background * inverse + foreground * alpha <= 255 * 255) by (nonlinear_arith)
        requires
            0 <= background <= 255,
            0 <= foreground <= 255,
            0 <= alpha <= 255,
            inverse == 255 - alpha,
    ;
    assert(0 <= background * inverse) by (nonlinear_arith)
        requires
            0 <= background,
            0 <= inverse,
    ;
    assert(0 <= foreground * alpha) by (nonlinear_arith)
        requires
            0 <= foreground,
            0 <= alpha,
    ;
    (((background as u16) * inverse + (foreground as u16) * alpha) / 255) as u8
}

/// The screen: its bytes, the place of the next letter, and whether the cursor is shown
/// there.
#[verifier::ext_equal]
pub struct ScreenModel {
    pub bytes: Seq<u8>,
    pub column: int,
    pub row: int,
    pub cursor: bool,
}

/// All pixels in the background colour.
pub open spec fn blank() -> spec_fn(int, int) -> Option<Seq<u8>> {
    |a: int, b: int| Some(BACKGROUND@)
}

/// The pixel rows from `first` on in the background colour.
pub open spec fn blank_below(first: int) -> spec_fn(int, int) -> Option<Seq<u8>> {
    |a: int, b: int|
        if first <= b {
            Some(BACKGROUND@)
        } else {
            None
        }
}

/// The strip under a letter, where the cursor is shown.
pub open spec fn strip(column: int, row: int, rgb: Seq<u8>) -> spec_fn(int, int) -> Option<
    Seq<u8>,
> {
    |a: int, b: int|
        if column <= a < column + GLYPH_WIDTH && row + GLYPH_HEIGHT <= b < row + LINE_HEIGHT {
            Some(rgb)
        } else {
            None
        }
}

/// The colour of a pixel with the given intensity.
pub open spec fn shade(intensity: u8) -> Seq<u8> {
    Seq::new(3, |i: int| blended(BACKGROUND@[i], FOREGROUND@[i], intensity))
}

/// The pixels of a glyph at a place on the screen.
pub open spec fn glyph_at(rows: Seq<Seq<u8>>, column: int, row: int) -> spec_fn(
    int,
    int,
) -> Option<Seq<u8>> {
    |a: int, b: int|
        if column <= a < column + GLYPH_WIDTH && row <= b < row + GLYPH_HEIGHT {
            Some(shade(rows[b - row][a - column]))
        } else {
            None
        }
}

/// The bytes moved up by `count`. The last ones stay.
pub open spec fn moved_up(bytes: Seq<u8>, count: int) -> Seq<u8> {
    bytes.skip(count) + bytes.skip(bytes.len() - count)
}

impl ScreenModel {
    /// The bounds that the place of the next letter keeps.
    pub open spec fn within(self, info: FrameBufferInfo) -> bool {
        &&& BORDER <= self.column
        &&& self.column <= BORDER + ADVANCE || self.column + BORDER <= info.width
        &&& BORDER <= self.row
        &&& self.row == BORDER || self.row + GLYPH_HEIGHT + BORDER <= info.height
    }

    /// An empty screen.
    pub open spec fn cleared(self, info: FrameBufferInfo) -> ScreenModel {
        ScreenModel {
            bytes: painted(info, self.bytes, blank()),
            column: BORDER as int,
            row: BORDER as int,
            cursor: false,
        }
    }

    /// The screen moved up by one line, with an empty line below.
    pub open spec fn scrolled(self, info: FrameBufferInfo) -> ScreenModel {
        ScreenModel {
            bytes: painted(
                info,
                moved_up(self.bytes, LINE_HEIGHT * info.stride * info.bytes_per_pixel),
                blank_below(info.height - LINE_HEIGHT),
            ),
            row: if self.row < LINE_HEIGHT {
                0
            } else {
                self.row - LINE_HEIGHT
            },
            ..self
        }
    }

    /// The start of the next line. The screen scrolls where the line would not fit.
    pub open spec fn on_new_line(self, info: FrameBufferInfo) -> ScreenModel {
        let next = ScreenModel {
            column: BORDER as int,
            row: self.row + LINE_HEIGHT,
            ..self
        };
        if next.row + GLYPH_HEIGHT + BORDER > info.height {
            next.scrolled(info)
        } else {
            next
        }
    }

    /// Whether a new line makes the screen scroll.
    pub open spec fn new_line_scrolls(self, info: FrameBufferInfo) -> bool {
        self.row + LINE_HEIGHT + GLYPH_HEIGHT + BORDER > info.height
    }

    /// A glyph drawn, on the next line where this one is full.
    pub open spec fn with_glyph(self, info: FrameBufferInfo, rows: Seq<Seq<u8>>) -> ScreenModel {
        let at = if self.column + ADVANCE + BORDER > info.width {
            self.on_new_line(info)
        } else {
            self
        };
        ScreenModel {
            bytes: painted(info, at.bytes, glyph_at(rows, at.column, at.row)),
            column: at.column + ADVANCE,
            ..at
        }
    }

    /// Whether drawing a glyph makes the screen scroll: it has no room in its line, and
    /// there is no line below.
    pub open spec fn glyph_scrolls(self, info: FrameBufferInfo) -> bool {
        self.column + ADVANCE + BORDER > info.width && self.new_line_scrolls(info)
    }

    /// A character written. A line feed starts a new line.
    pub open spec fn with_character(self, info: FrameBufferInfo, character: char) -> ScreenModel {
        if character == '\n' {
            self.on_new_line(info)
        } else {
            self.with_glyph(info, font::shown_glyph(character))
        }
    }

    /// Whether writing a character makes the screen scroll.
    pub open spec fn character_scrolls(self, info: FrameBufferInfo, character: char) -> bool {
        if character == '\n' {
            self.new_line_scrolls(info)
        } else {
            self.glyph_scrolls(info)
        }
    }

    /// A number of spaces written.
    pub open spec fn with_spaces(self, info: FrameBufferInfo, count: nat) -> ScreenModel
        decreases count,
    {
        if count == 0 {
            self
        } else {
            self.with_spaces(info, (count - 1) as nat).with_character(info, ' ')
        }
    }

    /// A character of a text written: a carriage return goes back to the start of the
    /// line, a tab is four spaces, and what is not ASCII is a question mark.
    pub open spec fn with_text_character(self, info: FrameBufferInfo, character: char) -> Self {
        if character == '\r' {
            ScreenModel { column: BORDER as int, ..self }
        } else if character == '\t' {
            self.with_spaces(info, 4)
        } else if (character as int) < 128 {
            self.with_character(info, character)
        } else {
            self.with_character(info, '?')
        }
    }

    /// Whether writing a character of a text makes the screen scroll.
    pub open spec fn text_character_scrolls(self, info: FrameBufferInfo, character: char) -> bool {
        if character == '\r' {
            false
        } else if character == '\t' {
            exists|i: nat|
                i < 4 && (#[trigger] self.with_spaces(info, i)).character_scrolls(info, ' ')
        } else {
            self.character_scrolls(info, character)
        }
    }

    /// A text written, character by character.
    pub open spec fn with_text(self, info: FrameBufferInfo, text: Seq<char>) -> ScreenModel
        decreases text.len(),
    {
        if text.len() == 0 {
            self
        } else {
            self.with_text(info, text.drop_last()).with_text_character(info, text.last())
        }
    }

    /// Whether writing a text makes the screen scroll at any of its characters.
    pub open spec fn text_scrolls(self, info: FrameBufferInfo, text: Seq<char>) -> bool {
        exists|i: int|
            0 <= i < text.len() && (#[trigger] self.with_text(
                info,
                text.take(i),
            )).text_character_scrolls(info, text[i])
    }

    /// The screen without the cursor.
    pub open spec fn without_cursor(self, info: FrameBufferInfo) -> ScreenModel {
        if self.cursor {
            ScreenModel {
                bytes: painted(info, self.bytes, strip(self.column, self.row, BACKGROUND@)),
                cursor: false,
                ..self
            }
        } else {
            self
        }
    }

    /// The screen with the cursor.
    pub open spec fn with_cursor(self, info: FrameBufferInfo) -> ScreenModel {
        if self.cursor {
            self
        } else {
            ScreenModel {
                bytes: painted(info, self.bytes, strip(self.column, self.row, FOREGROUND@)),
                cursor: true,
                ..self
            }
        }
    }
}

/// Where a pixel lies, and that its bytes are the only ones that belong to it.
pub proof fn lemma_pixel_offset(info: FrameBufferInfo, length: int, x: int, y: int)
    requires
        info.fits(length),
        0 <= x < info.width,
        0 <= y < info.height,
    ensures
        0 <= y * info.stride + x,
        y * info.stride + x <= (y * info.stride + x) * info.bytes_per_pixel,
        (y * info.stride + x) * info.bytes_per_pixel + info.bytes_per_pixel <= length,
        forall|i: int|
            #![trigger i / (info.bytes_per_pixel as int)]
            0 <= i < length ==> (((i / (info.bytes_per_pixel as int)) % (info.stride as int) == x && (i
                / (info.bytes_per_pixel as int)) / (info.stride as int) == y) <==> (y
                * info.stride + x) * info.bytes_per_pixel <= i < (y * info.stride + x)
                * info.bytes_per_pixel + info.bytes_per_pixel),
        forall|i: int|
            #![trigger i % (info.bytes_per_pixel as int)]
            (y * info.stride + x) * info.bytes_per_pixel <= i < (y * info.stride + x)
                * info.bytes_per_pixel + info.bytes_per_pixel ==> i % (info.bytes_per_pixel as int)
                == i - (y * info.stride + x) * info.bytes_per_pixel,
{
    let stride = info.stride as int;
    let size = info.bytes_per_pixel as int;
    let pixel = y * stride + x;
    assert(0 <= pixel && pixel + 1 <= (info.height - 1) * stride + info.width) by (
        nonlinear_arith)
        requires
            0 <= x < info.width <= stride,
            0 <= y <= info.height - 1,
            pixel == y * stride + x,
    ;
    assert(pixel <= pixel * size && (pixel + 1) * size <= ((info.height - 1) * stride
        + info.width) * size && (pixel + 1) * size == pixel * size + size) by (nonlinear_arith)
        requires
            0 <= pixel,
            1 <= size,
            pixel + 1 <= (info.height - 1) * stride + info.width,
    ;
    vstd::arithmetic::div_mod::lemma_fundamental_div_mod_converse(pixel, stride, y, x);
    assert forall|i: int|
        #![trigger i / (info.bytes_per_pixel as int)]
        0 <= i < length implies (((i / size) % stride == x && (i / size) / stride == y) <==> pixel
        * size <= i < pixel * size + size) by {
        vstd::arithmetic::div_mod::lemma_fundamental_div_mod(i, size);
        vstd::arithmetic::div_mod::lemma_mod_bound(i, size);
        let p = i / size;
        vstd::arithmetic::div_mod::lemma_fundamental_div_mod(p, stride);
        vstd::arithmetic::mul::lemma_mul_is_commutative(stride, p / stride);
        assert((p % stride == x && p / stride == y) ==> p == pixel);
        vstd::arithmetic::mul::lemma_mul_is_commutative(size, p);
        if pixel * size <= i < pixel * size + size {
            vstd::arithmetic::div_mod::lemma_fundamental_div_mod_converse(
                i,
                size,
                pixel,
                i - pixel * size,
            );
        }
    }
    assert forall|i: int|
        #![trigger i % (info.bytes_per_pixel as int)]
        pixel * size <= i < pixel * size + size implies i % size == i - pixel * size by {
        vstd::arithmetic::div_mod::lemma_fundamental_div_mod_converse(
            i,
            size,
            pixel,
            i - pixel * size,
        );
    }
}

/// A console on a framebuffer.
pub struct FramebufferWriter<'a> {
    buffer: &'a mut [u8],
    info: FrameBufferInfo,
    column: usize,
    row: usize,
    cursor: bool,
}

impl<'a> FramebufferWriter<'a> {
    /// What the console shows.
    pub closed spec fn screen(&self) -> ScreenModel {
        ScreenModel {
            bytes: self.buffer@,
            column: self.column as int,
            row: self.row as int,
            cursor: self.cursor,
        }
    }

    /// The layout of the framebuffer.
    pub closed spec fn layout(&self) -> FrameBufferInfo {
        self.info
    }

    /// The pixels lie in the buffer, and the next letter has a proper place.
    pub open spec fn well_formed(&self) -> bool {
        &&& self.layout().fits(self.screen().bytes.len() as int)
        &&& self.screen().within(self.layout())
    }

    /// Whether the buffer is large enough to scroll.
    pub open spec fn can_scroll(&self) -> bool {
        self.layout().scrolls(self.screen().bytes.len() as int)
    }

    /// A console on a framebuffer, which stays as it is until it is written to.
    pub fn new(buffer: &'a mut [u8], info: FrameBufferInfo) -> (writer: Self)
        requires
            info.fits(old(buffer)@.len() as int),
        ensures
            writer.well_formed(),
            writer.layout() == info,
            writer.screen() == (ScreenModel {
                bytes: old(buffer)@,
                column: BORDER as int,
                row: BORDER as int,
                cursor: false,
            }),
    {
        FramebufferWriter { buffer, info, column: BORDER, row: BORDER, cursor: false }
    }

    /// The bytes of the framebuffer.
    pub fn bytes(&self) -> (bytes: &[u8])
        ensures
            bytes@ == self.screen().bytes,
    {
        &*self.buffer
    }

    /// Gives one pixel a colour. Pixels that are not on the screen are ignored.
    fn write_pixel(&mut self, x: usize, y: usize, rgb: [u8; 3])
        requires
            old(self).layout().fits(old(self).screen().bytes.len() as int),
        ensures
            final(self).layout() == old(self).layout(),
            final(self).screen() == (ScreenModel {
                bytes: painted(
                    old(self).layout(),
                    old(self).screen().bytes,
                    single_pixel(x as int, y as int, rgb@),
                ),
                ..old(self).screen()
            }),
    {
        let ghost before = self.buffer@;
        let ghost info = self.info;
        let ghost target = painted(info, before, single_pixel(x as int, y as int, rgb@));
        if x >= self.info.width || y >= self.info.height {
            assert(target =~= before);
            return;
        }
        let length: usize = self.buffer.len();
        proof {
            lemma_pixel_offset(info, length as int, x as int, y as int);
        }
        let offset: usize = (y * self.info.stride + x) * self.info.bytes_per_pixel;
        let color: [u8; 3] = match self.info.pixel_format {
            PixelFormat::Rgb => [rgb[0], rgb[1], rgb[2]],
            PixelFormat::Bgr => [rgb[2], rgb[1], rgb[0]],
            PixelFormat::U8 => {
                let gray: u8 = ((rgb[0] as u16 + rgb[1] as u16 + rgb[2] as u16) / 3) as u8;
                [gray, gray, gray]
            },
            _ => [rgb[2], rgb[1], rgb[0]],
        };
        assert(color@ =~= encoded(info.pixel_format, rgb@));
        let count: usize = if self.info.bytes_per_pixel < 3 {
            self.info.bytes_per_pixel
        } else {
            3
        };
        let mut index: usize = 0;
        while index < count
            invariant
                index <= count <= 3,
                count <= info.bytes_per_pixel,
                offset + info.bytes_per_pixel <= length,
                length == before.len(),
                self.buffer@.len() == length,
                self.info == info,
                self.column == old(self).column,
                self.row == old(self).row,
                self.cursor == old(self).cursor,
                forall|i: int| offset <= i < offset + index ==> self.buffer@[i] == color@[i - offset],
                forall|i: int|
                    0 <= i < length && !(offset <= i < offset + index) ==> self.buffer@[i]
                        == before[i],
            decreases count - index,
        {
            self.buffer[offset + index] = color[index];
            index += 1;
        }
        if self.info.bytes_per_pixel > 3 {
            self.buffer[offset + 3] = 0;
        }
        assert forall|i: int| 0 <= i < length implies self.buffer@[i] == target[i] by {
            let pixel = i / (info.bytes_per_pixel as int);
            if offset <= i < offset + info.bytes_per_pixel {
                assert(pixel % (info.stride as int) == x);
                assert(pixel / (info.stride as int) == y);
                assert(i % (info.bytes_per_pixel as int) == i - offset);
            } else {
                assert(!(pixel % (info.stride as int) == x && pixel / (info.stride as int) == y));
            }
        }
        assert(self.buffer@ =~= target);
    }
}

/// A rectangle of one colour, without its right and bottom edges.
pub open spec fn rectangle(left: int, right: int, top: int, bottom: int, rgb: Seq<u8>) -> spec_fn(
    int,
    int,
) -> Option<Seq<u8>> {
    |a: int, b: int|
        if left <= a < right && top <= b < bottom {
            Some(rgb)
        } else {
            None
        }
}

/// The pixels of a picture that come before a place, row by row.
spec fn before_place(
    picture: spec_fn(int, int) -> Option<Seq<u8>>,
    x: int,
    y: int,
) -> spec_fn(int, int) -> Option<Seq<u8>> {
    |a: int, b: int|
        if b < y || (b == y && a < x) {
            picture(a, b)
        } else {
            None
        }
}

/// Only what a picture has on the screen matters.
proof fn lemma_same_picture(
    info: FrameBufferInfo,
    bytes: Seq<u8>,
    f: spec_fn(int, int) -> Option<Seq<u8>>,
    g: spec_fn(int, int) -> Option<Seq<u8>>,
)
    requires
        forall|a: int, b: int|
            0 <= a < info.width && 0 <= b < info.height ==> #[trigger] f(a, b) == g(a, b),
    ensures
        painted(info, bytes, f) == painted(info, bytes, g),
{
    assert(painted(info, bytes, f) =~= painted(info, bytes, g));
}

/// Painting the next pixel of a picture.
proof fn lemma_next_pixel(
    info: FrameBufferInfo,
    bytes: Seq<u8>,
    picture: spec_fn(int, int) -> Option<Seq<u8>>,
    x: int,
    y: int,
    rgb: Seq<u8>,
)
    requires
        picture(x, y) == Some(rgb),
    ensures
        painted(
            info,
            painted(info, bytes, before_place(picture, x, y)),
            single_pixel(x, y, rgb),
        ) == painted(info, bytes, before_place(picture, x + 1, y)),
{
    assert(painted(
        info,
        painted(info, bytes, before_place(picture, x, y)),
        single_pixel(x, y, rgb),
    ) =~= painted(info, bytes, before_place(picture, x + 1, y)));
}

impl<'a> FramebufferWriter<'a> {
    /// Fills a rectangle, as far as it is on the screen.
    fn fill(&mut self, left: usize, right: usize, top: usize, bottom: usize, rgb: [u8; 3])
        requires
            old(self).layout().fits(old(self).screen().bytes.len() as int),
        ensures
            final(self).layout() == old(self).layout(),
            final(self).screen() == (ScreenModel {
                bytes: painted(
                    old(self).layout(),
                    old(self).screen().bytes,
                    rectangle(left as int, right as int, top as int, bottom as int, rgb@),
                ),
                ..old(self).screen()
            }),
    {
        let ghost before = self.screen();
        let ghost info = self.info;
        let ghost picture = rectangle(
            left as int,
            right as int,
            top as int,
            bottom as int,
            rgb@,
        );
        let mut y: usize = top;
        assert(painted(info, before.bytes, before_place(picture, 0, top as int))
            =~= before.bytes);
        while y < bottom
            invariant
                top <= y,
                y <= bottom || y == top,
                info.fits(before.bytes.len() as int),
                self.info == info,
                picture == rectangle(
                    left as int,
                    right as int,
                    top as int,
                    bottom as int,
                    rgb@,
                ),
                self.screen() == (ScreenModel {
                    bytes: painted(info, before.bytes, before_place(picture, 0, y as int)),
                    ..before
                }),
            decreases bottom - y,
        {
            let mut x: usize = left;
            proof {
                lemma_nothing_left_of(info, before.bytes, picture, left as int, y as int);
            }
            while x < right
                invariant
                    left <= x,
                    x <= right || x == left,
                    top <= y < bottom,
                    info.fits(before.bytes.len() as int),
                    self.info == info,
                    picture == rectangle(
                        left as int,
                        right as int,
                        top as int,
                        bottom as int,
                        rgb@,
                    ),
                    self.screen() == (ScreenModel {
                        bytes: painted(
                            info,
                            before.bytes,
                            before_place(picture, x as int, y as int),
                        ),
                        ..before
                    }),
                decreases right - x,
            {
                self.write_pixel(x, y, rgb);
                proof {
                    lemma_next_pixel(info, before.bytes, picture, x as int, y as int, rgb@);
                }
                x += 1;
            }
            assert(painted(info, before.bytes, before_place(picture, x as int, y as int))
                =~= painted(info, before.bytes, before_place(picture, 0, y + 1)));
            y += 1;
        }
        assert(painted(info, before.bytes, before_place(picture, 0, y as int)) =~= painted(
            info,
            before.bytes,
            picture,
        ));
    }
}

/// Nothing of a rectangle lies left of it.
proof fn lemma_nothing_left_of(
    info: FrameBufferInfo,
    bytes: Seq<u8>,
    picture: spec_fn(int, int) -> Option<Seq<u8>>,
    left: int,
    y: int,
)
    requires
        0 <= left,
        forall|a: int, b: int| a < left ==> #[trigger] picture(a, b) is None,
    ensures
        painted(info, bytes, before_place(picture, 0, y)) == painted(
            info,
            bytes,
            before_place(picture, left, y),
        ),
{
    assert(painted(info, bytes, before_place(picture, 0, y)) =~= painted(
        info,
        bytes,
        before_place(picture, left, y),
    ));
}

impl<'a> FramebufferWriter<'a> {
    /// Empties the screen.
    pub fn clear(&mut self)
        requires
            old(self).well_formed(),
        ensures
            final(self).well_formed(),
            final(self).layout() == old(self).layout(),
            final(self).screen() == old(self).screen().cleared(old(self).layout()),
    {
        let ghost bytes = self.buffer@;
        let ghost info = self.info;
        self.fill(0, self.info.width, 0, self.info.height, BACKGROUND);
        proof {
            lemma_same_picture(
                info,
                bytes,
                rectangle(0, info.width as int, 0, info.height as int, BACKGROUND@),
                blank(),
            );
        }
        self.column = BORDER;
        self.row = BORDER;
        self.cursor = false;
    }

    /// Moves the screen up by one line.
    fn scroll(&mut self)
        requires
            old(self).layout().fits(old(self).screen().bytes.len() as int),
            old(self).can_scroll(),
        ensures
            final(self).layout() == old(self).layout(),
            final(self).screen() == old(self).screen().scrolled(old(self).layout()),
    {
        let ghost before = self.buffer@;
        let ghost info = self.info;
        let length: usize = self.buffer.len();
        proof {
            lemma_product_grows(LINE_HEIGHT * info.stride, info.bytes_per_pixel as int);
        }
        let count: usize = LINE_HEIGHT * self.info.stride * self.info.bytes_per_pixel;
        let mut index: usize = 0;
        while index < length - count
            invariant
                index <= length - count,
                count <= length == before.len(),
                self.buffer@.len() == length,
                self.info == info,
                self.column == old(self).column,
                self.row == old(self).row,
                self.cursor == old(self).cursor,
                forall|i: int| 0 <= i < index ==> self.buffer@[i] == before[i + count],
                forall|i: int| index <= i < length ==> self.buffer@[i] == before[i],
            decreases length - count - index,
        {
            let moved: u8 = self.buffer[index + count];
            self.buffer[index] = moved;
            index += 1;
        }
        assert(self.buffer@ =~= moved_up(before, count as int));
        let first: usize = self.info.height.saturating_sub(LINE_HEIGHT);
        self.fill(0, self.info.width, first, self.info.height, BACKGROUND);
        proof {
            lemma_same_picture(
                info,
                moved_up(before, count as int),
                rectangle(0, info.width as int, first as int, info.height as int, BACKGROUND@),
                blank_below(info.height - LINE_HEIGHT),
            );
        }
        self.row = self.row.saturating_sub(LINE_HEIGHT);
    }

    /// Starts a new line.
    fn new_line(&mut self)
        requires
            old(self).well_formed(),
            old(self).screen().new_line_scrolls(old(self).layout()) ==> old(self).can_scroll(),
        ensures
            final(self).well_formed(),
            final(self).layout() == old(self).layout(),
            final(self).screen().bytes.len() == old(self).screen().bytes.len(),
            final(self).screen() == old(self).screen().on_new_line(old(self).layout()),
    {
        self.column = BORDER;
        self.row = self.row + LINE_HEIGHT;
        if self.row + GLYPH_HEIGHT + BORDER > self.info.height {
            self.scroll();
        }
    }

    /// Draws a glyph, given by its rows of intensities, and moves on by one letter.
    pub fn draw_glyph(&mut self, rows: &[&'static [u8]])
        requires
            old(self).well_formed(),
            old(self).screen().glyph_scrolls(old(self).layout()) ==> old(self).can_scroll(),
            font::is_glyph(font::rows_of(rows@)),
        ensures
            final(self).well_formed(),
            final(self).layout() == old(self).layout(),
            final(self).screen().bytes.len() == old(self).screen().bytes.len(),
            final(self).screen() == old(self).screen().with_glyph(
                old(self).layout(),
                font::rows_of(rows@),
            ),
    {
        if self.column + ADVANCE + BORDER > self.info.width {
            self.new_line();
        }
        let ghost at = self.screen();
        let ghost info = self.info;
        let ghost glyph = font::rows_of(rows@);
        let ghost picture = glyph_at(glyph, at.column, at.row);
        let mut y: usize = 0;
        assert(painted(info, at.bytes, before_place(picture, 0, at.row)) =~= at.bytes);
        while y < GLYPH_HEIGHT
            invariant
                y <= GLYPH_HEIGHT,
                info.fits(at.bytes.len() as int),
                at.within(info),
                self.info == info,
                glyph == font::rows_of(rows@),
                font::is_glyph(glyph),
                picture == glyph_at(glyph, at.column, at.row),
                self.screen() == (ScreenModel {
                    bytes: painted(info, at.bytes, before_place(picture, 0, at.row + y)),
                    ..at
                }),
            decreases GLYPH_HEIGHT - y,
        {
            assert(glyph[y as int].len() == GLYPH_WIDTH);
            let row: &'static [u8] = rows[y];
            assert(row@ == glyph[y as int]);
            let mut x: usize = 0;
            proof {
                lemma_nothing_left_of(info, at.bytes, picture, at.column, at.row + y);
            }
            while x < GLYPH_WIDTH
                invariant
                    x <= GLYPH_WIDTH,
                    y < GLYPH_HEIGHT,
                    info.fits(at.bytes.len() as int),
                    at.within(info),
                    self.info == info,
                    row@ == glyph[y as int],
                    row@.len() == GLYPH_WIDTH,
                    picture == glyph_at(glyph, at.column, at.row),
                    self.screen() == (ScreenModel {
                        bytes: painted(
                            info,
                            at.bytes,
                            before_place(picture, at.column + x, at.row + y),
                        ),
                        ..at
                    }),
                decreases GLYPH_WIDTH - x,
            {
                let color: [u8; 3] = blend(BACKGROUND, FOREGROUND, row[x]);
                assert(color@ =~= shade(row@[x as int]));
                self.write_pixel(self.column + x, self.row + y, color);
                proof {
                    lemma_next_pixel(
                        info,
                        at.bytes,
                        picture,
                        at.column + x,
                        at.row + y,
                        color@,
                    );
                }
                x += 1;
            }
            assert(painted(info, at.bytes, before_place(picture, at.column + x, at.row + y))
                =~= painted(info, at.bytes, before_place(picture, 0, at.row + (y + 1))));
            y += 1;
        }
        assert(painted(info, at.bytes, before_place(picture, 0, at.row + y)) =~= painted(
            info,
            at.bytes,
            picture,
        ));
        self.column = self.column + ADVANCE;
    }

    /// Writes one character.
    fn write_character(&mut self, character: char)
        requires
            old(self).well_formed(),
            old(self).screen().character_scrolls(old(self).layout(), character) ==> old(
                self,
            ).can_scroll(),
        ensures
            final(self).well_formed(),
            final(self).layout() == old(self).layout(),
            final(self).screen().bytes.len() == old(self).screen().bytes.len(),
            final(self).screen() == old(self).screen().with_character(
                old(self).layout(),
                character,
            ),
    {
        if character == '\n' {
            self.new_line();
            return;
        }
        self.draw_glyph(font::glyph_for(character));
    }

    /// Takes the cursor off the screen.
    fn hide_cursor(&mut self)
        requires
            old(self).well_formed(),
        ensures
            final(self).well_formed(),
            final(self).layout() == old(self).layout(),
            final(self).screen().bytes.len() == old(self).screen().bytes.len(),
            final(self).screen() == old(self).screen().without_cursor(old(self).layout()),
    {
        if self.cursor {
            self.paint_cursor(BACKGROUND);
            self.cursor = false;
        }
    }

    /// Shows the cursor at the place of the next letter.
    pub fn show_cursor(&mut self)
        requires
            old(self).well_formed(),
        ensures
            final(self).well_formed(),
            final(self).layout() == old(self).layout(),
            final(self).screen() == old(self).screen().with_cursor(old(self).layout()),
    {
        if !self.cursor {
            self.paint_cursor(FOREGROUND);
            self.cursor = true;
        }
    }

    /// Paints the strip where the cursor is shown.
    fn paint_cursor(&mut self, rgb: [u8; 3])
        requires
            old(self).well_formed(),
        ensures
            final(self).layout() == old(self).layout(),
            final(self).screen() == (ScreenModel {
                bytes: painted(
                    old(self).layout(),
                    old(self).screen().bytes,
                    strip(old(self).screen().column, old(self).screen().row, rgb@),
                ),
                ..old(self).screen()
            }),
    {
        let ghost before = self.screen();
        let (column, row): (usize, usize) = (self.column, self.row);
        self.fill(column, column + GLYPH_WIDTH, row + GLYPH_HEIGHT, row + LINE_HEIGHT, rgb);
        proof {
            lemma_same_picture(
                self.info,
                before.bytes,
                rectangle(
                    column as int,
                    column + GLYPH_WIDTH,
                    row + GLYPH_HEIGHT,
                    row + LINE_HEIGHT,
                    rgb@,
                ),
                strip(before.column, before.row, rgb@),
            );
        }
    }

    /// Writes a number of spaces.
    fn write_spaces(&mut self, count: usize)
        requires
            old(self).well_formed(),
            forall|i: nat|
                i < count && (#[trigger] old(self).screen().with_spaces(
                    old(self).layout(),
                    i,
                )).character_scrolls(old(self).layout(), ' ') ==> old(self).can_scroll(),
        ensures
            final(self).well_formed(),
            final(self).layout() == old(self).layout(),
            final(self).screen().bytes.len() == old(self).screen().bytes.len(),
            final(self).screen() == old(self).screen().with_spaces(
                old(self).layout(),
                count as nat,
            ),
    {
        let ghost start = self.screen();
        let ghost info = self.info;
        let mut written: usize = 0;
        while written < count
            invariant
                written <= count,
                forall|i: nat|
                    i < count && (#[trigger] start.with_spaces(info, i)).character_scrolls(
                        info,
                        ' ',
                    ) ==> info.scrolls(start.bytes.len() as int),
                self.well_formed(),
                self.info == info,
                self.screen().bytes.len() == start.bytes.len(),
                self.screen() == start.with_spaces(info, written as nat),
            decreases count - written,
        {
            self.write_character(' ');
            written += 1;
        }
    }

    /// Writes one character of a text.
    fn write_text_character(&mut self, character: char)
        requires
            old(self).well_formed(),
            old(self).screen().text_character_scrolls(old(self).layout(), character) ==> old(
                self,
            ).can_scroll(),
        ensures
            final(self).well_formed(),
            final(self).layout() == old(self).layout(),
            final(self).screen().bytes.len() == old(self).screen().bytes.len(),
            final(self).screen() == old(self).screen().with_text_character(
                old(self).layout(),
                character,
            ),
    {
        match character {
            '\r' => {
                self.column = BORDER;
            },
            '\t' => {
                self.write_spaces(4);
            },
            _ => {
                if (character as u32) < 128 {
                    self.write_character(character);
                } else {
                    self.write_character('?');
                }
            },
        }
    }

    /// Whether the buffer is large enough for a text: where the text makes the screen
    /// scroll, the buffer holds the line that scrolling moves.
    pub open spec fn has_room_for(&self, text: Seq<char>) -> bool {
        self.screen().without_cursor(self.layout()).text_scrolls(self.layout(), text)
            ==> self.can_scroll()
    }

    /// Writes a text. The cursor goes off the screen.
    pub fn write_str(&mut self, text: &str)
        requires
            old(self).well_formed(),
            old(self).has_room_for(text@),
        ensures
            final(self).well_formed(),
            final(self).can_scroll() == old(self).can_scroll(),
            final(self).layout() == old(self).layout(),
            final(self).screen() == old(self).screen().without_cursor(
                old(self).layout(),
            ).with_text(old(self).layout(), text@),
    {
        self.hide_cursor();
        let ghost start = self.screen();
        let ghost info = self.info;
        assert(text@.take(0) =~= Seq::<char>::empty());
        for character in iter: text.chars()
            invariant
                iter.seq() == text@,
                self.well_formed(),
                start.text_scrolls(info, text@) ==> info.scrolls(start.bytes.len() as int),
                self.info == info,
                self.screen().bytes.len() == start.bytes.len(),
                self.screen() == start.with_text(info, text@.take(iter.index() as int)),
        {
            let ghost index = iter.index() as int;
            assert(text@[index] == character);
            assert(self.screen().text_character_scrolls(info, character) ==> start.text_scrolls(
                info,
                text@,
            ));
            self.write_text_character(character);
            assert(text@.take(index + 1).drop_last() =~= text@.take(index));
            assert(text@.take(index + 1).last() == character);
        }
        assert(text@.take(text@.len() as int) =~= text@);
    }
}

/// Empties the screen, where there is a console.
pub fn clear(writer: &mut Option<FramebufferWriter<'_>>)
    requires
        *old(writer) matches Some(console) ==> console.well_formed(),
    ensures
        match *old(writer) {
            None => *final(writer) is None,
            Some(before) => *final(writer) matches Some(after) && after.well_formed()
                && after.layout() == before.layout() && after.screen() == before.screen().cleared(
                before.layout(),
            ),
        },
{
    if let Some(console) = writer.as_mut() {
        console.clear();
    }
}

/// What printing a text does to a console, where there is one.
pub open spec fn prints(
    before: Option<FramebufferWriter<'_>>,
    after: Option<FramebufferWriter<'_>>,
    text: Seq<char>,
) -> bool {
    match before {
        None => after is None,
        Some(before) => after matches Some(after) && after.well_formed() && after.can_scroll()
            == before.can_scroll() && after.layout() == before.layout() && after.screen()
            == before.screen().without_cursor(before.layout()).with_text(before.layout(), text),
    }
}

/// Prints a text, where there is a console.
pub fn print(writer: &mut Option<FramebufferWriter<'_>>, text: &str)
    requires
        *old(writer) matches Some(console) ==> console.well_formed() && console.has_room_for(text@),
    ensures
        prints(*old(writer), *final(writer), text@),
{
    if let Some(console) = writer.as_mut() {
        console.write_str(text);
    }
}

/// Prints a text where the console is not in use: `guard` is `None` where it is.
pub fn panic_print(guard: Option<&mut Option<FramebufferWriter<'_>>>, text: &str)
    requires
        guard matches Some(writer) ==> (*writer matches Some(console) ==> console.well_formed()
            && console.has_room_for(text@)),
    ensures
        guard matches Some(writer) ==> prints(*writer, *final(writer), text@),
{
    if let Some(writer) = guard {
        print(writer, text);
    }
}

/// Shows the cursor, where there is a console.
pub fn show_cursor(writer: &mut Option<FramebufferWriter<'_>>)
    requires
        *old(writer) matches Some(console) ==> console.well_formed(),
    ensures
        match *old(writer) {
            None => *final(writer) is None,
            Some(before) => *final(writer) matches Some(after) && after.well_formed()
                && after.layout() == before.layout() && after.screen()
                == before.screen().with_cursor(before.layout()),
        },
{
    if let Some(console) = writer.as_mut() {
        console.show_cursor();
    }
}

} // verus!
