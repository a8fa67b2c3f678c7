//! The console font: a fixed-width bitmap font, one intensity per pixel.

use vstd::prelude::*;

use noto_sans_mono_bitmap::{get_raster, FontWeight, RasterHeight};

verus! {

/// Pixel rows of a glyph.
pub const GLYPH_HEIGHT: usize = 16;

/// Pixel columns of a glyph.
pub const GLYPH_WIDTH: usize = 7;

/// The rows of pixel intensities, from 0 to 255, that the font has for a character, where
/// it knows the character.
pub uninterp spec fn glyph_rows(character: char) -> Option<Seq<Seq<u8>>>;

/// Rows as sequences of intensities.
pub open spec fn rows_of(raster: Seq<&'static [u8]>) -> Seq<Seq<u8>> {
    raster.map_values(|row: &'static [u8]| row@)
}

/// A glyph's rows, all of one width.
pub open spec fn is_glyph(rows: Seq<Seq<u8>>) -> bool {
    &&& rows.len() == GLYPH_HEIGHT
    &&& forall|y: int| 0 <= y < rows.len() ==> (#[trigger] rows[y]).len() == GLYPH_WIDTH
}

/// `noto_sans_mono_bitmap::get_raster` for the regular weight at sixteen pixels: the
/// raster is sixteen rows of seven bytes for every character that the font knows, and the
/// font knows the printable ASCII characters. What a raster looks like is only named.
#[verifier::external_body]
pub(crate) fn regular_raster(character: char) -> (raster: Option<&'static [&'static [u8]]>)
    ensures
        match raster {
            Some(rows) => glyph_rows(character) == Some(rows_of(rows@)) && is_glyph(
                rows_of(rows@),
            ),
            None => glyph_rows(character) is None,
        },
        ' ' <= character <= '~' ==> raster is Some,
{
    get_raster(character, FontWeight::Regular, RasterHeight::Size16).map(|glyph| glyph.raster())
}

/// The glyph that stands for a character: its own, or that of the question mark.
pub open spec fn shown_glyph(character: char) -> Seq<Seq<u8>> {
    match glyph_rows(character) {
        Some(rows) => rows,
        None => glyph_rows('?')->0,
    }
}

/// Finds the glyph for a character. Characters that the font does not know are shown as
/// question marks.
pub fn glyph_for(character: char) -> (raster: &'static [&'static [u8]])
    ensures
        rows_of(raster@) == shown_glyph(character),
        is_glyph(rows_of(raster@)),
{
    match regular_raster(character) {
        Some(raster) => raster,
        None => regular_raster('?').unwrap(),
    }
}

/// A character that the font knows is shown by its own glyph, and every other by that of
/// the question mark.
pub proof fn law_unknown_characters_are_question_marks(character: char)
    ensures
        glyph_rows(character) == Some(shown_glyph(character)) || glyph_rows(character) is None,
        glyph_rows(character) is None ==> shown_glyph(character) == shown_glyph('?'),
{
}

} // verus!
