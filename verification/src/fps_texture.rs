//! The pixels of the overlay's digits atlas, decoded from its PNG image.
use vstd::prelude::*;
use png::{Decoder, Transformations};
use std::io::Cursor;

verus! {

/// What the `png` crate decodes from a PNG file with `Transformations::EXPAND`: the
/// bytes of its first frame and its width and height, or `None` when decoding fails.
pub uninterp spec fn spec_png_expanded(bytes: Seq<u8>) -> Option<(Seq<u8>, u32, u32)>;

/// Decodes the first frame of a PNG image with paletted and low-bit-depth samples
/// expanded, through `png::Decoder::new` (over a `std::io::Cursor`),
/// `Decoder::set_transformations(Transformations::EXPAND)`, `Decoder::read_info`,
/// `Reader::output_buffer_size`, `Reader::next_frame` and `OutputInfo::buffer_size`.
///
/// Trusted: the result is the named decoding `spec_png_expanded` of the bytes. Which
/// files decode, and to what, is left unsaid.
#[verifier::external_body]
fn decode_png_expanded(bytes: &[u8]) -> (r: Option<(Vec<u8>, u32, u32)>)
    ensures
        match r {
            Some((px, w, h)) => spec_png_expanded(bytes@) == Some((px@, w, h)),
            None => spec_png_expanded(bytes@) is None,
        },
{
    let mut decoder = Decoder::new(Cursor::new(bytes));
    decoder.set_transformations(Transformations::EXPAND);
    let mut reader = decoder.read_info().ok()?;
    let mut buf = vec![0; reader.output_buffer_size()?];
    let info = reader.next_frame(&mut buf).ok()?;
    let pixels = buf.get(..info.buffer_size())?.to_vec();
    Some((pixels, info.width, info.height))
}

/// A pixel dimension taken as an `i32`, wrapping past `i32::MAX` as `as i32` does.
pub open spec fn dimension_as_i32(v: u32) -> int {
    if v <= 0x7fff_ffff {
        v as int
    } else {
        v - 0x1_0000_0000
    }
}

/// The pixels of the digits atlas and its size, as the renderer takes them, from the
/// atlas' PNG image; `None` when the image does not decode.
pub fn fps_texture_pixels(bytes: &[u8]) -> (r: Option<(Vec<u8>, i32, i32)>)
    ensures
        match r {
            Some((px, w, h)) => spec_png_expanded(bytes@) matches Some((p, w0, h0)) && p == px@
                && w as int == dimension_as_i32(w0) && h as int == dimension_as_i32(h0),
            None => spec_png_expanded(bytes@) is None,
        },
{
    match decode_png_expanded(bytes) {
        Some((pixels, w, h)) => {
            let wi: i32 = if w <= 0x7fff_ffff { w as i32 } else { (w as i64 - 0x1_0000_0000i64) as i32 };
            let hi: i32 = if h <= 0x7fff_ffff { h as i32 } else { (h as i64 - 0x1_0000_0000i64) as i32 };
            Some((pixels, wi, hi))
        },
        None => None,
    }
}

} // verus!
