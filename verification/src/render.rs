//! Rendered pages and their PNG encoding.

use image::ImageEncoder;
use vstd::prelude::*;

use crate::error::Error;
use crate::text::message_with_text;

verus! {

/// A rendered page: 8-bit RGBA, row-major, premultiplied alpha undone.
pub struct Rendered {
    pub width: u32,
    pub height: u32,
    /// Straight (non-premultiplied) RGBA, four bytes per pixel.
    pub rgba: Vec<u8>,
}

/// What the `image` crate's PNG encoder makes of an RGBA8 buffer of the given size: the PNG
/// file, or the text of the error it reports.
pub uninterp spec fn png_of(rgba: Seq<u8>, width: u32, height: u32) -> Result<Seq<u8>, Seq<char>>;

/// `image::codecs::png::PngEncoder::write_image` on an RGBA8 buffer, at the encoder's default
/// settings. Claimed: the result is the encoder's output for these arguments, or its error
/// shown as text. The encoder panics on a buffer whose length is not four bytes per pixel, so
/// such a buffer is not admitted.
#[verifier::external_body]
fn encode_png(rgba: &[u8], width: u32, height: u32) -> (r: Result<Vec<u8>, String>)
    requires
        rgba@.len() == 4 * width * height,
    ensures
        match png_of(rgba@, width, height) {
            Ok(v) => r matches Ok(out) && out@ == v,
            Err(m) => r matches Err(s) && s@ == m,
        },
{
    let mut out = Vec::new();
    match image::codecs::png::PngEncoder::new(&mut out).write_image(
        rgba,
        width,
        height,
        image::ExtendedColorType::Rgba8,
    ) {
        Ok(()) => Ok(out),
        Err(e) => Err(format!("{e}")),
    }
}

impl Rendered {
    /// Encodes to PNG.
    pub fn to_png(&self) -> (r: Result<Vec<u8>, Error>)
        requires
            self.rgba@.len() == 4 * self.width * self.height,
        ensures
            match png_of(self.rgba@, self.width, self.height) {
                Ok(v) => r matches Ok(out) && out@ == v,
                Err(m) => r matches Err(e) && e matches Error::Render(s) && s@ == "png encode: "@ + m,
            },
    {
        match encode_png(self.rgba.as_slice(), self.width, self.height) {
            Ok(out) => Ok(out),
            Err(m) => Err(Error::Render(message_with_text("png encode: ", m.as_str()))),
        }
    }
}

} // verus!
