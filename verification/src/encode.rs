//! Encoding rasters as PNG images and animated GIFs.

use vstd::prelude::*;

use crate::canvas::Canvas;

verus! {

/// The PNG file that the `image` crate writes for an RGBA raster.
pub uninterp spec fn png_encoding(width: u32, height: u32, rgba: Seq<u8>) -> Seq<u8>;

/// The GIF file (header, infinite-repeat extension and one frame per
/// raster, without the closing trailer byte) that the `gif` crate's encoder
/// holds after writing the given RGBA rasters.
pub uninterp spec fn gif_encoding(width: u16, height: u16, frames: Seq<Seq<u8>>) -> Seq<u8>;

/// Writes an RGBA raster as a PNG with `image::ImageBuffer::write_to` and
/// `ImageOutputFormat::Png`.  Trusted: the bytes are `png_encoding` of the
/// size and raster, a function of these alone; the PNG encoder refuses an
/// image with no rows or no columns, so both must be positive.
#[verifier::external_body]
fn write_png(width: u32, height: u32, rgba: Vec<u8>) -> (bytes: Vec<u8>)
    requires
        width > 0,
        height > 0,
        rgba@.len() == 4 * (width * height),
    ensures
        bytes@ == png_encoding(width, height, rgba@),
{
    let img = image::RgbaImage::from_raw(width, height, rgba).unwrap();
    let mut bytes: Vec<u8> = Vec::new();
    img.write_to(&mut std::io::Cursor::new(&mut bytes), image::ImageOutputFormat::Png).unwrap();
    bytes
}

/// Writes RGBA rasters as the frames of an endlessly repeating GIF with the
/// `gif` crate (`Encoder::new` with no global palette, `set_repeat`,
/// `Frame::from_rgba` and `write_frame` for each frame), and takes the bytes
/// the encoder has written.  Trusted: the bytes are `gif_encoding` of the
/// size and rasters, a function of these alone; `Frame::from_rgba` asserts
/// that each raster holds four bytes per pixel.
#[verifier::external_body]
fn write_gif(width: u16, height: u16, frames: Vec<Vec<u8>>) -> (bytes: Vec<u8>)
    requires
        forall|i: int| 0 <= i < frames@.len() ==> (#[trigger] frames@[i])@.len() == 4 * (width * height),
    ensures
        bytes@ == gif_encoding(width, height, frames@.map_values(|f: Vec<u8>| f@)),
{
    let mut image = std::io::Cursor::new(Vec::new());
    let mut encoder = gif::Encoder::new(&mut image, width, height, &[]).unwrap();
    encoder.set_repeat(gif::Repeat::Infinite).unwrap();
    for mut raw in frames {
        encoder.write_frame(&gif::Frame::from_rgba(width, height, &mut raw)).unwrap();
    }
    encoder.get_ref().get_ref().to_vec()
}

/// The PNG file of a canvas with at least one row and one column.
pub fn encode_png(canvas: Canvas) -> (bytes: Vec<u8>)
    requires
        canvas.wf(),
        canvas.spec_width() > 0,
        canvas.spec_height() > 0,
    ensures
        bytes@ == png_encoding(canvas.spec_width() as u32, canvas.spec_height() as u32, canvas.raw()),
{
    let w = canvas.width();
    let h = canvas.height();
    let raw = canvas.into_raw();
    write_png(w, h, raw)
}

/// An animated GIF being put together frame by frame.
pub struct GifBuilder {
    width: u16,
    height: u16,
    frames: Vec<Vec<u8>>,
}

impl GifBuilder {
    /// All frames are `width` by `height` RGBA rasters.
    pub closed spec fn wf(&self) -> bool {
        forall|i: int|
            0 <= i < self.frames@.len() ==> (#[trigger] self.frames@[i])@.len() == 4 * (self.width
                * self.height)
    }

    /// The frame size.
    pub closed spec fn spec_size(&self) -> (u16, u16) {
        (self.width, self.height)
    }

    /// The rasters of the frames added so far.
    pub closed spec fn spec_frames(&self) -> Seq<Seq<u8>> {
        self.frames@.map_values(|f: Vec<u8>| f@)
    }

    /// An animation of `width` by `height` frames with no frames yet.
    pub fn new(width: u16, height: u16) -> (g: Self)
        ensures
            g.wf(),
            g.spec_size() == (width, height),
            g.spec_frames() == Seq::<Seq<u8>>::empty(),
    {
        let g = GifBuilder { width, height, frames: Vec::new() };
        assert(g.spec_frames() =~= Seq::<Seq<u8>>::empty());
        g
    }

    /// Adds a canvas of the animation's size as the next frame.
    pub fn push_frame(&mut self, canvas: Canvas)
        requires
            old(self).wf(),
            canvas.wf(),
            canvas.spec_width() == old(self).spec_size().0,
            canvas.spec_height() == old(self).spec_size().1,
        ensures
            final(self).wf(),
            final(self).spec_size() == old(self).spec_size(),
            final(self).spec_frames() == old(self).spec_frames().push(canvas.raw()),
    {
        let raw = canvas.into_raw();
        self.frames.push(raw);
        assert(self.spec_frames() =~= old(self).spec_frames().push(canvas.raw()));
    }

    /// The GIF file of the frames added.
    pub fn finish(self) -> (bytes: Vec<u8>)
        requires
            self.wf(),
        ensures
            bytes@ == gif_encoding(self.spec_size().0, self.spec_size().1, self.spec_frames()),
    {
        write_gif(self.width, self.height, self.frames)
    }
}

} // verus!
