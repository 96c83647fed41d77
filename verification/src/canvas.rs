//! An RGBA raster that frames and images are painted on.

use vstd::prelude::*;

verus! {

/// A colour with an alpha channel.
#[derive(Clone, Copy, PartialEq, Eq, Debug, Structural)]
pub struct Color {
    pub r: u8,
    pub g: u8,
    pub b: u8,
    pub a: u8,
}

/// Channel `c` (0 red, 1 green, 2 blue, 3 alpha) of a colour.
pub open spec fn channel(color: Color, c: int) -> u8 {
    if c == 0 {
        color.r
    } else if c == 1 {
        color.g
    } else if c == 2 {
        color.b
    } else {
        color.a
    }
}

/// A `width` by `height` raster of colours, stored row by row with four
/// bytes (red, green, blue, alpha) per pixel.
pub struct Canvas {
    width: u32,
    height: u32,
    data: Vec<u8>,
}

/// The offset of pixel `(x, y)` in the bytes of a raster `w` pixels wide.
pub open spec fn pixel_offset(w: int, x: int, y: int) -> int {
    4 * (y * w + x)
}

proof fn lemma_offset_bounds(w: int, h: int, x: int, y: int)
    by (nonlinear_arith)
    requires
        0 <= x < w,
        0 <= y < h,
    ensures
        0 <= y * w,
        0 <= y * w + x < w * h,
        4 * (y * w + x) + 3 < 4 * (w * h),
{
    assert(y * w + x <= (h - 1) * w + (w - 1));
}

proof fn lemma_offset_injective(w: int, x1: int, y1: int, x2: int, y2: int)
    by (nonlinear_arith)
    requires
        0 <= x1 < w,
        0 <= x2 < w,
        0 <= y1,
        0 <= y2,
        y1 * w + x1 == y2 * w + x2,
    ensures
        x1 == x2 && y1 == y2,
{
    if y1 < y2 {
        assert(y1 * w + w <= y2 * w);
    } else if y2 < y1 {
        assert(y2 * w + w <= y1 * w);
    }
}

impl Canvas {
    /// Size and layout: four bytes per pixel, and dimensions that fit an
    /// `i32`, as the images of the application have.
    pub closed spec fn wf(&self) -> bool {
        &&& self.data@.len() == 4 * (self.width * self.height)
        &&& self.width <= i32::MAX
        &&& self.height <= i32::MAX
    }

    /// The width in pixels.
    pub closed spec fn spec_width(&self) -> int {
        self.width as int
    }

    /// The height in pixels.
    pub closed spec fn spec_height(&self) -> int {
        self.height as int
    }

    /// The bytes of the raster, row by row, four per pixel.
    pub closed spec fn raw(&self) -> Seq<u8> {
        self.data@
    }

    /// The colour of pixel `(x, y)`.
    pub closed spec fn pixel(&self, x: int, y: int) -> Color {
        let i = pixel_offset(self.width as int, x, y);
        Color { r: self.data@[i], g: self.data@[i + 1], b: self.data@[i + 2], a: self.data@[i + 3] }
    }

    /// A canvas of the given size filled with one colour.
    pub fn new(width: u32, height: u32, fill: Color) -> (c: Self)
        requires
            width <= i32::MAX,
            height <= i32::MAX,
            4 * (width * height) <= usize::MAX,
        ensures
            c.wf(),
            c.spec_width() == width,
            c.spec_height() == height,
            forall|x: int, y: int|
                0 <= x < width && 0 <= y < height ==> #[trigger] c.pixel(x, y) == fill,
    {
        let count = (width as usize) * (height as usize);
        let mut data: Vec<u8> = Vec::new();
        let mut k: usize = 0;
        while k < count
            invariant
                count == width * height,
                4 * count <= usize::MAX,
                k <= count,
                data@.len() == 4 * k,
                forall|j: int| 0 <= j < data@.len() ==> #[trigger] data@[j] == channel(fill, j % 4),
            decreases count - k,
        {
            data.push(fill.r);
            data.push(fill.g);
            data.push(fill.b);
            data.push(fill.a);
            k = k + 1;
        }
        let c = Canvas { width, height, data };
        assert forall|x: int, y: int| 0 <= x < width && 0 <= y < height implies #[trigger] c.pixel(
            x,
            y,
        ) == fill by {
            lemma_offset_bounds(width as int, height as int, x, y);
            let i = pixel_offset(width as int, x, y);
            assert(i % 4 == 0 && (i + 1) % 4 == 1 && (i + 2) % 4 == 2 && (i + 3) % 4 == 3);
        }
        c
    }

    /// The width in pixels.
    pub fn width(&self) -> (w: u32)
        requires
            self.wf(),
        ensures
            w == self.spec_width(),
            w <= i32::MAX,
    {
        self.width
    }

    /// The height in pixels.
    pub fn height(&self) -> (h: u32)
        requires
            self.wf(),
        ensures
            h == self.spec_height(),
            h <= i32::MAX,
    {
        self.height
    }

    /// The colour of a pixel inside the canvas.
    pub fn get_pixel(&self, x: u32, y: u32) -> (c: Color)
        requires
            self.wf(),
            x < self.spec_width(),
            y < self.spec_height(),
        ensures
            c == self.pixel(x as int, y as int),
    {
        proof {
            lemma_offset_bounds(self.width as int, self.height as int, x as int, y as int);
        }
        let byte_count = self.data.len();
        assert(4 * (y * self.width + x) + 3 < byte_count);
        let i = ((y as usize) * (self.width as usize) + (x as usize)) * 4;
        Color { r: self.data[i], g: self.data[i + 1], b: self.data[i + 2], a: self.data[i + 3] }
    }

    /// Sets one pixel inside the canvas and leaves the others alone.
    pub fn put_pixel(&mut self, x: u32, y: u32, color: Color)
        requires
            old(self).wf(),
            x < old(self).spec_width(),
            y < old(self).spec_height(),
        ensures
            final(self).wf(),
            final(self).spec_width() == old(self).spec_width(),
            final(self).spec_height() == old(self).spec_height(),
            forall|x2: int, y2: int|
                0 <= x2 < old(self).spec_width() && 0 <= y2 < old(self).spec_height()
                    ==> #[trigger] final(self).pixel(x2, y2) == if x2 == x && y2 == y {
                    color
                } else {
                    old(self).pixel(x2, y2)
                },
    {
        proof {
            lemma_offset_bounds(self.width as int, self.height as int, x as int, y as int);
        }
        let ghost before = *self;
        let byte_count = self.data.len();
        assert(4 * (y * self.width + x) + 3 < byte_count);
        let i = ((y as usize) * (self.width as usize) + (x as usize)) * 4;
        self.data.set(i, color.r);
        self.data.set(i + 1, color.g);
        self.data.set(i + 2, color.b);
        self.data.set(i + 3, color.a);
        assert forall|x2: int, y2: int|
            0 <= x2 < before.width && 0 <= y2 < before.height implies #[trigger] self.pixel(x2, y2)
            == if x2 == x && y2 == y {
            color
        } else {
            before.pixel(x2, y2)
        } by {
            lemma_offset_bounds(before.width as int, before.height as int, x2, y2);
            if !(x2 == x && y2 == y) {
                if y2 * before.width + x2 == y * before.width + x {
                    lemma_offset_injective(before.width as int, x2, y2, x as int, y as int);
                }
            }
        }
    }

    /// The bytes of the raster: its pixels row by row, four bytes each.
    pub fn into_raw(self) -> (r: Vec<u8>)
        requires
            self.wf(),
        ensures
            r@ == self.raw(),
            r@.len() == 4 * (self.spec_width() * self.spec_height()),
            forall|x: int, y: int, c: int|
                0 <= x < self.spec_width() && 0 <= y < self.spec_height() && 0 <= c < 4
                    ==> r@[pixel_offset(self.spec_width(), x, y) + c] == #[trigger] channel(
                    self.pixel(x, y),
                    c,
                ),
    {
        proof {
            assert forall|x: int, y: int, c: int|
                0 <= x < self.spec_width() && 0 <= y < self.spec_height() && 0 <= c < 4
                    implies self.data@[pixel_offset(self.spec_width(), x, y) + c] == #[trigger] channel(
                    self.pixel(x, y),
                    c,
                ) by {
                lemma_offset_bounds(self.width as int, self.height as int, x, y);
            }
        }
        self.data
    }
}

} // verus!
