//! Painting stored pixels onto a canvas: each stored pixel covers a square
//! block of `pixelwidth` by `pixelwidth` canvas pixels.

use vstd::prelude::*;

use crate::canvas::{Canvas, Color};
use crate::color_subs::{lookup, ColorSubs};
use crate::query_params::GifRenderType;
use crate::strings::{utf8_len, views};
use crate::utils::{
    color_hex, color_to_hex_string, hex_color_readable, hex_string_to_color, spec_hex_to_color,
    valid_hex_color,
};

verus! {

/// A stored pixel with the colour it is drawn in.
#[derive(Clone, Copy, PartialEq, Eq, Debug, Structural)]
pub struct PlacedPixel {
    pub x: i32,
    pub y: i32,
    pub color: Color,
}

/// Where blocks go across the canvas: shifted right by a number of
/// canvas pixels (a frame of a sprite sheet), or mirrored left to right.
#[derive(Clone, Copy, PartialEq, Eq, Debug, Structural)]
pub enum Placement {
    Offset(i32),
    Mirrored,
}

/// The column of the block of `p` that lands on canvas column `cx`.
pub open spec fn block_column(p: PlacedPixel, pw: int, pl: Placement, w: int, cx: int) -> int {
    match pl {
        Placement::Offset(o) => cx - p.x * pw - o,
        Placement::Mirrored => (w - 1) - cx - p.x * pw,
    }
}

/// Whether the block of `p` covers canvas pixel `(cx, cy)`.
pub open spec fn covers(p: PlacedPixel, pw: int, pl: Placement, w: int, cx: int, cy: int) -> bool {
    let dx = block_column(p, pw, pl, w, cx);
    let dy = cy - p.y * pw;
    0 <= dx < pw && 0 <= dy < pw
}

/// The colour that canvas pixel `(cx, cy)` has after painting `pixels` in
/// order over a pixel of colour `base`: that of the last block covering it.
pub open spec fn painted_color(
    pixels: Seq<PlacedPixel>,
    pw: int,
    pl: Placement,
    w: int,
    base: Color,
    cx: int,
    cy: int,
) -> Color
    decreases pixels.len(),
{
    if pixels.len() == 0 {
        base
    } else if covers(pixels.last(), pw, pl, w, cx, cy) {
        pixels.last().color
    } else {
        painted_color(pixels.drop_last(), pw, pl, w, base, cx, cy)
    }
}

/// Where a block lies: a pixel at `(x, y)` shifted by `o` covers the
/// `pw`-square whose corner is canvas pixel `(x * pw + o, y * pw)`; mirrored,
/// it covers the columns of the unshifted block reflected about the middle
/// of a `w`-wide canvas.
pub proof fn lemma_block_extent(p: PlacedPixel, pw: int, w: int, cx: int, cy: int)
    ensures
        forall|o: i32|
            #[trigger] covers(p, pw, Placement::Offset(o), w, cx, cy) <==> (p.x * pw + o <= cx
                < p.x * pw + o + pw && p.y * pw <= cy < p.y * pw + pw),
        covers(p, pw, Placement::Mirrored, w, cx, cy) <==> (p.x * pw <= w - 1 - cx < p.x * pw + pw
            && p.y * pw <= cy < p.y * pw + pw),
{
}

/// A mirrored painting is the left-to-right reflection of the plain one:
/// every pixel gets the colour that the reflected pixel gets unmirrored.
pub proof fn lemma_mirror_reflects(
    pixels: Seq<PlacedPixel>,
    pw: int,
    w: int,
    base: Color,
    cx: int,
    cy: int,
)
    ensures
        painted_color(pixels, pw, Placement::Mirrored, w, base, cx, cy) == painted_color(
            pixels,
            pw,
            Placement::Offset(0),
            w,
            base,
            w - 1 - cx,
            cy,
        ),
    decreases pixels.len(),
{
    if pixels.len() > 0 {
        lemma_mirror_reflects(pixels.drop_last(), pw, w, base, cx, cy);
        lemma_block_extent(pixels.last(), pw, w, cx, cy);
        lemma_block_extent(pixels.last(), pw, w, w - 1 - cx, cy);
        assert(covers(pixels.last(), pw, Placement::Offset(0), w, w - 1 - cx, cy) <==> covers(
            pixels.last(),
            pw,
            Placement::Mirrored,
            w,
            cx,
            cy,
        ));
    }
}

/// The arithmetic that places the block of `p` stays within `i32`.
pub open spec fn block_fits(p: PlacedPixel, pw: int, pl: Placement, w: int) -> bool {
    pw <= 0 || {
        &&& i32::MIN <= p.x * pw
        &&& p.x * pw + (pw - 1) <= i32::MAX
        &&& i32::MIN <= p.y * pw
        &&& p.y * pw + (pw - 1) <= i32::MAX
        &&& match pl {
            Placement::Offset(o) => i32::MIN <= p.x * pw + o && p.x * pw + (pw - 1) + o
                <= i32::MAX,
            Placement::Mirrored => i32::MIN <= (w - 1) - (p.x * pw + (pw - 1)) && (w - 1) - p.x
                * pw <= i32::MAX,
        }
    }
}

/// Paints the block of one pixel, skipping the parts outside the canvas.
fn paint_block(canvas: &mut Canvas, p: PlacedPixel, pw: i32, pl: Placement)
    requires
        old(canvas).wf(),
        block_fits(p, pw as int, pl, old(canvas).spec_width()),
    ensures
        final(canvas).wf(),
        final(canvas).spec_width() == old(canvas).spec_width(),
        final(canvas).spec_height() == old(canvas).spec_height(),
        forall|cx: int, cy: int|
            0 <= cx < old(canvas).spec_width() && 0 <= cy < old(canvas).spec_height()
                ==> #[trigger] final(canvas).pixel(cx, cy) == if covers(
                p,
                pw as int,
                pl,
                old(canvas).spec_width(),
                cx,
                cy,
            ) {
                p.color
            } else {
                old(canvas).pixel(cx, cy)
            },
{
    let ghost start = *canvas;
    let ghost w = start.spec_width();
    let ghost h = start.spec_height();
    let width = canvas.width();
    let height = canvas.height();
    let mut dx: i32 = 0;
    while dx < pw
        invariant
            canvas.wf(),
            canvas.spec_width() == w,
            canvas.spec_height() == h,
            width == w,
            height == h,
            0 <= w <= i32::MAX,
            0 <= h <= i32::MAX,
            0 <= dx,
            dx <= pw || dx == 0,
            block_fits(p, pw as int, pl, w),
            forall|cx: int, cy: int|
                0 <= cx < w && 0 <= cy < h ==> #[trigger] canvas.pixel(cx, cy) == if 0
                    <= block_column(p, pw as int, pl, w, cx) < dx && 0 <= cy - p.y * pw < pw {
                    p.color
                } else {
                    start.pixel(cx, cy)
                },
        decreases pw - dx,
    {
        let mut dy: i32 = 0;
        while dy < pw
            invariant
                canvas.wf(),
                canvas.spec_width() == w,
                canvas.spec_height() == h,
                width == w,
                height == h,
                0 <= w <= i32::MAX,
                0 <= h <= i32::MAX,
                0 <= dx < pw,
                0 <= dy <= pw,
                block_fits(p, pw as int, pl, w),
                forall|cx: int, cy: int|
                    0 <= cx < w && 0 <= cy < h ==> #[trigger] canvas.pixel(cx, cy) == if (0
                        <= block_column(p, pw as int, pl, w, cx) < dx && 0 <= cy - p.y * pw < pw)
                        || (block_column(p, pw as int, pl, w, cx) == dx && 0 <= cy - p.y * pw
                        < dy) {
                        p.color
                    } else {
                        start.pixel(cx, cy)
                    },
            decreases pw - dy,
        {
            let offset_x = p.x * pw;
            let offset_y = p.y * pw;
            let tx: i32 = match pl {
                Placement::Offset(o) => offset_x + dx + o,
                Placement::Mirrored => (width as i32 - 1) - (offset_x + dx),
            };
            let ty: i32 = offset_y + dy;
            assert(block_column(p, pw as int, pl, w, tx as int) == dx);
            if tx >= 0 && (tx as u32) < width && ty >= 0 && (ty as u32) < height {
                canvas.put_pixel(tx as u32, ty as u32, p.color);
            } else {
                assert forall|cx: int, cy: int|
                    0 <= cx < w && 0 <= cy < h && #[trigger] block_column(p, pw as int, pl, w, cx)
                        == dx && #[trigger] canvas.pixel(cx, cy) == canvas.pixel(cx, cy)
                        implies cy - p.y * pw != dy by {
                    assert(cx == tx);
                }
            }
            dy = dy + 1;
        }
        dx = dx + 1;
    }
}

/// Whether the arithmetic placing every block stays within `i32`.
pub fn blocks_fit(pixels: &Vec<PlacedPixel>, pixelwidth: i32, placement: Placement, width: u32) -> (ok: bool)
    requires
        width <= i32::MAX,
    ensures
        ok == forall|i: int|
            0 <= i < pixels@.len() ==> block_fits(
                #[trigger] pixels@[i],
                pixelwidth as int,
                placement,
                width as int,
            ),
{
    let n = pixels.len();
    let mut i: usize = 0;
    while i < n
        invariant
            n == pixels@.len(),
            i <= n,
            width <= i32::MAX,
            forall|j: int|
                0 <= j < i ==> block_fits(#[trigger] pixels@[j], pixelwidth as int, placement, width as int),
        decreases n - i,
    {
        if !block_fits_exec(pixels[i], pixelwidth, placement, width) {
            return false;
        }
        i = i + 1;
    }
    true
}

proof fn lemma_i32_product(a: int, b: int)
    by (nonlinear_arith)
    requires
        -0x8000_0000 <= a <= 0x7fff_ffff,
        0 < b <= 0x7fff_ffff,
    ensures
        -0x8000_0000 * 0x7fff_ffff <= a * b <= 0x7fff_ffff * 0x7fff_ffff,
{
}

fn in_i32(v: i64) -> (b: bool)
    ensures
        b == (i32::MIN <= v <= i32::MAX),
{
    i32::MIN as i64 <= v && v <= i32::MAX as i64
}

fn block_fits_exec(p: PlacedPixel, pw: i32, pl: Placement, width: u32) -> (ok: bool)
    requires
        width <= i32::MAX,
    ensures
        ok == block_fits(p, pw as int, pl, width as int),
{
    if pw <= 0 {
        return true;
    }
    let pw = pw as i64;
    proof {
        lemma_i32_product(p.x as int, pw as int);
        lemma_i32_product(p.y as int, pw as int);
    }
    let ox = (p.x as i64) * pw;
    let oy = (p.y as i64) * pw;
    let w = width as i64;
    let base = in_i32(ox) && in_i32(ox + (pw - 1)) && in_i32(oy) && in_i32(oy + (pw - 1));
    if !base {
        return false;
    }
    match pl {
        Placement::Offset(o) => in_i32(ox + o as i64) && in_i32(ox + (pw - 1) + o as i64),
        Placement::Mirrored => in_i32((w - 1) - (ox + (pw - 1))) && in_i32((w - 1) - ox),
    }
}

/// Paints stored pixels in order, each as a `pixelwidth`-square block at
/// `pixelwidth` times its position, placed as `placement` says; the parts
/// of blocks outside the canvas are left out.
pub fn paint_pixels(
    canvas: &mut Canvas,
    pixels: &Vec<PlacedPixel>,
    pixelwidth: i32,
    placement: Placement,
)
    requires
        old(canvas).wf(),
        forall|i: int|
            0 <= i < pixels@.len() ==> block_fits(
                #[trigger] pixels@[i],
                pixelwidth as int,
                placement,
                old(canvas).spec_width(),
            ),
    ensures
        final(canvas).wf(),
        final(canvas).spec_width() == old(canvas).spec_width(),
        final(canvas).spec_height() == old(canvas).spec_height(),
        forall|cx: int, cy: int|
            0 <= cx < old(canvas).spec_width() && 0 <= cy < old(canvas).spec_height()
                ==> #[trigger] final(canvas).pixel(cx, cy) == painted_color(
                pixels@,
                pixelwidth as int,
                placement,
                old(canvas).spec_width(),
                old(canvas).pixel(cx, cy),
                cx,
                cy,
            ),
{
    let ghost start = *canvas;
    let ghost w = start.spec_width();
    let ghost h = start.spec_height();
    let n = pixels.len();
    let mut i: usize = 0;
    while i < n
        invariant
            n == pixels@.len(),
            i <= n,
            canvas.wf(),
            canvas.spec_width() == w,
            canvas.spec_height() == h,
            forall|j: int|
                0 <= j < pixels@.len() ==> block_fits(
                    #[trigger] pixels@[j],
                    pixelwidth as int,
                    placement,
                    w,
                ),
            forall|cx: int, cy: int|
                0 <= cx < w && 0 <= cy < h ==> #[trigger] canvas.pixel(cx, cy) == painted_color(
                    pixels@.take(i as int),
                    pixelwidth as int,
                    placement,
                    w,
                    start.pixel(cx, cy),
                    cx,
                    cy,
                ),
        decreases n - i,
    {
        let ghost before = *canvas;
        paint_block(canvas, pixels[i], pixelwidth, placement);
        assert(pixels@.take(i + 1).drop_last() =~= pixels@.take(i as int));
        assert(pixels@.take(i + 1).last() == pixels@[i as int]);
        i = i + 1;
    }
    assert(pixels@.take(n as int) =~= pixels@);
}

/// The frames `a, a + 1, ..., b - 1` (none when `b <= a`).
pub open spec fn frame_range(a: int, b: int) -> Seq<i32> {
    Seq::new(if b > a { (b - a) as nat } else { 0 }, |i: int| (a + i) as i32)
}

/// The order in which the `frame_count` frames of a GIF are played:
/// forward, backward, or forward and then back again without repeating the
/// first and last frames.
pub open spec fn gif_order(render_type: GifRenderType, frame_count: int) -> Seq<i32> {
    match render_type {
        GifRenderType::Forward => frame_range(0, frame_count),
        GifRenderType::Backward => frame_range(0, frame_count).reverse(),
        GifRenderType::Both => frame_range(0, frame_count) + frame_range(1, frame_count - 1).reverse(),
    }
}

/// The play orders frame by frame, for `n` frames: forward is `0, 1, ...,
/// n - 1`; backward is `n - 1` down to `0`; back and forth (for at least two
/// frames) is `0` up to `n - 1` and then `n - 2` down to `1`, `2n - 2`
/// frames in all, and a single frame for one frame; no frames give an empty
/// order.
pub proof fn lemma_gif_order_frames(n: int)
    requires
        i32::MIN < n <= i32::MAX,
    ensures
        n >= 0 ==> gif_order(GifRenderType::Forward, n).len() == n,
        forall|i: int| 0 <= i < n ==> #[trigger] gif_order(GifRenderType::Forward, n)[i] == i,
        n >= 0 ==> gif_order(GifRenderType::Backward, n).len() == n,
        forall|i: int| 0 <= i < n ==> #[trigger] gif_order(GifRenderType::Backward, n)[i] == n - 1 - i,
        n >= 2 ==> gif_order(GifRenderType::Both, n).len() == 2 * n - 2,
        n >= 2 ==> forall|i: int| 0 <= i < n ==> #[trigger] gif_order(GifRenderType::Both, n)[i] == i,
        n >= 2 ==> forall|j: int|
            0 <= j < n - 2 ==> #[trigger] gif_order(GifRenderType::Both, n)[n + j] == n - 2 - j,
        n == 1 ==> gif_order(GifRenderType::Both, n) == seq![0i32],
        n <= 0 ==> gif_order(GifRenderType::Forward, n).len() == 0 && gif_order(
            GifRenderType::Backward,
            n,
        ).len() == 0 && gif_order(GifRenderType::Both, n).len() == 0,
{
    let fwd = frame_range(0, n);
    assert forall|i: int| 0 <= i < n implies #[trigger] gif_order(GifRenderType::Forward, n)[i] == i by {
        assert(fwd[i] == (0 + i) as i32);
    }
    assert forall|i: int| 0 <= i < n implies #[trigger] gif_order(GifRenderType::Backward, n)[i] == n - 1
        - i by {
        assert(fwd.reverse()[i] == fwd[n - 1 - i]);
    }
    if n >= 2 {
        let back = frame_range(1, n - 1);
        let both = gif_order(GifRenderType::Both, n);
        assert(both == fwd + back.reverse());
        assert forall|i: int| 0 <= i < n implies #[trigger] gif_order(GifRenderType::Both, n)[i] == i by {
            assert(both[i] == fwd[i]);
        }
        assert forall|j: int| 0 <= j < n - 2 implies #[trigger] gif_order(GifRenderType::Both, n)[n
            + j] == n - 2 - j by {
            assert(both[n + j] == back.reverse()[j]);
            assert(back.reverse()[j] == back[n - 3 - j]);
        }
    }
    if n == 1 {
        assert(gif_order(GifRenderType::Both, n) =~= seq![0i32]);
    }
}

fn collect_range(a: i32, b: i32) -> (v: Vec<i32>)
    ensures
        v@ == frame_range(a as int, b as int),
{
    let mut v: Vec<i32> = Vec::new();
    let mut i: i32 = a;
    while i < b
        invariant
            a <= i,
            i <= b || i == a,
            v@ == frame_range(a as int, i as int),
        decreases b - i,
    {
        v.push(i);
        assert(v@ =~= frame_range(a as int, i + 1));
        i = i + 1;
    }
    assert(v@ =~= frame_range(a as int, b as int));
    v
}

fn reversed(v: Vec<i32>) -> (r: Vec<i32>)
    ensures
        r@ == v@.reverse(),
{
    let mut r: Vec<i32> = Vec::new();
    let n = v.len();
    let mut i: usize = n;
    while i > 0
        invariant
            n == v@.len(),
            i <= n,
            r@ == v@.skip(i as int).reverse(),
        decreases i,
    {
        i = i - 1;
        r.push(v[i]);
        assert(r@ =~= v@.skip(i as int).reverse());
    }
    assert(v@.skip(0) =~= v@);
    r
}

/// The order in which the frames of a GIF are played.
pub fn gif_frame_order(render_type: GifRenderType, frame_count: i32) -> (order: Vec<i32>)
    requires
        render_type == GifRenderType::Both ==> frame_count > i32::MIN,
    ensures
        order@ == gif_order(render_type, frame_count as int),
{
    match render_type {
        GifRenderType::Backward => reversed(collect_range(0, frame_count)),
        GifRenderType::Forward => collect_range(0, frame_count),
        GifRenderType::Both => {
            let mut first = collect_range(0, frame_count);
            let mut second = reversed(collect_range(1, frame_count - 1));
            first.append(&mut second);
            first
        },
    }
}

/// The colour that a substitution list puts in place of `(r, g, b)`, if any.
pub open spec fn spec_substitute(subs: Seq<(Seq<char>, Seq<char>)>, r: u8, g: u8, b: u8) -> Option<
    (u8, u8, u8),
> {
    match lookup(subs, color_hex(r, g, b)) {
        Some(v) => Some(spec_hex_to_color(v)),
        None => None,
    }
}

/// The replacement of a colour reads as a colour (a six-byte code that is
/// not a hexadecimal colour cannot be read).
pub open spec fn substitute_readable(subs: Seq<(Seq<char>, Seq<char>)>, r: u8, g: u8, b: u8) -> bool {
    lookup(subs, color_hex(r, g, b)) matches Some(v) ==> (utf8_len(v) == 6 ==> valid_hex_color(v))
}

/// Whether the replacement of `(r, g, b)`, if there is one, can be read.
pub fn substitution_readable(subs: &ColorSubs, r: u8, g: u8, b: u8) -> (ok: bool)
    ensures
        ok == substitute_readable(subs@, r, g, b),
{
    let hex = color_to_hex_string(r, g, b);
    match subs.get(hex.as_str()) {
        Some(v) => hex_color_readable(v),
        None => true,
    }
}

/// The colour that the substitutions put in place of `(r, g, b)`: the
/// colour's six-digit code is looked up and its replacement read back.
pub fn substitute_color(subs: &ColorSubs, r: u8, g: u8, b: u8) -> (c: Option<(u8, u8, u8)>)
    requires
        substitute_readable(subs@, r, g, b),
    ensures
        c == spec_substitute(subs@, r, g, b),
{
    let hex = color_to_hex_string(r, g, b);
    match subs.get(hex.as_str()) {
        Some(v) => Some(hex_string_to_color(v.clone())),
        None => None,
    }
}

/// The colour codes of a list of colours added to `out` in order, each
/// only if it is not there yet.
pub open spec fn add_colors(out: Seq<Seq<char>>, rgbs: Seq<(u8, u8, u8)>) -> Seq<Seq<char>>
    decreases rgbs.len(),
{
    if rgbs.len() == 0 {
        out
    } else {
        let prev = add_colors(out, rgbs.drop_last());
        let c = color_hex(rgbs.last().0, rgbs.last().1, rgbs.last().2);
        if prev.contains(c) {
            prev
        } else {
            prev.push(c)
        }
    }
}

fn contains_string(v: &Vec<String>, s: &String) -> (b: bool)
    ensures
        b == views(v@).contains(s@),
{
    let n = v.len();
    let mut i: usize = 0;
    while i < n
        invariant
            n == v@.len(),
            i <= n,
            forall|j: int| 0 <= j < i ==> v@[j]@ != s@,
        decreases n - i,
    {
        if v[i] == *s {
            assert(views(v@)[i as int] == s@);
            return true;
        }
        i = i + 1;
    }
    assert forall|j: int| 0 <= j < views(v@).len() implies views(v@)[j] != s@ by {
        assert(views(v@)[j] == v@[j]@);
    }
    false
}

/// Adds the six-digit codes of colours to a list of codes, in order, each
/// only if the list does not hold it yet.
pub fn add_new_colors(colors: &mut Vec<String>, rgbs: &Vec<(u8, u8, u8)>)
    ensures
        views(final(colors)@) == add_colors(views(old(colors)@), rgbs@),
{
    let ghost start = views(colors@);
    let n = rgbs.len();
    let mut i: usize = 0;
    assert(rgbs@.take(0) =~= Seq::<(u8, u8, u8)>::empty());
    while i < n
        invariant
            n == rgbs@.len(),
            i <= n,
            views(colors@) == add_colors(start, rgbs@.take(i as int)),
        decreases n - i,
    {
        assert(rgbs@.take(i + 1).drop_last() =~= rgbs@.take(i as int));
        assert(rgbs@.take(i + 1).last() == rgbs@[i as int]);
        let (r, g, b) = rgbs[i];
        let nxt = color_to_hex_string(r, g, b);
        if !contains_string(colors, &nxt) {
            let ghost before = views(colors@);
            colors.push(nxt);
            assert(views(colors@) =~= before.push(nxt@));
        }
        i = i + 1;
    }
    assert(rgbs@.take(n as int) =~= rgbs@);
}

/// The code of one of the colours is `c`.
pub open spec fn has_color(rgbs: Seq<(u8, u8, u8)>, c: Seq<char>) -> bool {
    exists|i: int| 0 <= i < rgbs.len() && c == color_hex(rgbs[i].0, rgbs[i].1, rgbs[i].2)
}

/// Adding colours never repeats a code, and the result holds exactly the
/// codes that were there and those of the added colours.
pub proof fn lemma_add_colors(out: Seq<Seq<char>>, rgbs: Seq<(u8, u8, u8)>)
    requires
        out.no_duplicates(),
    ensures
        add_colors(out, rgbs).no_duplicates(),
        forall|c: Seq<char>|
            #[trigger] add_colors(out, rgbs).contains(c) <==> (out.contains(c) || has_color(rgbs, c)),
    decreases rgbs.len(),
{
    if rgbs.len() > 0 {
        let front = rgbs.drop_last();
        lemma_add_colors(out, front);
        let prev = add_colors(out, front);
        let last = rgbs.last();
        let c0 = color_hex(last.0, last.1, last.2);
        let res = add_colors(out, rgbs);
        assert forall|c: Seq<char>| #[trigger] res.contains(c) <==> (prev.contains(c) || c == c0) by {
            if !prev.contains(c0) {
                if c == c0 {
                    assert(prev.push(c0)[prev.len() as int] == c0);
                }
                if prev.contains(c) {
                    let j = choose|j: int| 0 <= j < prev.len() && prev[j] == c;
                    assert(prev.push(c0)[j] == c);
                }
                if res.contains(c) {
                    let j = choose|j: int| 0 <= j < res.len() && res[j] == c;
                    if j < prev.len() {
                        assert(prev[j] == c);
                    }
                }
            }
        }
        assert forall|c: Seq<char>| #[trigger] has_color(rgbs, c) <==> (has_color(front, c) || c == c0) by {
            if exists|i: int| 0 <= i < rgbs.len() && c == color_hex(rgbs[i].0, rgbs[i].1, rgbs[i].2) {
                let i = choose|i: int|
                    0 <= i < rgbs.len() && c == color_hex(rgbs[i].0, rgbs[i].1, rgbs[i].2);
                if i < front.len() {
                    assert(front[i] == rgbs[i]);
                }
            }
            if exists|i: int|
                0 <= i < front.len() && c == color_hex(front[i].0, front[i].1, front[i].2) {
                let i = choose|i: int|
                    0 <= i < front.len() && c == color_hex(front[i].0, front[i].1, front[i].2);
                assert(front[i] == rgbs[i]);
            }
            if c == c0 {
                assert(rgbs[rgbs.len() - 1] == last);
            }
        }
        if !prev.contains(c0) {
            assert forall|a: int, b: int| 0 <= a < b < res.len() implies res[a] != res[b] by {
                if b == prev.len() {
                    assert(prev[a] == res[a]);
                }
            }
        }
    }
}

/// The pixel width after doubling the density: half of it, when it is
/// larger than one (a width of one cannot be halved).
pub fn halved_pixelwidth(pixelwidth: i32) -> (r: Option<i32>)
    ensures
        r == if pixelwidth > 1 {
            Some((pixelwidth / 2) as i32)
        } else {
            None::<i32>
        },
{
    if pixelwidth > 1 {
        Some(pixelwidth / 2)
    } else {
        None
    }
}

/// The four positions that a pixel at `(x, y)` becomes at double density,
/// in the order they are stored.
pub open spec fn spec_doubled(x: int, y: int) -> Seq<(int, int)> {
    seq![(2 * x, 2 * y), (2 * x, 2 * y + 1), (2 * x + 1, 2 * y), (2 * x + 1, 2 * y + 1)]
}

/// The four positions that a pixel at `(x, y)` becomes at double density.
pub fn doubled_positions(x: i32, y: i32) -> (r: Vec<(i32, i32)>)
    requires
        i32::MIN <= 2 * x <= i32::MAX,
        i32::MIN <= 2 * y <= i32::MAX,
    ensures
        r@.len() == 4,
        forall|i: int|
            0 <= i < 4 ==> (#[trigger] r@[i]).0 == spec_doubled(x as int, y as int)[i].0 && r@[i].1
                == spec_doubled(x as int, y as int)[i].1,
{
    let new_x = x * 2;
    let new_y = y * 2;
    let mut r: Vec<(i32, i32)> = Vec::new();
    let mut dx: i32 = 0;
    while dx < 2
        invariant
            0 <= dx <= 2,
            new_x == 2 * x,
            new_y == 2 * y,
            i32::MIN <= 2 * x <= i32::MAX,
            i32::MIN <= 2 * y <= i32::MAX,
            r@.len() == 2 * dx,
            forall|i: int|
                0 <= i < 2 * dx ==> (#[trigger] r@[i]).0 == spec_doubled(x as int, y as int)[i].0
                    && r@[i].1 == spec_doubled(x as int, y as int)[i].1,
        decreases 2 - dx,
    {
        let mut dy: i32 = 0;
        while dy < 2
            invariant
                0 <= dx < 2,
                0 <= dy <= 2,
                new_x == 2 * x,
                new_y == 2 * y,
                i32::MIN <= 2 * x <= i32::MAX,
                i32::MIN <= 2 * y <= i32::MAX,
                r@.len() == 2 * dx + dy,
                forall|i: int|
                    0 <= i < 2 * dx + dy ==> (#[trigger] r@[i]).0 == spec_doubled(
                        x as int,
                        y as int,
                    )[i].0 && r@[i].1 == spec_doubled(x as int, y as int)[i].1,
            decreases 2 - dy,
        {
            r.push((new_x + dx, new_y + dy));
            dy = dy + 1;
        }
        dx = dx + 1;
    }
    r
}

/// Whether a `k`-square block at position `q` covers canvas pixel `(cx, cy)`.
pub open spec fn block_at_covers(q: (int, int), k: int, cx: int, cy: int) -> bool {
    0 <= cx - q.0 * k < k && 0 <= cy - q.1 * k < k
}

/// Doubling the density keeps the picture: when the pixel width is even,
/// the block of a pixel covers exactly what the blocks of its four doubled
/// positions cover at half the width.
pub proof fn lemma_doubling_keeps_picture(p: PlacedPixel, pw: int, w: int, cx: int, cy: int)
    requires
        pw > 0,
        pw % 2 == 0,
    ensures
        covers(p, pw, Placement::Offset(0), w, cx, cy) <==> exists|i: int|
            0 <= i < 4 && block_at_covers(
                #[trigger] spec_doubled(p.x as int, p.y as int)[i],
                pw / 2,
                cx,
                cy,
            ),
{
    let k = pw / 2;
    assert(p.x * pw == (2 * p.x) * k) by (nonlinear_arith)
        requires
            pw == 2 * k,
    ;
    assert(p.y * pw == (2 * p.y) * k) by (nonlinear_arith)
        requires
            pw == 2 * k,
    ;
    assert((2 * p.x + 1) * k == (2 * p.x) * k + k) by (nonlinear_arith);
    assert((2 * p.y + 1) * k == (2 * p.y) * k + k) by (nonlinear_arith);
    let d = spec_doubled(p.x as int, p.y as int);
    if covers(p, pw, Placement::Offset(0), w, cx, cy) {
        let dx = cx - p.x * pw;
        let dy = cy - p.y * pw;
        let i = if dx < k {
            if dy < k {
                0int
            } else {
                1int
            }
        } else {
            if dy < k {
                2int
            } else {
                3int
            }
        };
        assert(block_at_covers(d[i], k, cx, cy));
    }
}

} // verus!
