use pixel_app::canvas::{Canvas, Color};
use pixel_app::color_subs::ColorSubs;
use pixel_app::encode::{encode_png, GifBuilder};
use pixel_app::query_params::GifRenderType;
use pixel_app::render::{
    add_new_colors, blocks_fit, doubled_positions, gif_frame_order, halved_pixelwidth, paint_pixels,
    substitute_color, substitution_readable, PlacedPixel, Placement,
};

const CLEAR: Color = Color { r: 0, g: 0, b: 0, a: 0 };
const RED: Color = Color { r: 255, g: 0, b: 0, a: 255 };
const BLUE: Color = Color { r: 0, g: 0, b: 255, a: 255 };

fn colors_of(canvas: &Canvas) -> Vec<Vec<Color>> {
    let mut rows = Vec::new();
    for y in 0..canvas.height() {
        let mut row = Vec::new();
        for x in 0..canvas.width() {
            row.push(canvas.get_pixel(x, y));
        }
        rows.push(row);
    }
    rows
}

#[test]
fn new_canvas_is_filled() {
    let c = Canvas::new(3, 2, RED);
    assert_eq!(c.width(), 3);
    assert_eq!(c.height(), 2);
    for row in colors_of(&c) {
        for px in row {
            assert_eq!(px, RED);
        }
    }
    let raw = c.into_raw();
    assert_eq!(raw.len(), 24);
    assert_eq!(&raw[0..4], &[255, 0, 0, 255]);
}

#[test]
fn put_pixel_changes_one_pixel() {
    let mut c = Canvas::new(2, 2, CLEAR);
    c.put_pixel(1, 0, BLUE);
    assert_eq!(c.get_pixel(1, 0), BLUE);
    assert_eq!(c.get_pixel(0, 0), CLEAR);
    assert_eq!(c.get_pixel(0, 1), CLEAR);
    assert_eq!(c.get_pixel(1, 1), CLEAR);
    let raw = c.into_raw();
    // pixel (1, 0) is the second group of four bytes
    assert_eq!(&raw[4..8], &[0, 0, 255, 255]);
}

#[test]
fn paint_blocks_of_pixelwidth() {
    let mut c = Canvas::new(4, 4, CLEAR);
    let pixels = vec![PlacedPixel { x: 1, y: 0, color: RED }];
    paint_pixels(&mut c, &pixels, 2, Placement::Offset(0));
    let rows = colors_of(&c);
    for y in 0..4 {
        for x in 0..4 {
            let expected = if x >= 2 && y < 2 { RED } else { CLEAR };
            assert_eq!(rows[y][x], expected, "pixel {} {}", x, y);
        }
    }
}

#[test]
fn paint_clips_blocks_outside_the_canvas() {
    let mut c = Canvas::new(3, 3, CLEAR);
    let pixels = vec![PlacedPixel { x: 1, y: 1, color: RED }, PlacedPixel { x: -1, y: 0, color: BLUE }];
    paint_pixels(&mut c, &pixels, 2, Placement::Offset(0));
    let rows = colors_of(&c);
    assert_eq!(rows[2][2], RED);
    assert_eq!(rows[1][1], CLEAR);
    assert_eq!(rows[0][0], CLEAR);
}

#[test]
fn later_pixels_paint_over_earlier_ones() {
    let mut c = Canvas::new(2, 2, CLEAR);
    let pixels = vec![PlacedPixel { x: 0, y: 0, color: RED }, PlacedPixel { x: 0, y: 0, color: BLUE }];
    paint_pixels(&mut c, &pixels, 1, Placement::Offset(0));
    assert_eq!(c.get_pixel(0, 0), BLUE);
}

#[test]
fn mirrored_placement_flips_columns() {
    let mut c = Canvas::new(4, 1, CLEAR);
    let pixels = vec![PlacedPixel { x: 0, y: 0, color: RED }];
    paint_pixels(&mut c, &pixels, 1, Placement::Mirrored);
    assert_eq!(c.get_pixel(3, 0), RED);
    assert_eq!(c.get_pixel(0, 0), CLEAR);
}

#[test]
fn offset_placement_shifts_a_sprite_frame() {
    let mut c = Canvas::new(6, 2, CLEAR);
    let pixels = vec![PlacedPixel { x: 0, y: 0, color: RED }];
    paint_pixels(&mut c, &pixels, 2, Placement::Offset(3));
    let rows = colors_of(&c);
    for y in 0..2 {
        for x in 0..6 {
            let expected = if x == 3 || x == 4 { RED } else { CLEAR };
            assert_eq!(rows[y][x], expected);
        }
    }
}

#[test]
fn blocks_fit_detects_overflow() {
    let ok = vec![PlacedPixel { x: 10, y: 10, color: RED }];
    assert!(blocks_fit(&ok, 4, Placement::Offset(0), 100));
    let big = vec![PlacedPixel { x: i32::MAX, y: 0, color: RED }];
    assert!(!blocks_fit(&big, 2, Placement::Offset(0), 100));
    assert!(blocks_fit(&big, 1, Placement::Offset(0), 100));
    assert!(!blocks_fit(&big, 1, Placement::Offset(1), 100));
    let neg = vec![PlacedPixel { x: i32::MIN, y: 0, color: RED }];
    assert!(!blocks_fit(&neg, 1, Placement::Mirrored, 100));
    assert!(blocks_fit(&neg, 0, Placement::Mirrored, 100));
}

#[test]
fn gif_orders() {
    assert_eq!(gif_frame_order(GifRenderType::Forward, 4), vec![0, 1, 2, 3]);
    assert_eq!(gif_frame_order(GifRenderType::Backward, 4), vec![3, 2, 1, 0]);
    assert_eq!(gif_frame_order(GifRenderType::Both, 4), vec![0, 1, 2, 3, 2, 1]);
    assert_eq!(gif_frame_order(GifRenderType::Both, 2), vec![0, 1]);
    assert_eq!(gif_frame_order(GifRenderType::Both, 1), vec![0]);
    assert_eq!(gif_frame_order(GifRenderType::Forward, 0), Vec::<i32>::new());
    assert_eq!(gif_frame_order(GifRenderType::Backward, -3), Vec::<i32>::new());
}

#[test]
fn substitutions_replace_colors() {
    let subs = ColorSubs::from_query(&"ff0000=00ff00&123456=zzzzzz".to_string());
    assert!(substitution_readable(&subs, 255, 0, 0));
    assert_eq!(substitute_color(&subs, 255, 0, 0), Some((0, 255, 0)));
    assert_eq!(substitute_color(&subs, 1, 2, 3), None);
    assert!(substitution_readable(&subs, 1, 2, 3));
    // a six-byte replacement that is not hexadecimal cannot be read
    assert!(!substitution_readable(&subs, 0x12, 0x34, 0x56));
}

#[test]
fn short_replacements_are_not_taken() {
    let subs = ColorSubs::from_query(&"ff0000=abc".to_string());
    assert_eq!(subs.len(), 0);
    assert!(substitution_readable(&subs, 255, 0, 0));
    assert_eq!(substitute_color(&subs, 255, 0, 0), None);
}

#[test]
fn new_colors_are_added_once() {
    let mut colors = vec!["010203".to_string()];
    add_new_colors(&mut colors, &vec![(1, 2, 3), (255, 0, 0), (255, 0, 0), (0, 0, 0)]);
    assert_eq!(colors, vec!["010203".to_string(), "ff0000".to_string(), "000000".to_string()]);
}

#[test]
fn halving_pixel_width() {
    assert_eq!(halved_pixelwidth(8), Some(4));
    assert_eq!(halved_pixelwidth(3), Some(1));
    assert_eq!(halved_pixelwidth(1), None);
    assert_eq!(halved_pixelwidth(0), None);
    assert_eq!(halved_pixelwidth(-4), None);
}

#[test]
fn doubled_positions_cover_the_block() {
    assert_eq!(doubled_positions(3, 4), vec![(6, 8), (6, 9), (7, 8), (7, 9)]);
    assert_eq!(doubled_positions(-1, 0), vec![(-2, 0), (-2, 1), (-1, 0), (-1, 1)]);
}

#[test]
fn doubling_keeps_the_picture_on_a_sample() {
    let mut before = Canvas::new(8, 8, CLEAR);
    paint_pixels(&mut before, &vec![PlacedPixel { x: 1, y: 2, color: RED }], 2, Placement::Offset(0));
    let mut after = Canvas::new(8, 8, CLEAR);
    let doubled: Vec<PlacedPixel> = doubled_positions(1, 2)
        .into_iter()
        .map(|(x, y)| PlacedPixel { x, y, color: RED })
        .collect();
    paint_pixels(&mut after, &doubled, 1, Placement::Offset(0));
    assert_eq!(colors_of(&before), colors_of(&after));
}

#[test]
fn png_encoding_of_a_canvas() {
    let mut c = Canvas::new(2, 3, CLEAR);
    c.put_pixel(0, 0, RED);
    let bytes = encode_png(c);
    assert_eq!(&bytes[0..8], &[137, 80, 78, 71, 13, 10, 26, 10]);
    // the IHDR chunk gives the size
    assert_eq!(&bytes[12..16], b"IHDR");
    assert_eq!(&bytes[16..20], &[0, 0, 0, 2]);
    assert_eq!(&bytes[20..24], &[0, 0, 0, 3]);
}

#[test]
fn gif_encoding_of_frames() {
    let mut g = GifBuilder::new(2, 2);
    g.push_frame(Canvas::new(2, 2, RED));
    g.push_frame(Canvas::new(2, 2, BLUE));
    let bytes = g.finish();
    assert_eq!(&bytes[0..6], b"GIF89a");
    assert_eq!(&bytes[6..10], &[2, 0, 2, 0]);
    // one image descriptor per frame
    let descriptors = bytes.iter().filter(|&&b| b == 0x2c).count();
    assert!(descriptors >= 2);
    // the file is not closed with a trailer
    assert_ne!(bytes[bytes.len() - 1], 0x3b);
}
