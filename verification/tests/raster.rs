use chaikin::canvas::{blend_color, PixelCanvas};
use chaikin::fixed::{
    abs_of, div_floor, floor_of, fract_of, isqrt, lerp_of, round_of, HALF, ONE,
};

/// A coordinate given in pixels.
fn fx(v: f32) -> i32 {
    (v as f64 * 65536.0).round() as i32
}

fn sum_of(canvas: &PixelCanvas) -> u64 {
    let mut sum: u64 = 0;
    for (i, p) in canvas.pixels().iter().enumerate() {
        sum = sum.wrapping_mul(1_000_003).wrapping_add(*p as u64 + i as u64);
    }
    sum
}

/// The pixels that are not zero, as (x, y, value).
fn lit_pixels(canvas: &PixelCanvas) -> Vec<(usize, usize, u32)> {
    let w = canvas.width();
    canvas
        .pixels()
        .iter()
        .enumerate()
        .filter(|(_, p)| **p != 0)
        .map(|(i, p)| (i % w, i / w, *p))
        .collect()
}

#[test]
fn test_fixed_point_helpers() {
    assert_eq!(ONE, 65536);
    assert_eq!(HALF, 32768);
    assert_eq!(floor_of(65535), 0);
    assert_eq!(floor_of(65536), 1);
    assert_eq!(floor_of(-1), -1);
    assert_eq!(floor_of(-65536), -1);
    assert_eq!(floor_of(-65537), -2);
    assert_eq!(floor_of(i64::MIN), -140737488355328);
    assert_eq!(fract_of(-1), 65535);
    assert_eq!(fract_of(65536 + 7), 7);
    assert_eq!(fract_of(-65536), 0);
    assert_eq!(round_of(32767), 0);
    assert_eq!(round_of(32768), 1);
    assert_eq!(round_of(-32767), 0);
    assert_eq!(round_of(-32768), -1);
    assert_eq!(round_of(i32::MAX), 32768);
    assert_eq!(round_of(i32::MIN), -32768);
    assert_eq!(div_floor(7, 2), 3);
    assert_eq!(div_floor(-7, 2), -4);
    assert_eq!(div_floor(-8, 2), -4);
    assert_eq!(div_floor(-1, 1000), -1);
    assert_eq!(div_floor(0, 5), 0);
    assert_eq!(abs_of(-5), 5);
    assert_eq!(abs_of(5), 5);
    assert_eq!(lerp_of(0, 100, 0), 0);
    assert_eq!(lerp_of(0, 100, 65536), 100);
    assert_eq!(lerp_of(100, 0, 16384), 75);
    assert_eq!(lerp_of(-100, 100, 32768), 0);
}

#[test]
fn test_integer_square_root() {
    assert_eq!(isqrt(0), 0);
    assert_eq!(isqrt(1), 1);
    assert_eq!(isqrt(3), 1);
    assert_eq!(isqrt(4), 2);
    assert_eq!(isqrt(24), 4);
    assert_eq!(isqrt(25), 5);
    assert_eq!(isqrt(17 << 32), 270211);
    assert_eq!(isqrt(u64::MAX as u128), 4294967295);
    assert_eq!(isqrt(u128::MAX), 18446744073709551615);
}

#[test]
fn test_blend_formula() {
    assert_eq!(blend_color(0xFF8040, 0x000000, 32768), 0x7F4020);
    assert_eq!(blend_color(0xFF8040, 0x102030, 32768), 0x875038);
    assert_eq!(blend_color(0x00FF5555, 0x80333333, 16384), 0x663B3B);
}

#[test]
fn test_blend_at_full_and_zero_coverage() {
    let mut canvas = PixelCanvas::new(4, 3);
    canvas.draw_pixel(1, 1, 0x00123456);
    canvas.draw_pixel_aa(1, 1, 0x00ABCDEF, 65536);
    assert_eq!(canvas.get_pixel(1, 1), Some(0x00ABCDEF));
    canvas.draw_pixel_aa(1, 1, 0x00FFFFFF, 0);
    assert_eq!(canvas.get_pixel(1, 1), Some(0x00ABCDEF));
    // a blend keeps the colour channels only
    canvas.draw_pixel(2, 2, 0x80333333);
    canvas.draw_pixel_aa(2, 2, 0xFFABCDEF, 0);
    assert_eq!(canvas.get_pixel(2, 2), Some(0x00333333));
    canvas.draw_pixel_aa(2, 2, 0xFFABCDEF, 65536);
    assert_eq!(canvas.get_pixel(2, 2), Some(0x00ABCDEF));
}

#[test]
fn test_writes_outside_the_canvas_change_nothing() {
    let mut canvas = PixelCanvas::new(5, 4);
    for y in 0..4 {
        for x in 0..5 {
            canvas.draw_pixel(x, y, (x * 16 + y + 1) as u32);
        }
    }
    let before = sum_of(&canvas);
    let outside = [
        (-1, 0),
        (0, -1),
        (5, 0),
        (0, 4),
        (5, 4),
        (-1, -1),
        (i32::MIN, i32::MIN),
        (i32::MAX, i32::MAX),
        (i32::MAX, 0),
        (0, i32::MIN),
    ];
    for (x, y) in outside {
        canvas.draw_pixel_aa(x, y, 0x00FFFFFF, 65536);
        canvas.draw_pixel_aa(x, y, 0x00FFFFFF, 12345);
        canvas.draw_pixel(x, y, 0x00FFFFFF);
        assert_eq!(canvas.get_pixel(x, y), None);
        assert_eq!(sum_of(&canvas), before);
    }
}

#[test]
fn test_pixel_positions_are_row_major() {
    let mut canvas = PixelCanvas::new(5, 4);
    canvas.draw_pixel(3, 2, 0xAA);
    canvas.draw_pixel(0, 0, 0xBB);
    canvas.draw_pixel(4, 3, 0xCC);
    assert_eq!(canvas.pixels()[2 * 5 + 3], 0xAA);
    assert_eq!(canvas.pixels()[0], 0xBB);
    assert_eq!(canvas.pixels()[19], 0xCC);
    assert_eq!(canvas.pixels().len(), 20);
    canvas.clear();
    assert!(canvas.pixels().iter().all(|p| *p == 0));
    assert_eq!(canvas.pixels().len(), 20);
}

#[test]
fn test_empty_canvas() {
    let mut canvas = PixelCanvas::new(0, 7);
    canvas.draw_pixel(0, 0, 1);
    canvas.draw_line_aa(0, 0, fx(3.0), fx(3.0), 0xFFFFFF);
    canvas.draw_circle_aa(0, 0, 65536, 0xFFFFFF);
    canvas.fill_rect(0, 0, 3, 3, 1);
    canvas.clear();
    assert_eq!(canvas.pixels().len(), 0);
}

#[test]
fn test_fill_rect_clips() {
    let mut canvas = PixelCanvas::new(6, 5);
    canvas.fill_rect(4, 3, 10, 10, 7);
    assert_eq!(lit_pixels(&canvas), vec![(4, 3, 7), (5, 3, 7), (4, 4, 7), (5, 4, 7)]);
    canvas.clear();
    canvas.fill_rect(1, 1, 2, 1, 9);
    assert_eq!(lit_pixels(&canvas), vec![(1, 1, 9), (2, 1, 9)]);
    canvas.clear();
    canvas.fill_rect(6, 0, 1, 1, 9);
    canvas.fill_rect(0, 5, 1, 1, 9);
    canvas.fill_rect(2, 2, 0, 3, 9);
    canvas.fill_rect(usize::MAX, usize::MAX, usize::MAX, usize::MAX, 9);
    assert_eq!(lit_pixels(&canvas), vec![]);
    canvas.fill_rect(0, 0, usize::MAX, usize::MAX, 3);
    assert!(canvas.pixels().iter().all(|p| *p == 3));
}

#[test]
fn test_horizontal_line_is_an_opaque_run() {
    let mut canvas = PixelCanvas::new(16, 12);
    canvas.draw_line_aa(fx(2.0), fx(5.0), fx(12.0), fx(5.0), 0x0055CCAA);
    let mut expected = vec![(2, 5, 0x002A6655)];
    for x in 3..12 {
        expected.push((x, 5, 0x0055CCAA));
    }
    expected.push((12, 5, 0x002A6655));
    assert_eq!(lit_pixels(&canvas), expected);
    // drawn the other way round, the line is the same
    let mut back = PixelCanvas::new(16, 12);
    back.draw_line_aa(fx(12.0), fx(5.0), fx(2.0), fx(5.0), 0x0055CCAA);
    assert_eq!(back.pixels(), canvas.pixels());
}

#[test]
fn test_vertical_line_is_an_opaque_run() {
    let mut canvas = PixelCanvas::new(16, 12);
    canvas.draw_line_aa(fx(3.0), fx(2.0), fx(3.0), fx(9.0), 0x00FFFFFF);
    let mut expected = vec![(3, 2, 0x007F7F7F)];
    for y in 3..9 {
        expected.push((3, y, 0x00FFFFFF));
    }
    expected.push((3, 9, 0x007F7F7F));
    assert_eq!(lit_pixels(&canvas), expected);
}

#[test]
fn test_line_neighbours_keep_their_colour() {
    let mut canvas = PixelCanvas::new(16, 12);
    canvas.fill_rect(0, 0, 16, 12, 0x00102030);
    canvas.draw_line_aa(fx(2.0), fx(5.0), fx(12.0), fx(5.0), 0x0055CCAA);
    for x in 3..12 {
        assert_eq!(canvas.get_pixel(x, 4), Some(0x00102030));
        assert_eq!(canvas.get_pixel(x, 5), Some(0x0055CCAA));
        assert_eq!(canvas.get_pixel(x, 6), Some(0x00102030));
        assert_eq!(canvas.get_pixel(x, 7), Some(0x00102030));
    }
}

#[test]
fn test_sloped_line_coverage() {
    let mut canvas = PixelCanvas::new(16, 12);
    canvas.draw_line_aa(fx(2.25), fx(3.5), fx(9.75), fx(6.0), 0x00FFFFFF);
    let expected = vec![
        (2, 3, 0x252525),
        (3, 3, 0x3F3F3F),
        (2, 4, 0x1A1A1A),
        (3, 4, 0xBFBFBF),
        (4, 4, 0xE9E9E9),
        (5, 4, 0x949494),
        (6, 4, 0x3F3F3F),
        (4, 5, 0x151515),
        (5, 5, 0x6A6A6A),
        (6, 5, 0xBFBFBF),
        (7, 5, 0xE9E9E9),
        (8, 5, 0x949494),
        (9, 5, 0x3F3F3F),
        (7, 6, 0x151515),
        (8, 6, 0x6A6A6A),
        (9, 6, 0xBFBFBF),
        (10, 6, 0x3A3A3A),
        (10, 7, 0x050505),
    ];
    assert_eq!(lit_pixels(&canvas), expected);
}

#[test]
fn test_steep_line_swaps_axes() {
    let mut flat = PixelCanvas::new(12, 12);
    let mut steep = PixelCanvas::new(12, 12);
    flat.draw_line_aa(fx(1.25), fx(2.5), fx(9.75), fx(5.0), 0x00FFFFFF);
    steep.draw_line_aa(fx(2.5), fx(1.25), fx(5.0), fx(9.75), 0x00FFFFFF);
    for y in 0..12 {
        for x in 0..12 {
            assert_eq!(flat.get_pixel(x, y), steep.get_pixel(y, x));
        }
    }
    assert!(flat.pixels().iter().any(|p| *p != 0));
}

#[test]
fn test_line_of_one_point() {
    let mut canvas = PixelCanvas::new(8, 8);
    canvas.draw_line_aa(fx(4.0), fx(4.0), fx(4.0), fx(4.0), 0x00FFFFFF);
    // both endpoints fall on the same pixel, each at half coverage
    assert_eq!(lit_pixels(&canvas), vec![(4, 4, 0x00BFBFBF)]);
}

#[test]
fn test_line_is_clipped() {
    let mut canvas = PixelCanvas::new(8, 8);
    canvas.draw_line_aa(fx(-20.0), fx(3.0), fx(30.0), fx(3.0), 0x00FFFFFF);
    let expected: Vec<(usize, usize, u32)> = (0..8).map(|x| (x, 3, 0x00FFFFFF)).collect();
    assert_eq!(lit_pixels(&canvas), expected);
    let mut far = PixelCanvas::new(8, 8);
    far.draw_line_aa(i32::MIN, i32::MIN, i32::MIN + 5, i32::MAX, 0x00FFFFFF);
    far.draw_line_aa(i32::MAX, i32::MAX, i32::MAX, i32::MAX, 0x00FFFFFF);
    assert_eq!(lit_pixels(&far), vec![]);
}

#[test]
fn test_circle_coverage() {
    let mut canvas = PixelCanvas::new(24, 24);
    canvas.draw_circle_aa(fx(10.0), fx(10.0), 5 * 65536, 0x00FF5555);
    assert_eq!(canvas.get_pixel(10, 10), Some(0x00FF5555));
    assert_eq!(canvas.get_pixel(14, 10), Some(0x00FF5555));
    assert_eq!(canvas.get_pixel(6, 10), Some(0x00FF5555));
    assert_eq!(canvas.get_pixel(10, 14), Some(0x00FF5555));
    assert_eq!(canvas.get_pixel(14, 11), Some(0x00DF4A4A));
    assert_eq!(canvas.get_pixel(13, 13), Some(0x00C14040));
    assert_eq!(canvas.get_pixel(14, 12), Some(0x00862C2C));
    assert_eq!(canvas.get_pixel(15, 10), Some(0));
    assert_eq!(canvas.get_pixel(16, 10), Some(0));
    assert_eq!(canvas.get_pixel(17, 10), Some(0));
    // the four quadrants mirror each other
    for dy in 0..8 {
        for dx in 0..8 {
            let p = canvas.get_pixel(10 + dx, 10 + dy);
            assert_eq!(canvas.get_pixel(10 - dx, 10 + dy), p);
            assert_eq!(canvas.get_pixel(10 + dx, 10 - dy), p);
            assert_eq!(canvas.get_pixel(10 - dx, 10 - dy), p);
        }
    }
}

#[test]
fn test_circle_edge_clears_the_top_byte() {
    let mut canvas = PixelCanvas::new(24, 24);
    canvas.fill_rect(0, 0, 24, 24, 0x80333333);
    canvas.draw_circle_aa(fx(10.0), fx(10.0), 5 * 65536, 0x00FF5555);
    // at distance 5 and 6 the coverage is zero, but the pixel is blended
    assert_eq!(canvas.get_pixel(15, 10), Some(0x00333333));
    assert_eq!(canvas.get_pixel(16, 10), Some(0x00333333));
    // beyond distance 6 nothing is written
    assert_eq!(canvas.get_pixel(17, 10), Some(0x80333333));
    assert_eq!(canvas.get_pixel(10, 10), Some(0x00FF5555));
}

#[test]
fn test_circle_is_clipped() {
    let mut canvas = PixelCanvas::new(6, 6);
    canvas.draw_circle_aa(fx(0.0), fx(0.0), 3 * 65536, 0x00FFFFFF);
    assert_eq!(canvas.get_pixel(0, 0), Some(0x00FFFFFF));
    assert_eq!(canvas.get_pixel(2, 0), Some(0x00FFFFFF));
    assert_eq!(canvas.get_pixel(3, 0), Some(0));
    assert_eq!(canvas.get_pixel(5, 5), Some(0));
    let mut far = PixelCanvas::new(6, 6);
    far.draw_circle_aa(fx(-50.0), fx(3.0), 5 * 65536, 0x00FFFFFF);
    far.draw_circle_aa(fx(3.0), fx(60.0), 5 * 65536, 0x00FFFFFF);
    far.draw_circle_aa(i32::MIN, i32::MIN, 65536, 0x00FFFFFF);
    far.draw_circle_aa(i32::MAX, i32::MAX, 65536, 0x00FFFFFF);
    assert_eq!(lit_pixels(&far), vec![]);
    let mut all = PixelCanvas::new(6, 6);
    all.draw_circle_aa(fx(3.0), fx(3.0), u32::MAX, 0x00ABCDEF);
    assert!(all.pixels().iter().all(|p| *p == 0x00ABCDEF));
}

#[test]
fn test_circle_of_radius_zero() {
    let mut canvas = PixelCanvas::new(8, 8);
    canvas.draw_circle_aa(fx(4.0), fx(4.0), 0, 0x00FFFFFF);
    // distance 0 from a radius of 0: one pixel past radius - 1, so no coverage
    assert_eq!(lit_pixels(&canvas), vec![]);
    let mut small = PixelCanvas::new(8, 8);
    small.draw_circle_aa(fx(4.0), fx(4.0), 32768, 0x00FFFFFF);
    // distance 0 from a radius of 1/2: half a pixel past radius - 1
    assert_eq!(lit_pixels(&small), vec![(4, 4, 0x007F7F7F)]);
}
