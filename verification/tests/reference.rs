//! The fixed-point results, held against the same formulas evaluated in
//! floating point.

use chaikin::algorithm::ChaikinAlgorithm;
use chaikin::canvas::{blend_color, PixelCanvas};
use chaikin::types::Point;

fn to_fixed(v: f32) -> i32 {
    (v as f64 * 65536.0).round() as i32
}

fn to_float(v: i32) -> f32 {
    (v as f64 / 65536.0) as f32
}

/// A canvas computed in floating point.
struct FloatCanvas {
    width: usize,
    height: usize,
    pixels: Vec<u32>,
}

impl FloatCanvas {
    fn blank(width: usize, height: usize) -> FloatCanvas {
        FloatCanvas { width, height, pixels: vec![0; width * height] }
    }

    fn blend(&mut self, x: i32, y: i32, color: u32, alpha: f32) {
        if x < 0 || x >= self.width as i32 || y < 0 || y >= self.height as i32 {
            return;
        }
        let index = y as usize * self.width + x as usize;
        self.pixels[index] = float_blend(color, self.pixels[index], alpha);
    }

    fn circle(&mut self, cx: f32, cy: f32, radius: f32, color: u32) {
        let x0 = (cx - radius - 1.0).max(0.0) as i32;
        let y0 = (cy - radius - 1.0).max(0.0) as i32;
        let x1 = (cx + radius + 1.0).min(self.width as f32 - 1.0) as i32;
        let y1 = (cy + radius + 1.0).min(self.height as f32 - 1.0) as i32;
        for y in y0..=y1 {
            for x in x0..=x1 {
                let dx = x as f32 - cx;
                let dy = y as f32 - cy;
                let distance = (dx * dx + dy * dy).sqrt();
                if distance <= radius + 1.0 {
                    let alpha = if distance <= radius - 1.0 {
                        1.0
                    } else {
                        1.0 - (distance - (radius - 1.0)).min(1.0)
                    };
                    self.blend(x, y, color, alpha);
                }
            }
        }
    }

    fn line(&mut self, mut x0: f32, mut y0: f32, mut x1: f32, mut y1: f32, color: u32) {
        let steep = (y1 - y0).abs() > (x1 - x0).abs();
        if steep {
            std::mem::swap(&mut x0, &mut y0);
            std::mem::swap(&mut x1, &mut y1);
        }
        if x0 > x1 {
            std::mem::swap(&mut x0, &mut x1);
            std::mem::swap(&mut y0, &mut y1);
        }
        let dx = x1 - x0;
        let dy = y1 - y0;
        let gradient = if dx.abs() < 1e-6 { 1.0 } else { dy / dx };

        let xend = x0.round();
        let yend = y0 + gradient * (xend - x0);
        let xgap = 1.0 - (x0 + 0.5 - xend).abs();
        let first = xend as i32;
        self.pair(steep, first, yend, xgap, color);
        let mut intery = yend + gradient;

        let xend = x1.round();
        let yend = y1 + gradient * (xend - x1);
        let xgap = (x1 + 0.5 - xend).abs();
        let last = xend as i32;
        self.pair(steep, last, yend, xgap, color);

        for x in (first + 1)..last {
            self.pair(steep, x, intery, 1.0, color);
            intery += gradient;
        }
    }

    fn pair(&mut self, steep: bool, col: i32, y: f32, gap: f32, color: u32) {
        let row = y.floor() as i32;
        let part = y - y.floor();
        if steep {
            self.blend(row, col, color, (1.0 - part) * gap);
            self.blend(row + 1, col, color, part * gap);
        } else {
            self.blend(col, row, color, (1.0 - part) * gap);
            self.blend(col, row + 1, color, part * gap);
        }
    }
}

fn float_blend(color: u32, bg: u32, alpha: f32) -> u32 {
    let r1 = ((color >> 16) & 0xFF) as f32;
    let g1 = ((color >> 8) & 0xFF) as f32;
    let b1 = (color & 0xFF) as f32;
    let r2 = ((bg >> 16) & 0xFF) as f32;
    let g2 = ((bg >> 8) & 0xFF) as f32;
    let b2 = (bg & 0xFF) as f32;
    let r = (r1 * alpha + r2 * (1.0 - alpha)) as u32;
    let g = (g1 * alpha + g2 * (1.0 - alpha)) as u32;
    let b = (b1 * alpha + b2 * (1.0 - alpha)) as u32;
    (r << 16) | (g << 8) | b
}

/// Largest difference between two pixels in any channel.
fn channel_gap(a: u32, b: u32) -> u32 {
    let mut gap = 0;
    for shift in [24, 16, 8, 0] {
        let x = (a >> shift) & 0xFF;
        let y = (b >> shift) & 0xFF;
        gap = gap.max(x.abs_diff(y));
    }
    gap
}

fn largest_gap(fixed: &PixelCanvas, float: &FloatCanvas) -> u32 {
    assert_eq!(fixed.pixels().len(), float.pixels.len());
    fixed.pixels().iter().zip(float.pixels.iter()).map(|(a, b)| channel_gap(*a, *b)).max().unwrap_or(0)
}

fn float_step(points: &[(f32, f32)], q: f32, r: f32) -> Vec<(f32, f32)> {
    if points.len() <= 2 {
        return points.to_vec();
    }
    let mut out = vec![points[0]];
    for i in 0..points.len() - 1 {
        let p0 = points[i];
        let p1 = points[i + 1];
        out.push(((1.0 - q) * p0.0 + q * p1.0, (1.0 - q) * p0.1 + q * p1.1));
        out.push(((1.0 - r) * p0.0 + r * p1.0, (1.0 - r) * p0.1 + r * p1.1));
    }
    out.push(*points.last().unwrap());
    out
}

#[test]
fn test_blend_agrees_with_floating_point() {
    let colors = [0x000000, 0xFFFFFF, 0xFF5555, 0x55CCAA, 0x333333, 0x123456, 0xFE01A7];
    let mut worst = 0;
    for color in colors {
        for bg in colors {
            for step in 0..=256u32 {
                let alpha = step * 256;
                let fixed = blend_color(color, bg, alpha);
                let float = float_blend(color, bg, alpha as f32 / 65536.0);
                worst = worst.max(channel_gap(fixed, float));
            }
        }
    }
    assert!(worst <= 1, "channels differ by {}", worst);
}

#[test]
fn test_subdivision_agrees_with_floating_point() {
    let algorithm = ChaikinAlgorithm::new();
    let start = [(10.0f32, 10.0f32), (400.0, 10.0), (400.0, 300.0), (123.25, 599.5), (0.0, 0.0)];
    let fixed_start: Vec<Point> =
        start.iter().map(|p| Point::new(to_fixed(p.0), to_fixed(p.1))).collect();
    let mut float = start.to_vec();
    for step in 0..7usize {
        let fixed = algorithm.get_step_points(&fixed_start, step);
        assert_eq!(fixed.len(), float.len());
        for (a, b) in fixed.iter().zip(float.iter()) {
            assert!((to_float(a.x) - b.0).abs() < 0.001);
            assert!((to_float(a.y) - b.1).abs() < 0.001);
        }
        float = float_step(&float, 0.25, 0.75);
    }
}

#[test]
fn test_whole_pixel_subdivision_is_exact() {
    // seven steps of quarters need fourteen fractional bits
    let algorithm = ChaikinAlgorithm::new();
    let start = [(10.0f32, 10.0f32), (400.0, 10.0), (400.0, 300.0)];
    let fixed_start: Vec<Point> =
        start.iter().map(|p| Point::new(to_fixed(p.0), to_fixed(p.1))).collect();
    let mut float = start.to_vec();
    for step in 0..7usize {
        let fixed = algorithm.get_step_points(&fixed_start, step);
        for (a, b) in fixed.iter().zip(float.iter()) {
            assert_eq!(to_float(a.x), b.0);
            assert_eq!(to_float(a.y), b.1);
        }
        float = float_step(&float, 0.25, 0.75);
    }
}

#[test]
fn test_lines_agree_with_floating_point() {
    let lines = [
        (2.25f32, 3.5f32, 9.75f32, 6.0f32),
        (2.0, 5.0, 40.0, 5.0),
        (7.0, 2.0, 7.0, 30.0),
        (1.5, 1.5, 60.25, 44.75),
        (60.0, 2.0, 3.0, 45.0),
        (10.3, 40.7, 12.9, 3.2),
        (-5.0, 20.0, 70.0, 21.5),
        (30.0, -9.0, 33.0, 60.0),
        (5.0, 5.0, 5.0, 5.0),
        (8.2, 8.9, 8.6, 9.1),
    ];
    let mut fixed = PixelCanvas::new(64, 48);
    let mut float = FloatCanvas::blank(64, 48);
    for (x0, y0, x1, y1) in lines {
        fixed.draw_line_aa(to_fixed(x0), to_fixed(y0), to_fixed(x1), to_fixed(y1), 0x0055CCAA);
        float.line(x0, y0, x1, y1, 0x0055CCAA);
        let gap = largest_gap(&fixed, &float);
        assert!(gap <= 2, "channels differ by {}", gap);
    }
    assert!(fixed.pixels().iter().filter(|p| **p != 0).count() > 200);
}

#[test]
fn test_circles_agree_with_floating_point() {
    let circles = [
        (10.0f32, 10.0f32, 5.0f32),
        (30.5, 20.25, 5.0),
        (0.0, 0.0, 5.0),
        (63.0, 47.0, 5.0),
        (40.0, 30.0, 12.5),
        (20.0, 40.0, 0.5),
        (50.0, 10.0, 1.0),
        (-3.0, 24.0, 5.0),
    ];
    let mut fixed = PixelCanvas::new(64, 48);
    let mut float = FloatCanvas::blank(64, 48);
    for (cx, cy, radius) in circles {
        fixed.draw_circle_aa(to_fixed(cx), to_fixed(cy), to_fixed(radius) as u32, 0x00FF5555);
        float.circle(cx, cy, radius, 0x00FF5555);
        let gap = largest_gap(&fixed, &float);
        assert!(gap <= 2, "channels differ by {}", gap);
    }
    assert!(fixed.pixels().iter().filter(|p| **p != 0).count() > 500);
}
