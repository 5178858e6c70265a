use chaikin::algorithm::{copy_points, ChaikinAlgorithm};
use chaikin::types::Point;

/// A point given in pixels.
fn px_point(x: f32, y: f32) -> Point {
    Point::new((x * 65536.0).round() as i32, (y * 65536.0).round() as i32)
}

/// A fixed-point coordinate in pixels.
fn in_px(v: i32) -> f32 {
    (v as f64 / 65536.0) as f32
}

/// A ratio as a fixed-point value.
fn as_ratio(r: f32) -> u32 {
    (r as f64 * 65536.0).round() as u32
}

#[test]
fn test_empty_points() {
    let algorithm = ChaikinAlgorithm::new();
    let empty: Vec<Point> = Vec::new();

    assert_eq!(algorithm.calculate_step(&empty).len(), 0);
    assert_eq!(algorithm.get_step_points(&empty, 1).len(), 0);
}

#[test]
fn test_single_point() {
    let algorithm = ChaikinAlgorithm::new();
    let point = px_point(100.0, 100.0);
    let points = vec![point];

    let step_result = algorithm.calculate_step(&points);
    assert_eq!(step_result.len(), 1);
    assert_eq!(step_result[0], point);

    let step_points = algorithm.get_step_points(&points, 3);
    assert_eq!(step_points.len(), 1);
    assert_eq!(step_points[0], point);
}

#[test]
fn test_two_points() {
    let algorithm = ChaikinAlgorithm::new();
    let points = vec![px_point(0.0, 0.0), px_point(100.0, 100.0)];

    let step_result = algorithm.calculate_step(&points);
    assert_eq!(step_result.len(), 2);
    assert_eq!(step_result[0], points[0]);
    assert_eq!(step_result[1], points[1]);
}

#[test]
fn test_three_points() {
    let algorithm = ChaikinAlgorithm::new();
    let points = vec![px_point(0.0, 0.0), px_point(100.0, 100.0), px_point(200.0, 0.0)];

    let step1 = algorithm.calculate_step(&points);

    assert_eq!(step1.len(), 6);

    assert_eq!(step1[0], points[0]);
    assert_eq!(step1[step1.len() - 1], *points.last().unwrap());

    assert!((in_px(step1[1].x) - 25.0).abs() < 0.001);
    assert!((in_px(step1[1].y) - 25.0).abs() < 0.001);

    assert!((in_px(step1[3].x) - 125.0).abs() < 0.001);
    assert!((in_px(step1[3].y) - 75.0).abs() < 0.001);

    assert!((in_px(step1[2].x) - 75.0).abs() < 0.001);
    assert!((in_px(step1[2].y) - 75.0).abs() < 0.001);

    assert!((in_px(step1[4].x) - 175.0).abs() < 0.001);
    assert!((in_px(step1[4].y) - 25.0).abs() < 0.001);
}

#[test]
fn test_multiple_steps() {
    let algorithm = ChaikinAlgorithm::new();
    let points = vec![px_point(0.0, 0.0), px_point(100.0, 100.0), px_point(200.0, 0.0)];

    let steps = algorithm.calculate_steps(&points, 7);

    assert_eq!(steps.len(), 8);

    assert_eq!(steps[0].len(), 3);
    assert_eq!(steps[0][0], points[0]);
    assert_eq!(steps[0][1], points[1]);
    assert_eq!(steps[0][2], points[2]);

    for i in 1..steps.len() {
        assert!(steps[i].len() >= steps[i - 1].len());
    }
}

#[test]
fn test_custom_ratios() {
    let algorithm = ChaikinAlgorithm::with_ratios(as_ratio(0.4), as_ratio(0.6));

    let points = vec![px_point(0.0, 0.0), px_point(100.0, 0.0)];

    let step = algorithm.calculate_step(&points);

    assert_eq!(step.len(), 2);
}

#[test]
fn test_three_points_exact() {
    let algorithm = ChaikinAlgorithm::new();
    let points = vec![
        Point::from_pixels(0, 0),
        Point::from_pixels(100, 100),
        Point::from_pixels(200, 0),
    ];
    let step = algorithm.calculate_step(&points);
    let expected = vec![
        Point::from_pixels(0, 0),
        Point::from_pixels(25, 25),
        Point::from_pixels(75, 75),
        Point::from_pixels(125, 75),
        Point::from_pixels(175, 25),
        Point::from_pixels(200, 0),
    ];
    assert_eq!(step, expected);
}

#[test]
fn test_short_polylines_are_unchanged() {
    let algorithm = ChaikinAlgorithm::with_ratios(as_ratio(0.125), as_ratio(0.5));
    let none: Vec<Point> = Vec::new();
    let one = vec![Point::new(-7, 9)];
    let two = vec![Point::new(i32::MIN, i32::MAX), Point::new(i32::MAX, i32::MIN)];
    assert_eq!(algorithm.calculate_step(&none), none);
    assert_eq!(algorithm.calculate_step(&one), one);
    assert_eq!(algorithm.calculate_step(&two), two);
    assert_eq!(algorithm.get_step_points(&two, 5), two);
    let all = algorithm.calculate_steps(&two, 4);
    assert_eq!(all.len(), 1);
    assert_eq!(all[0], two);
}

#[test]
fn test_step_shape_for_longer_polylines() {
    let algorithm = ChaikinAlgorithm::new();
    let mut points: Vec<Point> = Vec::new();
    for n in 0..9i16 {
        points.push(Point::from_pixels(n * 10, (n % 3) * 7 - 5));
        if points.len() >= 3 {
            let out = algorithm.calculate_step(&points);
            assert_eq!(out.len(), 2 * (points.len() - 1) + 2);
            assert_eq!(out[0], points[0]);
            assert_eq!(out[out.len() - 1], points[points.len() - 1]);
        }
    }
}

#[test]
fn test_step_zero_is_identity() {
    let algorithm = ChaikinAlgorithm::new();
    let points = vec![
        Point::from_pixels(3, 4),
        Point::from_pixels(30, 40),
        Point::from_pixels(-300, 400),
        Point::from_pixels(0, 0),
    ];
    assert_eq!(algorithm.get_step_points(&points, 0), points);
}

#[test]
fn test_step_k_is_k_single_steps() {
    let algorithm = ChaikinAlgorithm::new();
    let points = vec![
        Point::from_pixels(10, 10),
        Point::from_pixels(400, 10),
        Point::from_pixels(400, 300),
        Point::new(12345, -54321),
    ];
    let mut current = copy_points(&points);
    for k in 0..6usize {
        assert_eq!(algorithm.get_step_points(&points, k), current);
        current = algorithm.calculate_step(&current);
    }
    let all = algorithm.calculate_steps(&points, 5);
    assert_eq!(all.len(), 6);
    for k in 0..6usize {
        assert_eq!(all[k], algorithm.get_step_points(&points, k));
    }
}

#[test]
fn test_point_count_doubles_each_step() {
    let algorithm = ChaikinAlgorithm::new();
    let points = vec![
        Point::from_pixels(10, 10),
        Point::from_pixels(400, 10),
        Point::from_pixels(400, 300),
    ];
    let counts: Vec<usize> =
        (0..7usize).map(|k| algorithm.get_step_points(&points, k).len()).collect();
    assert_eq!(counts, vec![3, 6, 12, 24, 48, 96, 192]);
}

#[test]
fn test_cut_rounds_to_nearest() {
    // 0.25 of the way from 0 to 2/65536 is 0.5/65536, which rounds up to 1;
    // 0.75 of the way is 1.5/65536, which rounds up to 2.
    let algorithm = ChaikinAlgorithm::new();
    let points = vec![Point::new(0, 0), Point::new(2, -2), Point::new(2, -2)];
    let out = algorithm.calculate_step(&points);
    assert_eq!(out[1], Point::new(1, 0));
    assert_eq!(out[2], Point::new(2, -1));
    assert_eq!(out[3], Point::new(2, -2));
    assert_eq!(out[4], Point::new(2, -2));
}

#[test]
fn test_custom_ratios_exact() {
    let algorithm = ChaikinAlgorithm::with_ratios(65536 / 8, 65536 / 2);
    let points = vec![
        Point::from_pixels(0, 0),
        Point::from_pixels(80, -160),
        Point::from_pixels(80, 0),
    ];
    let out = algorithm.calculate_step(&points);
    let expected = vec![
        Point::from_pixels(0, 0),
        Point::from_pixels(10, -20),
        Point::from_pixels(40, -80),
        Point::from_pixels(80, -140),
        Point::from_pixels(80, -80),
        Point::from_pixels(80, 0),
    ];
    assert_eq!(out, expected);
}

#[test]
fn test_extreme_coordinates_do_not_overflow() {
    let algorithm = ChaikinAlgorithm::new();
    let points = vec![
        Point::new(i32::MIN, i32::MAX),
        Point::new(i32::MAX, i32::MIN),
        Point::new(i32::MIN, i32::MIN),
    ];
    let out = algorithm.calculate_step(&points);
    assert_eq!(out.len(), 6);
    // a quarter of the way from MIN to MAX
    assert_eq!(out[1].x, -1073741824);
    assert_eq!(out[1].y, 1073741823);
    assert_eq!(out[2].x, 1073741823);
    assert_eq!(out[2].y, -1073741824);
}
