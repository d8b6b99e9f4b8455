//! Tests for the layout-to-display transform, square geometry, and
//! rectangle containment.

use graph_view::geometry::{layout_to_clipspace, Rect, Vector2};
use graph_view::ratio::Ratio;
use graph_view::vertex::square_vertices;

/// Exact rational from a (non-subnormal, fraction-bounded) `f32` value.
fn rat(x: f32) -> Ratio {
    let mut num = x as f64;
    let mut den: i64 = 1;
    while num.fract() != 0.0 {
        num *= 2.0;
        den *= 2;
    }
    Ratio::new(num as i64, den)
}

fn vec2(x: f32, y: f32) -> Vector2 {
    Vector2::new(rat(x), rat(y))
}

fn to_f32(r: &Ratio) -> f32 {
    (r.num as f64 / r.den as f64) as f32
}

fn transform_f32(loc: &[f32], off: &[f32], scale: f32, aspect: f32) -> Vec<f32> {
    let out = layout_to_clipspace(
        vec2(loc[0], loc[1]),
        vec2(off[0], off[1]),
        rat(scale),
        rat(aspect),
    )
    .expect("transform should fit");
    vec![to_f32(&out.x), to_f32(&out.y)]
}

#[test]
fn test_layout_to_display_square_from_origin() {
    let layout_location = vec![2.0, 3.5];
    let display_offset = vec![0.0, 0.0];
    let display_scale = 0.25;
    let aspect_ratio = 1.0;

    let resulting_location = transform_f32(
        &layout_location,
        &display_offset,
        display_scale,
        aspect_ratio,
    );

    assert_eq!(resulting_location, vec![0.5, 0.875])
}

#[test]
fn test_layout_to_display_square_with_offset() {
    let layout_location = vec![10.0, 8.0];
    let display_offset = vec![7.0, 5.5];
    let display_scale = 0.5;
    let aspect_ratio = 1.0;

    let resulting_location = transform_f32(
        &layout_location,
        &display_offset,
        display_scale,
        aspect_ratio,
    );

    assert_eq!(resulting_location, vec![1.5, 1.25])
}

#[test]
fn test_layout_to_display_square_with_offset_and_aspect_ratio() {
    let layout_location = vec![3.0, 4.0];
    let display_offset = vec![3.5, 4.5];
    let display_scale = 1.0;
    let aspect_ratio = 1.6;

    let resulting_location = transform_f32(
        &layout_location,
        &display_offset,
        display_scale,
        aspect_ratio,
    );

    assert_eq!(resulting_location, vec![-0.3125, -0.5])
}

#[test]
fn test_square_vertices() {
    let location = vec![-0.5, 0.2];
    let edge_offset = 0.01;
    let aspect_ratio = 2.0;

    let out = square_vertices(&vec2(location[0], location[1]), &rat(aspect_ratio), &rat(edge_offset))
        .expect("square should fit");
    let resulting_vertices: Vec<f32> = out.iter().map(to_f32).collect();

    let expected_vertices = vec![
        -0.505, 0.21000001, -0.495, 0.21000001, -0.495, 0.19, -0.495, 0.19, -0.505, 0.19, -0.505,
        0.21000001,
    ];

    assert_eq!(resulting_vertices, expected_vertices);
}

#[test]
fn test_rect_contains_point_inside() {
    let rect = Rect::new(vec2(0.0, 0.0), vec2(5.5, 4.5));

    let point_inside = vec2(1.0, 1.0);

    assert!(rect.contains(point_inside));
}

#[test]
fn test_rect_contains_point_low_left() {
    let rect = Rect::new(vec2(0.0, 0.0), vec2(5.5, 4.5));

    let point_low_left = vec2(-1.0, -1.0);

    assert!(!rect.contains(point_low_left));
}

#[test]
fn test_rect_contains_point_low() {
    let rect = Rect::new(vec2(0.0, 0.0), vec2(5.5, 4.5));

    let point_low = vec2(3.0, -1.0);

    assert!(!rect.contains(point_low));
}

#[test]
fn test_rect_contains_point_low_right() {
    let rect = Rect::new(vec2(0.0, 0.0), vec2(5.5, 4.5));

    let point_low_right = vec2(5.7, -1.0);

    assert!(!rect.contains(point_low_right));
}

#[test]
fn test_rect_contains_point_right() {
    let rect = Rect::new(vec2(0.0, 0.0), vec2(5.5, 4.5));

    let point_right = vec2(5.7, 1.0);

    assert!(!rect.contains(point_right));
}

#[test]
fn test_rect_contains_point_high_right() {
    let rect = Rect::new(vec2(0.0, 0.0), vec2(5.5, 4.5));

    let point_high_right = vec2(7.1, 5.0);

    assert!(!rect.contains(point_high_right));
}

#[test]
fn test_rect_contains_point_high() {
    let rect = Rect::new(vec2(0.0, 0.0), vec2(5.5, 4.5));

    let point_high = vec2(2.7, 5.0);

    assert!(!rect.contains(point_high));
}

#[test]
fn test_rect_contains_point_high_left() {
    let rect = Rect::new(vec2(0.0, 0.0), vec2(5.5, 4.5));

    let point_high_right = vec2(-2.3, 5.1);

    assert!(!rect.contains(point_high_right));
}

#[test]
fn test_rect_contains_point_left() {
    let rect = Rect::new(vec2(0.0, 0.0), vec2(5.5, 4.5));

    let point_left = vec2(-2.3, 2.5);

    assert!(!rect.contains(point_left));
}

#[test]
fn transform_is_linear_in_differences() {
    // For a fixed camera, (T(a) - T(b)) relates to (a - b) by s / ar on x
    // and by s on y: checked here on concrete values.
    let a = vec![6.0, -2.0];
    let b = vec![1.5, 3.0];
    let off = vec![0.25, 0.75];
    let s = 0.5;
    let ar = 2.0;
    let ta = transform_f32(&a, &off, s, ar);
    let tb = transform_f32(&b, &off, s, ar);
    let dx = (a[0] - b[0]) * s / ar;
    let dy = (a[1] - b[1]) * s;
    assert_eq!(ta[0] - tb[0], dx);
    assert_eq!(ta[1] - tb[1], dy);
}

#[test]
fn transform_zoom_commutes() {
    // Transforming with zoom k * s equals transforming with s, then
    // scaling the result by k.
    let a = vec![3.0, -1.5];
    let off = vec![1.0, 0.5];
    let s = 0.5;
    let k = 4.0;
    let ar = 2.0;
    let t1 = transform_f32(&a, &off, s, ar);
    let tk = transform_f32(&a, &off, s * k, ar);
    assert_eq!(tk, vec![t1[0] * k, t1[1] * k]);
}

#[test]
fn square_vertices_stay_within_half_width() {
    // Every emitted coordinate lies within edge_offset / aspect of the
    // centre on x and within edge_offset on y.
    let centre = vec2(0.25, -0.75);
    let eo = 0.5;
    let ar = 2.0;
    let out = square_vertices(&centre, &rat(ar), &rat(eo)).expect("fits");
    assert_eq!(out.len(), 12);
    for k in 0..6 {
        let x = to_f32(&out[2 * k]);
        let y = to_f32(&out[2 * k + 1]);
        assert!((x - 0.25).abs() <= eo / ar);
        assert!((y + 0.75).abs() <= eo);
    }
}

#[test]
fn magnitude_of_three_four_is_five() {
    let v = vec2(3.0, 4.0);
    let m = v.magnitude().expect("small");
    assert_eq!(to_f32(&m), 5.0);
}

#[test]
fn unit_of_zero_vector_is_none() {
    let v = vec2(0.0, 0.0);
    assert!(v.unit().is_none());
}

#[test]
fn checked_ops_are_exact() {
    // 1/2 + 1/3 = 5/6, unreduced over the common denominator 6.
    let a = Ratio::new(1, 2);
    let b = Ratio::new(1, 3);
    let s = graph_view::ratio::checked_add(a, b).unwrap();
    assert_eq!((s.num, s.den), (5, 6));
    let d = graph_view::ratio::checked_sub(a, b).unwrap();
    assert_eq!((d.num, d.den), (1, 6));
    let p = graph_view::ratio::checked_mul(a, b).unwrap();
    assert_eq!((p.num, p.den), (1, 6));
    let q = graph_view::ratio::checked_div(a, b).unwrap();
    assert_eq!((q.num, q.den), (3, 2));
}

#[test]
fn checked_ops_report_overflow() {
    let big = Ratio::new(i64::MAX, 1);
    assert!(graph_view::ratio::checked_add(big, big).is_none());
    assert!(graph_view::ratio::checked_mul(big, big).is_none());
    // division by an exact zero is refused
    assert!(graph_view::ratio::checked_div(big, Ratio::new(0, 1)).is_none());
}
