use koch_snowflake::geometry::{dist_sq, Point};
use koch_snowflake::koch::{draw_koch_line, koch_curve, Segment};

fn pt(a: i64, b: i64) -> Point {
    Point { a, b }
}

fn curve(p0: Point, p1: Point, max_depth: u32) -> Vec<Segment> {
    let mut out = Vec::new();
    draw_koch_line(&mut out, &p0, &p1, 0, max_depth);
    out
}

/// The plane coordinates of a lattice point.
fn plane(p: Point) -> (f64, f64) {
    let a = p.a as f64;
    let b = p.b as f64;
    (a + b / 2.0, b * 3.0f64.sqrt() / 2.0)
}

fn close(u: (f64, f64), v: (f64, f64)) -> bool {
    (u.0 - v.0).abs() < 1e-3 && (u.1 - v.1).abs() < 1e-3
}

#[test]
fn segment_count_is_a_power_of_four() {
    assert_eq!(curve(pt(0, 0), pt(1, 0), 0).len(), 1);
    assert_eq!(curve(pt(0, 0), pt(3, 0), 1).len(), 4);
    assert_eq!(curve(pt(0, 0), pt(9, 0), 2).len(), 16);
    assert_eq!(curve(pt(5, -7), pt(5 + 81, -7 + 162), 4).len(), 256);
}

#[test]
fn segments_form_a_connected_path() {
    let p0 = pt(-40, 13);
    let p1 = pt(-40 + 243, 13 - 486);
    let s = curve(p0, p1, 5);
    assert_eq!(s[0].start, p0);
    assert_eq!(s[s.len() - 1].end, p1);
    for i in 0..s.len() - 1 {
        assert_eq!(s[i].end, s[i + 1].start);
    }
}

#[test]
fn every_segment_is_a_third_shorter_per_level() {
    let p0 = pt(0, 0);
    let p1 = pt(54, 27);
    let whole = dist_sq(p0, p1);
    let s = curve(p0, p1, 3);
    for g in &s {
        assert_eq!(dist_sq(g.start, g.end) * 729, whole);
    }
}

#[test]
fn total_length_grows_by_four_thirds_per_level() {
    let p0 = pt(0, 0);
    let p1 = pt(729, 0);
    for depth in 0..7u32 {
        let s = curve(p0, p1, depth);
        let total: f64 = s.iter().map(|g| (dist_sq(g.start, g.end) as f64).sqrt()).sum();
        let straight = (dist_sq(p0, p1) as f64).sqrt();
        let expected = (4.0f64 / 3.0).powi(depth as i32) * straight;
        assert!((total - expected).abs() < 1e-6 * expected);
    }
}

#[test]
fn order_zero_is_the_straight_segment() {
    let p0 = pt(12, -5);
    let p1 = pt(-3, 40);
    assert_eq!(curve(p0, p1, 0), vec![Segment { start: p0, end: p1 }]);
}

#[test]
fn depth_past_the_limit_draws_the_straight_segment() {
    let p0 = pt(1, 2);
    let p1 = pt(3, 4);
    let mut out = vec![Segment { start: p1, end: p0 }];
    draw_koch_line(&mut out, &p0, &p1, 7, 3);
    assert_eq!(out, vec![Segment { start: p1, end: p0 }, Segment { start: p0, end: p1 }]);
}

#[test]
fn segments_are_appended_after_what_the_sink_holds() {
    let first = Segment { start: pt(0, 0), end: pt(0, 0) };
    let mut out = vec![first];
    draw_koch_line(&mut out, &pt(0, 0), &pt(3, 0), 0, 1);
    assert_eq!(out.len(), 5);
    assert_eq!(out[0], first);
    assert_eq!(out[1..].to_vec(), curve(pt(0, 0), pt(3, 0), 1));
}

#[test]
fn repeated_runs_give_identical_segments() {
    let a = curve(pt(7, 8), pt(7 + 81, 8 - 81), 4);
    let b = curve(pt(7, 8), pt(7 + 81, 8 - 81), 4);
    assert_eq!(a, b);
}

#[test]
fn first_order_curve_of_a_horizontal_segment() {
    let s = curve(pt(0, 0), pt(300, 0), 1);
    assert_eq!(
        s,
        vec![
            Segment { start: pt(0, 0), end: pt(100, 0) },
            Segment { start: pt(100, 0), end: pt(100, 100) },
            Segment { start: pt(100, 100), end: pt(200, 0) },
            Segment { start: pt(200, 0), end: pt(300, 0) },
        ]
    );
    let expected = [
        ((0.0, 0.0), (100.0, 0.0)),
        ((100.0, 0.0), (150.0, 86.602)),
        ((150.0, 86.602), (200.0, 0.0)),
        ((200.0, 0.0), (300.0, 0.0)),
    ];
    for (g, e) in s.iter().zip(expected.iter()) {
        assert!(close(plane(g.start), e.0));
        assert!(close(plane(g.end), e.1));
    }
}

#[test]
fn bump_points_to_the_left_of_travel() {
    let s = curve(pt(300, 0), pt(0, 0), 1);
    assert_eq!(s[1].end, pt(200, -100));
    let (x, y) = plane(s[1].end);
    assert!(close((x, y), (150.0, -86.602)));
}

#[test]
fn curve_between_any_points_is_computed_at_a_finer_unit() {
    let s = koch_curve(&pt(0, 0), &pt(1, 0), 1);
    assert_eq!(s, curve(pt(0, 0), pt(3, 0), 1));
    let s = koch_curve(&pt(2, -1), &pt(-4, 5), 3);
    assert_eq!(s.len(), 64);
    assert_eq!(s[0].start, pt(54, -27));
    assert_eq!(s[63].end, pt(-108, 135));
    assert_eq!(s, curve(pt(54, -27), pt(-108, 135), 3));
}

#[test]
fn curve_of_order_zero_keeps_the_endpoints() {
    assert_eq!(
        koch_curve(&pt(4, 9), &pt(-1, 2), 0),
        vec![Segment { start: pt(4, 9), end: pt(-1, 2) }]
    );
}
