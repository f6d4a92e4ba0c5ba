use koch_snowflake::geometry::{dist_sq, offset, rotate60, scale, third, translate, Point};

#[test]
fn translate_adds_coordinates() {
    assert_eq!(translate(Point { a: 3, b: -4 }, Point { a: 10, b: 20 }), Point { a: 13, b: 16 });
}

#[test]
fn scale_multiplies_coordinates() {
    assert_eq!(scale(Point { a: 3, b: -4 }, 5), Point { a: 15, b: -20 });
    assert_eq!(scale(Point { a: 3, b: -4 }, 0), Point { a: 0, b: 0 });
}

#[test]
fn offset_is_end_minus_start() {
    assert_eq!(offset(Point { a: 1, b: 2 }, Point { a: -4, b: 7 }), Point { a: -5, b: 5 });
}

#[test]
fn six_turns_of_sixty_degrees_return_home() {
    let v = Point { a: 5, b: 2 };
    assert_eq!(rotate60(v), Point { a: -2, b: 7 });
    let mut w = v;
    for _ in 0..6 {
        w = rotate60(w);
    }
    assert_eq!(w, v);
    assert_eq!(rotate60(rotate60(rotate60(v))), Point { a: -5, b: -2 });
}

#[test]
fn third_divides_exactly() {
    assert_eq!(third(Point { a: -9, b: 12 }), Point { a: -3, b: 4 });
}

#[test]
fn squared_distance_on_the_lattice() {
    let o = Point { a: 0, b: 0 };
    assert_eq!(dist_sq(o, Point { a: 1, b: 0 }), 1);
    assert_eq!(dist_sq(o, Point { a: 0, b: 1 }), 1);
    assert_eq!(dist_sq(o, Point { a: 1, b: -1 }), 1);
    assert_eq!(dist_sq(o, Point { a: 1, b: 1 }), 3);
    assert_eq!(dist_sq(Point { a: 2, b: 3 }, Point { a: 5, b: 7 }), 9 + 12 + 16);
}
