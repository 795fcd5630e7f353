use shapes::circle::Circle;
use shapes::pipeline::{adjacent_collisions, collision_report, format_collision, parse_lines};
use shapes::rect::Rect;
use shapes::shape::Shape;
use shapes::text::ParseError;

#[test]
fn parse_circle_line() {
    assert_eq!(
        Shape::from_str("circle 0 0 5"),
        Ok(Shape::Circle(Circle { x: 0, y: 0, radius: 5 }))
    );
}

#[test]
fn parse_circle_negative_fields() {
    assert_eq!(
        Shape::from_str("circle -3 7 -1"),
        Ok(Shape::Circle(Circle { x: -3, y: 7, radius: -1 }))
    );
}

#[test]
fn parse_rect_line() {
    assert_eq!(
        Shape::from_str("rect 100 100 10 10"),
        Ok(Shape::Rect(Rect { x: 100, y: 100, width: 10, height: 10 }))
    );
}

#[test]
fn parse_wrong_field_count_fails() {
    assert_eq!(Shape::from_str("circle 1 2"), Err(ParseError::WrongFieldCount));
    assert_eq!(Shape::from_str("circle 1 2 3 4"), Err(ParseError::WrongFieldCount));
    assert_eq!(Shape::from_str("rect 1 2 3"), Err(ParseError::WrongFieldCount));
}

#[test]
fn parse_unknown_kind_fails() {
    assert_eq!(Shape::from_str("square 1 2 3"), Err(ParseError::UnknownKind));
}

#[test]
fn parse_line_without_space_fails() {
    assert_eq!(Shape::from_str("circle"), Err(ParseError::UnknownKind));
    assert_eq!(Shape::from_str(""), Err(ParseError::UnknownKind));
    assert_eq!(Shape::from_str(" "), Err(ParseError::UnknownKind));
}

#[test]
fn parse_bad_number_fails() {
    assert_eq!(Shape::from_str("circle a 0 5"), Err(ParseError::InvalidNumber));
    assert_eq!(Shape::from_str("circle - 0 5"), Err(ParseError::InvalidNumber));
    assert_eq!(Shape::from_str("circle  1 2"), Err(ParseError::InvalidNumber));
    assert_eq!(Shape::from_str("rect 1 2 3 x"), Err(ParseError::InvalidNumber));
}

#[test]
fn parse_range_limits() {
    assert_eq!(Shape::from_str("circle 2147483648 0 5"), Err(ParseError::InvalidNumber));
    assert_eq!(
        Shape::from_str("circle -2147483648 0 2147483647"),
        Ok(Shape::Circle(Circle { x: -2147483648, y: 0, radius: 2147483647 }))
    );
}

#[test]
fn parse_accepts_leading_zeros() {
    assert_eq!(
        Shape::from_str("circle 007 0 5"),
        Ok(Shape::Circle(Circle { x: 7, y: 0, radius: 5 }))
    );
}

#[test]
fn display_circle() {
    let sh = Shape::Circle(Circle { x: 1, y: 2, radius: 3 });
    assert_eq!(sh.display(), "circle 1 2 3");
    let sh = Shape::Circle(Circle { x: -1, y: 0, radius: -5 });
    assert_eq!(sh.display(), "circle -1 0 -5");
}

#[test]
fn display_rect() {
    let sh = Shape::Rect(Rect { x: 100, y: 100, width: 10, height: 10 });
    assert_eq!(sh.display(), "rect 100 100 10 10");
}

#[test]
fn display_parse_round_trip() {
    let shapes = [
        Shape::Circle(Circle { x: 0, y: 0, radius: 1 }),
        Shape::Circle(Circle { x: -17, y: 40, radius: 9 }),
        Shape::Circle(Circle { x: i32::MIN, y: i32::MAX, radius: i32::MIN }),
        Shape::Rect(Rect { x: 3, y: -4, width: 5, height: 0 }),
        Shape::Rect(Rect { x: i32::MAX, y: i32::MIN, width: -1, height: 10 }),
    ];
    for sh in shapes {
        assert_eq!(Shape::from_str(&sh.display()), Ok(sh));
    }
}

#[test]
fn circle_contains_boundary_and_outside() {
    let c = Circle { x: 0, y: 0, radius: 5 };
    assert!(c.contains_point((3, 4)));
    assert!(c.contains_point((0, 0)));
    assert!(c.contains_point((5, 0)));
    assert!(!c.contains_point((3, 5)));
    assert!(!c.contains_point((6, 0)));
}

// The point-in-circle test is the standard Euclidean one, dx*dx + dy*dy
// against radius*radius on both squared terms: a point far away on the y
// axis is outside, however negative its offset.
#[test]
fn circle_containment_uses_euclidean_distance() {
    let c = Circle { x: 0, y: 0, radius: 5 };
    assert!(!c.contains_point((0, 13)));
    assert!(!c.contains_point((0, -13)));
}

#[test]
fn circle_contains_far_points() {
    let c = Circle { x: 0, y: 0, radius: i32::MAX };
    assert!(!c.contains_point((i64::MAX, i64::MIN)));
    assert!(c.contains_point((i32::MAX as i64, 0)));
}

#[test]
fn degenerate_circle_contains_only_center() {
    let c = Circle { x: 2, y: 3, radius: 0 };
    assert!(c.contains_point((2, 3)));
    assert!(!c.contains_point((2, 4)));
    let c = Circle { x: 2, y: 3, radius: -1 };
    assert!(c.contains_point((2, 3)));
}

#[test]
fn rect_contains_closed_bounds() {
    let r = Rect { x: 0, y: 0, width: 10, height: 10 };
    assert!(r.contains_point((0, 0)));
    assert!(r.contains_point((10, 10)));
    assert!(r.contains_point((5, 5)));
    assert!(!r.contains_point((11, 5)));
    assert!(!r.contains_point((5, -1)));
}

#[test]
fn negative_extent_rect_contains_nothing() {
    let r = Rect { x: 0, y: 0, width: -1, height: 5 };
    assert!(!r.contains_point((0, 0)));
}

#[test]
fn circle_points_is_center() {
    let c = Circle { x: 2, y: 3, radius: 4 };
    assert_eq!(c.points(), vec![(2, 3)]);
}

#[test]
fn rect_points_are_corners() {
    let r = Rect { x: 1, y: 2, width: 3, height: 4 };
    assert_eq!(r.points(), vec![(1, 2), (4, 2), (1, 6), (4, 6)]);
}

#[test]
fn rect_corner_points_avoid_overflow() {
    let r = Rect { x: i32::MAX, y: i32::MAX, width: i32::MAX, height: 1 };
    assert_eq!(
        r.points(),
        vec![
            (2147483647, 2147483647),
            (4294967294, 2147483647),
            (2147483647, 2147483648),
            (4294967294, 2147483648),
        ]
    );
}

#[test]
fn circle_default_is_unit_at_origin() {
    assert_eq!(Circle::default(), Circle { x: 0, y: 0, radius: 1 });
}

#[test]
fn rect_area_is_exact() {
    assert_eq!(Rect { x: 0, y: 0, width: 10, height: 4 }.area(), 40);
    assert_eq!(Rect { x: 5, y: 5, width: -3, height: 5 }.area(), -15);
    assert_eq!(Rect { x: 0, y: 0, width: i32::MAX, height: i32::MAX }.area(), 4611686014132420609);
}

#[test]
fn collide_is_symmetric() {
    let a = Shape::Circle(Circle { x: 0, y: 0, radius: 5 });
    let b = Shape::Circle(Circle { x: 1, y: 0, radius: 1 });
    let c = Shape::Rect(Rect { x: 100, y: 100, width: 10, height: 10 });
    assert_eq!(a.collide(&b), b.collide(&a));
    assert_eq!(a.collide(&c), c.collide(&a));
    assert!(a.collide(&b));
    assert!(!a.collide(&c));
}

#[test]
fn rect_corner_inside_circle_collides() {
    let rect = Shape::Rect(Rect { x: 4, y: 0, width: 10, height: 10 });
    let circle = Shape::Circle(Circle { x: 0, y: 0, radius: 5 });
    assert!(rect.collide(&circle));
    assert!(circle.collide(&rect));
}

#[test]
fn sample_misses_are_not_collisions() {
    // Two circles whose boundaries cross but whose centers lie outside each
    // other: the sampled-point heuristic reports no collision.
    let a = Shape::Circle(Circle { x: 0, y: 0, radius: 5 });
    let b = Shape::Circle(Circle { x: 9, y: 0, radius: 5 });
    assert!(!a.collide(&b));
}

#[test]
fn parse_lines_drops_bad_lines() {
    let lines = vec![
        "circle 0 0 5".to_string(),
        "nonsense".to_string(),
        "rect 1 2 3 4".to_string(),
        "circle x y z".to_string(),
    ];
    assert_eq!(
        parse_lines(&lines),
        vec![
            Shape::Circle(Circle { x: 0, y: 0, radius: 5 }),
            Shape::Rect(Rect { x: 1, y: 2, width: 3, height: 4 }),
        ]
    );
}

#[test]
fn adjacent_collisions_pairs_later_with_earlier() {
    let a = Shape::Circle(Circle { x: 0, y: 0, radius: 5 });
    let b = Shape::Circle(Circle { x: 1, y: 0, radius: 1 });
    let c = Shape::Rect(Rect { x: 100, y: 100, width: 10, height: 10 });
    assert_eq!(adjacent_collisions(&vec![a, b, c]), vec![(b, a)]);
    assert_eq!(adjacent_collisions(&vec![a]), vec![]);
    assert_eq!(adjacent_collisions(&vec![]), vec![]);
}

#[test]
fn format_collision_names_both_shapes() {
    let a = Shape::Circle(Circle { x: 1, y: 0, radius: 1 });
    let b = Shape::Circle(Circle { x: 0, y: 0, radius: 5 });
    assert_eq!(format_collision(&a, &b), "circle 1 0 1 collides with circle 0 0 5");
}

#[test]
fn report_end_to_end() {
    let lines = vec![
        "circle 0 0 5".to_string(),
        "circle 1 0 1".to_string(),
        "rect 100 100 10 10".to_string(),
    ];
    assert_eq!(
        collision_report(&lines),
        vec!["circle 1 0 1 collides with circle 0 0 5".to_string()]
    );
}

#[test]
fn report_skips_malformed_lines_before_pairing() {
    let lines = vec![
        "circle 0 0 5".to_string(),
        "square 1 2 3".to_string(),
        "circle 1 0 1".to_string(),
        "rect 100 100 10 10".to_string(),
    ];
    assert_eq!(
        collision_report(&lines),
        vec!["circle 1 0 1 collides with circle 0 0 5".to_string()]
    );
}

#[test]
fn circle_from_str_parses_fields_only() {
    assert_eq!(Circle::from_str("0 0 5"), Ok(Circle { x: 0, y: 0, radius: 5 }));
    assert_eq!(Circle::from_str("0 0"), Err(ParseError::WrongFieldCount));
    assert_eq!(Circle::from_str(""), Err(ParseError::WrongFieldCount));
}

#[test]
fn rect_from_str_parses_fields_only() {
    assert_eq!(Rect::from_str("1 2 3 4"), Ok(Rect { x: 1, y: 2, width: 3, height: 4 }));
    assert_eq!(Rect::from_str("1 2 3 4 5"), Err(ParseError::WrongFieldCount));
}

#[test]
fn primitive_display_renders_fields() {
    assert_eq!(Circle { x: 0, y: 0, radius: 5 }.display(), "0 0 5");
    assert_eq!(Rect { x: -1, y: -2, width: 30, height: 40 }.display(), "-1 -2 30 40");
}
