use arcade::point::{Line, Point, ScreenPoint, UNIT};

fn p(x: i64, y: i64) -> Point {
    Point::new(x, y)
}

#[test]
fn crossing_segments_intersect_both_ways() {
    let a = Line::new(p(0, 0), p(10, 10));
    let b = Line::new(p(0, 10), p(10, 0));
    assert!(a.intersects(&b));
    assert!(b.intersects(&a));
    let c = Line::new(p(20, 0), p(30, 10));
    assert!(!a.intersects(&c));
    assert!(!c.intersects(&a));
}

#[test]
fn parallel_segments_never_intersect() {
    let a = Line::new(p(0, 0), p(10, 0));
    let b = Line::new(p(5, 0), p(15, 0));
    assert!(!a.intersects(&b));
    assert!(!b.intersects(&a));
}

#[test]
fn touching_ends_intersect() {
    let a = Line::new(p(0, 0), p(10, 0));
    let b = Line::new(p(10, 0), p(10, 5));
    assert!(a.intersects(&b));
    assert!(b.intersects(&a));
}

#[test]
fn direction_is_unit_or_zero() {
    assert_eq!(Line::new(p(3, 4), p(3, -8)).direction(), p(0, -UNIT));
    assert_eq!(Line::new(p(3, 4), p(9, 4)).direction(), p(UNIT, 0));
    assert_eq!(Line::new(p(3, 4), p(3, 4)).direction(), p(0, 0));
    assert_eq!(Line::new(p(3, 4), p(3, -8)).length(), 12);
}

#[test]
fn distance_to_segment() {
    let l = Line::new(p(0, 0), p(100, 0));
    assert!(l.closer_than(&p(50, 9), 10));
    assert!(!l.closer_than(&p(50, 10), 10));
    assert!(l.closer_than(&p(-6, 7), 10));
    assert!(!l.closer_than(&p(-8, 7), 10));
    assert!(l.closer_than(&p(105, -5), 10));
}

#[test]
fn basis_round_trip() {
    let g = p(7, -3);
    assert_eq!(g.to_screen(), ScreenPoint { x: 14, y: -3 });
    assert_eq!(g.to_screen().to_game(), g);
    let s = ScreenPoint { x: -7, y: 2 };
    assert_eq!(s.to_game(), p(-3, 2));
    assert_eq!(s.to_game().to_screen(), ScreenPoint { x: -6, y: 2 });
}

#[test]
fn compare_is_a_square_test() {
    assert!(p(0, 0).compare(&p(4, -4), 5));
    assert!(!p(0, 0).compare(&p(5, 0), 5));
}
