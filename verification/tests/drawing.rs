use netlabs::drawing::{DrawingState, Line, Point, WIDTH};

#[test]
fn stroke_draws_joined_segments() {
    let mut s = DrawingState::new();
    assert_eq!(s.line(Point::new(1, 1)), None);
    s.hold();
    assert!(s.held());
    assert_eq!(s.line(Point::new(1, 2)), None);
    assert_eq!(s.line(Point::new(3, 4)), Some(Line::new(Point::new(1, 2), Point::new(3, 4), WIDTH)));
    assert_eq!(s.line(Point::new(5, 6)), Some(Line::new(Point::new(3, 4), Point::new(5, 6), 3)));
    s.release();
    assert!(!s.held());
    assert_eq!(s.line(Point::new(7, 7)), None);
    s.hold();
    assert_eq!(s.line(Point::new(8, 8)), None);
}
