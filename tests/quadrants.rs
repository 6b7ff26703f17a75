use orbits::geometry::{DRect, Edge, Point};
use orbits::quadrant::{
    create_quarters, find_quarter_idx, next_quarter, passed_start, previous_quarter, quarter_of,
};

#[test]
fn rect_is_closed_below_and_open_above() {
    let r = DRect::new(Edge::At(0), Edge::At(10), Edge::At(-5), Edge::At(5));
    assert!(r.contains(Point::new(0, -5)));
    assert!(r.contains(Point::new(9, 4)));
    assert!(!r.contains(Point::new(10, 0)));
    assert!(!r.contains(Point::new(5, 5)));
    assert!(!r.contains(Point::new(-1, 0)));
}

#[test]
fn unbounded_rect_reaches_the_extremes() {
    let r = DRect::new(Edge::Unbounded, Edge::Unbounded, Edge::At(0), Edge::Unbounded);
    assert!(r.contains(Point::new(i64::MIN, i64::MAX)));
    assert!(r.contains(Point::new(i64::MAX, 0)));
    assert!(!r.contains(Point::new(0, -1)));
}

#[test]
fn quarters_follow_the_signs_of_the_coordinates() {
    let qs = create_quarters();
    assert_eq!(qs.len(), 4);
    assert_eq!(find_quarter_idx(Point::new(5, 7), &qs), 0);
    assert_eq!(find_quarter_idx(Point::new(5, -7), &qs), 1);
    assert_eq!(find_quarter_idx(Point::new(-5, -7), &qs), 2);
    assert_eq!(find_quarter_idx(Point::new(-5, 7), &qs), 3);
}

#[test]
fn axis_points_resolve_to_one_quarter() {
    let qs = create_quarters();
    // on the x axis: the quarter above; on the y axis: the quarter on the right
    assert_eq!(quarter_of(Point::new(0, 0), &qs), 0);
    assert_eq!(quarter_of(Point::new(3, 0), &qs), 0);
    assert_eq!(quarter_of(Point::new(-3, 0), &qs), 3);
    assert_eq!(quarter_of(Point::new(0, 3), &qs), 0);
    assert_eq!(quarter_of(Point::new(0, -3), &qs), 1);
    // and again, the same
    assert_eq!(quarter_of(Point::new(-3, 0), &qs), 3);
    assert_eq!(quarter_of(Point::new(0, -3), &qs), 1);
}

#[test]
fn sampled_points_lie_in_exactly_one_quarter() {
    let qs = create_quarters();
    let mut seed: u64 = 0x2545_f491_4f6c_dd1d;
    let mut checked = 0;
    while checked < 10_000 {
        seed = seed.wrapping_mul(6364136223846793005).wrapping_add(1442695040888963407);
        let x = (seed >> 1) as i64 - (1i64 << 62);
        seed = seed.wrapping_mul(6364136223846793005).wrapping_add(1442695040888963407);
        let y = (seed >> 1) as i64 - (1i64 << 62);
        if x == 0 || y == 0 {
            continue;
        }
        let p = Point::new(x, y);
        let holding = qs.iter().filter(|q| q.bounds.contains(p)).count();
        assert_eq!(holding, 1);
        let expected = match (x > 0, y > 0) {
            (true, true) => 0,
            (true, false) => 1,
            (false, false) => 2,
            (false, true) => 3,
        };
        assert_eq!(find_quarter_idx(p, &qs), expected);
        checked += 1;
    }
}

#[test]
fn neighbours_wrap_around() {
    assert_eq!(next_quarter(0), 1);
    assert_eq!(next_quarter(3), 0);
    assert_eq!(previous_quarter(0), 3);
    assert_eq!(previous_quarter(1), 0);
    assert_eq!(previous_quarter(2), 1);
    assert_eq!(previous_quarter(3), 2);
}

#[test]
fn passing_the_start_depends_on_the_quarter_direction() {
    let qs = create_quarters();
    let start = Point::new(100, 0);
    // top right moves towards smaller x
    assert!(passed_start(&qs[0], Point::new(99, 10), start));
    assert!(!passed_start(&qs[0], Point::new(100, 10), start));
    // bottom right moves towards larger y
    let start = Point::new(50, -50);
    assert!(passed_start(&qs[1], Point::new(60, -50), start));
    assert!(!passed_start(&qs[1], Point::new(40, -51), start));
    // bottom left moves towards larger x
    let start = Point::new(-50, -50);
    assert!(passed_start(&qs[2], Point::new(-50, -10), start));
    assert!(!passed_start(&qs[2], Point::new(-51, -10), start));
    // top left moves towards smaller y
    let start = Point::new(-50, 50);
    assert!(passed_start(&qs[3], Point::new(-10, 49), start));
    assert!(!passed_start(&qs[3], Point::new(-10, 50), start));
}
