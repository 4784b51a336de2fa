use h3ron::geo::{
    polygon_has_dateline_wrap, rect_contains, rect_from_coordinates, Circle, Coordinate,
    LineString, Polygon, Rect,
};

fn c(x: i32, y: i32) -> Coordinate {
    Coordinate { x, y }
}

fn collect(mut circle: Circle) -> Vec<(i32, i32)> {
    let mut out = vec![];
    while let Some(p) = circle.next() {
        out.push((p.x, p.y));
    }
    out
}

#[test]
fn circle_of_radius_one() {
    assert_eq!(collect(Circle::new(1, 1)), vec![(0, -1), (-1, 0), (0, 0)]);
}

#[test]
fn circle_of_radius_zero_is_empty() {
    assert_eq!(collect(Circle::new(0, 3)), vec![]);
}

#[test]
fn thin_circle_stays_on_its_ring() {
    let points = collect(Circle::new(5, 1));
    assert!(!points.is_empty());
    for (x, y) in points.iter() {
        let t = x * x + y * y;
        assert!(16 <= t && t <= 25);
    }
    assert!(points.contains(&(0, -5)));
    assert!(points.contains(&(-4, -3)));
    assert!(!points.contains(&(0, 0)));
    assert_eq!(Circle::new(5, 1).outer_radius, 5);
}

#[test]
fn full_disc_holds_every_point_within_radius() {
    let points = collect(Circle::new(3, 10));
    let mut expected = vec![];
    for y in -3..3 {
        for x in -3..3 {
            if x * x + y * y <= 9 {
                expected.push((x, y));
            }
        }
    }
    assert_eq!(points, expected);
}

#[test]
fn exhausted_circle_stays_exhausted() {
    let mut circle = Circle::new(1, 1);
    while circle.next().is_some() {}
    assert_eq!(circle.next(), None);
}

#[test]
fn rect_containment() {
    let rect = Rect { min: c(0, 0), max: c(10, 5) };
    assert!(rect_contains(&rect, &c(0, 0)));
    assert!(rect_contains(&rect, &c(10, 5)));
    assert!(rect_contains(&rect, &c(3, 4)));
    assert!(!rect_contains(&rect, &c(11, 4)));
    assert!(!rect_contains(&rect, &c(3, -1)));
}

#[test]
fn rect_from_any_two_corners() {
    let r = rect_from_coordinates(c(10, -2), c(-3, 7));
    assert_eq!(r, Rect { min: c(-3, -2), max: c(10, 7) });
    assert_eq!(rect_from_coordinates(c(-3, 7), c(10, -2)), r);
    assert!(rect_contains(&r, &c(10, -2)));
    assert!(rect_contains(&r, &c(-3, 7)));
}

#[test]
fn dateline_wrap() {
    let wide = Polygon {
        exterior: LineString(vec![c(-179, 0), c(179, 0), c(179, 1), c(-179, 0)]),
        interiors: vec![],
    };
    assert!(polygon_has_dateline_wrap(&wide));
    let narrow = Polygon {
        exterior: LineString(vec![c(10, 0), c(11, 0), c(11, 1), c(10, 0)]),
        interiors: vec![],
    };
    assert!(!polygon_has_dateline_wrap(&narrow));
    let edge = Polygon { exterior: LineString(vec![c(0, 0), c(270, 0)]), interiors: vec![] };
    assert!(!polygon_has_dateline_wrap(&edge));
    let empty = Polygon { exterior: LineString(vec![]), interiors: vec![] };
    assert!(!polygon_has_dateline_wrap(&empty));
}

#[test]
fn circle_of_radius_two_width_one() {
    assert_eq!(
        collect(Circle::new(2, 1)),
        vec![(0, -2), (-1, -1), (0, -1), (1, -1), (-2, 0), (-1, 0), (1, 0), (-1, 1), (0, 1), (1, 1)]
    );
}

#[test]
fn width_beyond_radius_gives_the_filled_disc() {
    assert_eq!(collect(Circle::new(4, 9)), collect(Circle::new(4, 4)));
    assert!(collect(Circle::new(4, 4)).contains(&(0, 0)));
}

#[test]
fn wider_rings_hold_narrower_ones() {
    let narrow = collect(Circle::new(6, 1));
    let wide = collect(Circle::new(6, 3));
    for p in narrow.iter() {
        assert!(wide.contains(p));
    }
}

#[test]
fn rings_are_symmetric_in_x_and_y() {
    let points = collect(Circle::new(5, 2));
    for (x, y) in points.iter() {
        assert!(-5 <= *x && *x <= 4 && -5 <= *y && *y <= 4);
        assert!(points.contains(&(*y, *x)));
    }
}

#[test]
fn outer_radius_getter() {
    assert_eq!(Circle::new(7, 2).get_outer_radius(), 7);
}
