use triangle_raster::color::Color;
use triangle_raster::fragment::{Depth, Fragment};
use triangle_raster::triangle::{barycentric, triangle, Weights};
use triangle_raster::vertex::{Point2, Position, Vertex, COORD_LIMIT, SUBPIXEL};

fn at_pixel(x: i32, y: i32, z: i32) -> Vertex {
    Vertex::new(Position::from_pixel(x, y, z).unwrap())
}

fn raw(x: i32, y: i32, z: i32) -> Vertex {
    Vertex::new(Position { x, y, z })
}

fn pixels(fragments: &[Fragment]) -> Vec<(i32, i32)> {
    let mut out = Vec::new();
    for f in fragments {
        out.push((f.x, f.y));
    }
    out
}

fn right_triangle() -> (Vertex, Vertex, Vertex) {
    (at_pixel(0, 0, 0), at_pixel(4, 0, 0), at_pixel(0, 4, 0))
}

#[test]
fn interior_pixel_is_covered() {
    let (a, b, c) = right_triangle();
    let fragments = triangle(&a, &b, &c);
    assert!(pixels(&fragments).contains(&(1, 1)));
    let w = barycentric(
        Point2::new(0, 0),
        Point2::new(4 * SUBPIXEL, 0),
        Point2::new(0, 4 * SUBPIXEL),
        Point2::new(SUBPIXEL, SUBPIXEL),
    );
    assert_eq!(w, Weights { b0: 8388608, b1: 4194304, b2: 4194304, denom: 16777216 });
    assert!(w.b0 >= 0 && w.b1 >= 0 && w.b2 >= 0);
    assert_eq!(w.b0 + w.b1 + w.b2, w.denom);
    assert!(w.is_inside());
}

#[test]
fn edge_pixel_is_covered() {
    let (a, b, c) = right_triangle();
    let fragments = triangle(&a, &b, &c);
    assert!(pixels(&fragments).contains(&(2, 0)));
    let w = barycentric(
        Point2::new(0, 0),
        Point2::new(4 * SUBPIXEL, 0),
        Point2::new(0, 4 * SUBPIXEL),
        Point2::new(2 * SUBPIXEL, 0),
    );
    assert_eq!(w, Weights { b0: 8388608, b1: 8388608, b2: 0, denom: 16777216 });
    assert!(w.is_inside());
}

#[test]
fn every_covered_pixel_once_in_row_major_order() {
    let (a, b, c) = right_triangle();
    let fragments = triangle(&a, &b, &c);
    let expected = vec![
        (0, 0), (1, 0), (2, 0), (3, 0), (4, 0),
        (0, 1), (1, 1), (2, 1), (3, 1),
        (0, 2), (1, 2), (2, 2),
        (0, 3), (1, 3),
        (0, 4),
    ];
    assert_eq!(pixels(&fragments), expected);
}

#[test]
fn outside_pixel_is_left_out() {
    let (a, b, c) = right_triangle();
    let fragments = triangle(&a, &b, &c);
    let seen = pixels(&fragments);
    assert!(!seen.contains(&(5, 5)));
    assert!(!seen.contains(&(3, 3)));
    assert!(!seen.contains(&(4, 4)));
    for (x, y) in seen {
        assert!(0 <= x && x <= 4 && 0 <= y && y <= 4 && x + y <= 4);
    }
    let w = barycentric(
        Point2::new(0, 0),
        Point2::new(4 * SUBPIXEL, 0),
        Point2::new(0, 4 * SUBPIXEL),
        Point2::new(3 * SUBPIXEL, 3 * SUBPIXEL),
    );
    assert_eq!(w, Weights { b0: -8388608, b1: 12582912, b2: 12582912, denom: 16777216 });
    assert!(!w.is_inside());
}

#[test]
fn depth_is_the_weighted_sum() {
    let fragments = triangle(&at_pixel(0, 0, 0), &at_pixel(4, 0, 0), &at_pixel(0, 4, 4));
    let mut seen = 0;
    for f in &fragments {
        assert_eq!(f.z.den, 16777216);
        // The depth rises by one per row: only the third vertex has any.
        assert_eq!(f.z.num, (f.y as i128) * 16777216);
        if (f.x, f.y) == (1, 1) {
            assert_eq!(f.z, Depth { num: 16777216, den: 16777216 });
            seen += 1;
        }
        if (f.x, f.y) == (1, 2) {
            assert_eq!(f.z, Depth { num: 33554432, den: 16777216 });
            seen += 1;
        }
    }
    assert_eq!(seen, 2);
}

#[test]
fn depth_mixes_all_three_vertices() {
    let fragments = triangle(&at_pixel(0, 0, 8), &at_pixel(4, 0, -4), &at_pixel(0, 4, 12));
    let f = fragments.iter().find(|f| (f.x, f.y) == (1, 1)).unwrap();
    // 8 * 1/2 - 4 * 1/4 + 12 * 1/4 = 6
    assert_eq!(f.z.num, 6 * 16777216);
    assert_eq!(f.z.den, 16777216);
    let w = Weights { b0: 2, b1: 1, b2: 1, denom: 4 };
    assert_eq!(w.interpolate(8, -4, 12), Depth { num: 24, den: 4 });
}

#[test]
fn collinear_vertices_give_nothing() {
    let fragments = triangle(&at_pixel(0, 0, 0), &at_pixel(2, 0, 0), &at_pixel(4, 0, 0));
    assert!(fragments.is_empty());
    let w = barycentric(
        Point2::new(0, 0),
        Point2::new(2 * SUBPIXEL, 0),
        Point2::new(4 * SUBPIXEL, 0),
        Point2::new(SUBPIXEL, 0),
    );
    assert_eq!(w.denom, 0);
    assert!(!w.is_inside());
}

#[test]
fn coincident_vertices_give_nothing() {
    let fragments = triangle(&at_pixel(3, 3, 1), &at_pixel(3, 3, 1), &at_pixel(3, 3, 1));
    assert!(fragments.is_empty());
    let diagonal = triangle(&at_pixel(0, 0, 0), &at_pixel(2, 2, 0), &at_pixel(5, 5, 0));
    assert!(diagonal.is_empty());
}

#[test]
fn fragment_count_stays_within_the_box() {
    let (a, b, c) = right_triangle();
    assert_eq!(triangle(&a, &b, &c).len(), 15);
    assert!(triangle(&a, &b, &c).len() <= 25);
    let wide = triangle(&at_pixel(-3, -2, 0), &at_pixel(7, 1, 0), &at_pixel(2, 6, 0));
    assert!(wide.len() <= 11 * 9);
    assert!(!wide.is_empty());
}

#[test]
fn same_input_same_output() {
    let a = raw(-37, 5, 3);
    let b = raw(211, -90, -7);
    let c = raw(64, 187, 40);
    let first = triangle(&a, &b, &c);
    let second = triangle(&a, &b, &c);
    assert!(!first.is_empty());
    assert_eq!(first, second);
    for pair in first.windows(2) {
        let (p, q) = (pair[0], pair[1]);
        assert!(p.y < q.y || (p.y == q.y && p.x < q.x));
    }
}

#[test]
fn every_fragment_is_black() {
    let (a, b, c) = right_triangle();
    let fragments = triangle(&a, &b, &c);
    assert!(!fragments.is_empty());
    for f in &fragments {
        assert_eq!(f.color, Color::black());
        assert_eq!(f.color, Color { r: 0, g: 0, b: 0 });
    }
}

#[test]
fn winding_does_not_matter() {
    let (a, b, c) = right_triangle();
    let forward = triangle(&a, &b, &c);
    let backward = triangle(&a, &c, &b);
    assert_eq!(pixels(&forward), pixels(&backward));
    assert_eq!(forward.len(), 15);
}

#[test]
fn weights_follow_their_vertices() {
    let p0 = Point2::new(-20, 7);
    let p1 = Point2::new(100, -33);
    let p2 = Point2::new(15, 90);
    let denom = barycentric(p0, p1, p2, p0).denom;
    assert!(denom > 0);
    assert_eq!(barycentric(p0, p1, p2, p0), Weights { b0: denom, b1: 0, b2: 0, denom });
    assert_eq!(barycentric(p0, p1, p2, p1), Weights { b0: 0, b1: denom, b2: 0, denom });
    assert_eq!(barycentric(p0, p1, p2, p2), Weights { b0: 0, b1: 0, b2: denom, denom });
}

#[test]
fn weights_exact_on_a_skew_triangle() {
    // v0 = (1, 3), v1 = (2, 1), v2 = (1, 1)
    let w = barycentric(
        Point2::new(0, 0),
        Point2::new(2, 1),
        Point2::new(1, 3),
        Point2::new(1, 1),
    );
    // dot00 = 10, dot01 = 5, dot02 = 4, dot11 = 5, dot12 = 3
    assert_eq!(w.denom, 25);
    assert_eq!(w.b2, 5);
    assert_eq!(w.b1, 10);
    assert_eq!(w.b0, 10);
}

#[test]
fn fractional_vertices_cover_whole_pixels_only() {
    let half = SUBPIXEL / 2;
    let fragments = triangle(
        &raw(half, half, 0),
        &raw(3 * SUBPIXEL + half, half, 0),
        &raw(half, 3 * SUBPIXEL + half, 0),
    );
    assert_eq!(pixels(&fragments), vec![(1, 1), (2, 1), (3, 1), (1, 2), (2, 2), (1, 3)]);
}

#[test]
fn widest_coordinates_are_handled() {
    let far = COORD_LIMIT / SUBPIXEL;
    assert!(Position::from_pixel(far, -far, 0).is_some());
    assert!(Position::from_pixel(far + 1, 0, 0).is_none());
    assert!(Position::from_pixel(0, -far - 1, 0).is_none());
    let a = raw(COORD_LIMIT, COORD_LIMIT, i32::MAX);
    let b = raw(COORD_LIMIT - 2 * SUBPIXEL, COORD_LIMIT, i32::MIN);
    let c = raw(COORD_LIMIT, COORD_LIMIT - 2 * SUBPIXEL, i32::MAX);
    assert!(a.is_on_screen() && b.is_on_screen() && c.is_on_screen());
    assert!(!raw(COORD_LIMIT + 1, 0, 0).is_on_screen());
    let fragments = triangle(&a, &b, &c);
    assert_eq!(
        pixels(&fragments),
        vec![(far, far - 2), (far - 1, far - 1), (far, far - 1), (far - 2, far), (far - 1, far), (far, far)]
    );
    let w = barycentric(
        Point2::new(-COORD_LIMIT, -COORD_LIMIT),
        Point2::new(COORD_LIMIT, -COORD_LIMIT),
        Point2::new(-COORD_LIMIT, COORD_LIMIT),
        Point2::new(COORD_LIMIT, COORD_LIMIT),
    );
    let side: i128 = 2 * (COORD_LIMIT as i128);
    assert_eq!(w.denom, side * side * side * side);
    assert_eq!(w.b1, w.denom);
    assert_eq!(w.b2, w.denom);
    assert_eq!(w.b0, -w.denom);
    assert_eq!(w.interpolate(i32::MIN, i32::MIN, i32::MAX).num, w.denom * (i32::MAX as i128));
}
